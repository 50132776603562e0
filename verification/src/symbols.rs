//! The symbol table: the seven numeral symbols and what each stands for.

use vstd::prelude::*;

verus! {

/// The value that a numeral symbol stands for; zero for every other character.
pub open spec fn symbol_weight(c: char) -> int {
    if c == 'I' {
        1
    } else if c == 'V' {
        5
    } else if c == 'X' {
        10
    } else if c == 'L' {
        50
    } else if c == 'C' {
        100
    } else if c == 'D' {
        500
    } else if c == 'M' {
        1000
    } else {
        0
    }
}

/// Whether a character is one of the seven numeral symbols.
pub open spec fn is_symbol(c: char) -> bool {
    symbol_weight(c) > 0
}

/// Whether a sequence holds numeral symbols only.
pub open spec fn all_symbols(s: Seq<char>) -> bool {
    forall|i: int| 0 <= i < s.len() ==> is_symbol(#[trigger] s[i])
}

/// Looks a character up in the symbol table.
pub fn symbol_value(c: char) -> (v: Option<i32>)
    ensures
        is_symbol(c) ==> v == Some(symbol_weight(c) as i32),
        !is_symbol(c) ==> v is None,
{
    match c {
        'I' => Some(1),
        'V' => Some(5),
        'X' => Some(10),
        'L' => Some(50),
        'C' => Some(100),
        'D' => Some(500),
        'M' => Some(1000),
        _ => None,
    }
}

} // verus!
