//! What holds of decoding and writing together.

use crate::decode::{decoded, lemma_rejected_character, numeral_value, RomanError};
use crate::digits::{lemma_decimal_digits, lemma_digits_are_decimal};
use crate::encode::{encoding_entry, numeral_of, standard_numeral, ENTRIES};
use crate::shortest::{subtracts_by_rule, theorem_written_numeral_is_shortest};
use crate::symbols::{all_symbols, is_symbol, symbol_weight};
use crate::text::{is_ascii_text, lemma_normalized_uppercased, normalized, uppercased};
use crate::values::{
    is_standard_numeral, lemma_decoded_symbols, lemma_symbols_are_normalized,
    lemma_value_of_standard_numeral,
};
use vstd::prelude::*;

verus! {

/// Decoding the numeral that is written for an integer from 1 to 3999 gives
/// the integer back.
pub proof fn theorem_round_trip(n: int)
    requires
        1 <= n <= 3999,
    ensures
        decoded(normalized(numeral_of(n))) == Ok::<i32, RomanError>(n as i32),
{
    lemma_decimal_digits(n);
    lemma_value_of_standard_numeral(n / 1000, (n / 100) % 10, (n / 10) % 10, n % 10);
    lemma_decoded_symbols(numeral_of(n));
}

/// The numeral that is written for an integer from 1 to 3999 is a numeral in
/// standard form.
pub proof fn theorem_written_in_standard_form(n: int)
    requires
        1 <= n <= 3999,
    ensures
        is_standard_numeral(numeral_of(n)),
{
    lemma_decimal_digits(n);
    assert(numeral_of(n) == standard_numeral(n / 1000, (n / 100) % 10, (n / 10) % 10, n % 10));
}

/// The one numeral in standard form that decodes to an integer from 1 to 3999
/// is the numeral that is written for it.
pub proof fn theorem_standard_numeral_is_unique(n: int, s: Seq<char>)
    requires
        1 <= n <= 3999,
        is_standard_numeral(s),
        decoded(normalized(s)) == Ok::<i32, RomanError>(n as i32),
    ensures
        s == numeral_of(n),
{
    let (thousands, hundreds, tens, units) = choose|
        thousands: int,
        hundreds: int,
        tens: int,
        units: int,
    |
        0 <= thousands <= 3 && 0 <= hundreds <= 9 && 0 <= tens <= 9 && 0 <= units <= 9 && s
            == #[trigger] standard_numeral(thousands, hundreds, tens, units);
    lemma_value_of_standard_numeral(thousands, hundreds, tens, units);
    lemma_symbols_are_normalized(s);
    assert(numeral_value(s) == n) by {
        lemma_rejected_character(s);
    }
    lemma_digits_are_decimal(n, thousands, hundreds, tens, units);
}

/// No sequence of symbols that subtracts by the rule and decodes to an
/// integer is shorter than the numeral that is written for the integer.
pub proof fn theorem_no_shorter_numeral(n: int, s: Seq<char>)
    requires
        1 <= n <= 3999,
        subtracts_by_rule(s),
        decoded(normalized(s)) == Ok::<i32, RomanError>(n as i32),
    ensures
        numeral_of(n).len() <= s.len(),
{
    theorem_written_numeral_is_shortest(s);
    lemma_symbols_are_normalized(s);
    lemma_rejected_character(s);
}

/// Letter case is ignored in an ASCII text: what is decoded from it is what
/// is decoded from the text in upper case.
pub proof fn theorem_ascii_case_is_ignored(s: Seq<char>)
    requires
        is_ascii_text(s),
    ensures
        decoded(normalized(uppercased(s))) == decoded(normalized(s)),
{
    lemma_normalized_uppercased(s);
}

/// The total of a sequence of numeral symbols is no less than the weight of
/// its first symbol: what is subtracted is always more than made up for by
/// the larger symbol that follows. So no total is below one.
pub proof fn theorem_total_is_positive(s: Seq<char>)
    requires
        all_symbols(s),
        s.len() > 0,
    ensures
        numeral_value(s) >= symbol_weight(s[0]) >= 1,
    decreases s.len(),
{
    let rest = s.drop_first();
    assert(is_symbol(s[0]));
    if rest.len() > 0 {
        assert forall|i: int| 0 <= i < rest.len() implies is_symbol(#[trigger] rest[i]) by {
            assert(rest[i] == s[i + 1]);
        }
        assert(rest[0] == s[1]);
        assert(is_symbol(s[1]));
        theorem_total_is_positive(rest);
        assert(symbol_weight(s[0]) < symbol_weight(s[1]) ==> 2 * symbol_weight(s[0])
            <= symbol_weight(s[1]));
    } else {
        assert(numeral_value(rest) == 0);
    }
}

/// The symbols of each entry of the encoding table add up to the entry's
/// magnitude.
pub proof fn theorem_table_entries_decode(index: int)
    requires
        0 <= index < ENTRIES,
    ensures
        all_symbols(encoding_entry(index).1),
        numeral_value(encoding_entry(index).1) == encoding_entry(index).0,
{
    let symbols = encoding_entry(index).1;
    reveal_with_fuel(numeral_value, 3);
    if symbols.len() == 2 {
        assert(symbols.drop_first().len() == 1);
        assert(symbols.drop_first()[0] == symbols[1]);
    }
}

} // verus!
