//! Decoding: from a text to the integer that its symbols add up to, or to
//! the reason why there is none.

use crate::symbols::{all_symbols, is_symbol, symbol_value, symbol_weight};
use crate::text::{characters, normalize, normalized};
use vstd::prelude::*;

verus! {

/// Why a text was not decoded.
#[derive(Debug, Clone, Copy, PartialEq, Eq, Structural)]
pub enum RomanError {
    /// The text holds a character that is not a numeral symbol.
    InvalidCharacter(char),
    /// Nothing is left of the text once the white space around it is gone.
    EmptyInput,
    /// The symbols add up to a total outside 1..=3999. The total is given as
    /// computed, which for a long text may be more than 32 or 64 bits hold.
    OutOfRange(i128),
}

/// The total of a sequence of symbols: each symbol adds its weight, except
/// where the symbol right after it weighs strictly more; there it subtracts.
pub open spec fn numeral_value(s: Seq<char>) -> int
    decreases s.len(),
{
    if s.len() == 0 {
        0
    } else if s.len() >= 2 && symbol_weight(s[0]) < symbol_weight(s[1]) {
        numeral_value(s.drop_first()) - symbol_weight(s[0])
    } else {
        numeral_value(s.drop_first()) + symbol_weight(s[0])
    }
}

/// The first character, going from the end of the sequence to its start,
/// that is not a numeral symbol.
pub open spec fn rejected_character(s: Seq<char>) -> Option<char>
    decreases s.len(),
{
    if s.len() == 0 {
        None
    } else if !is_symbol(s.last()) {
        Some(s.last())
    } else {
        rejected_character(s.drop_last())
    }
}

/// What decoding makes of a sequence of characters that has been trimmed and
/// upper-cased already.
pub open spec fn decoded(s: Seq<char>) -> Result<i32, RomanError> {
    if s.len() == 0 {
        Err(RomanError::EmptyInput)
    } else if let Some(c) = rejected_character(s) {
        Err(RomanError::InvalidCharacter(c))
    } else if 1 <= numeral_value(s) <= 3999 {
        Ok(numeral_value(s) as i32)
    } else {
        Err(RomanError::OutOfRange(numeral_value(s) as i128))
    }
}

/// A character is rejected exactly if the sequence holds one that is no
/// symbol, and the one rejected is the last such character in reading order.
pub proof fn lemma_rejected_character(s: Seq<char>)
    ensures
        rejected_character(s) is None <==> all_symbols(s),
        rejected_character(s) matches Some(c) ==> exists|j: int|
            0 <= j < s.len() && #[trigger] s[j] == c && !is_symbol(c) && all_symbols(
                s.subrange(j + 1, s.len() as int),
            ),
    decreases s.len(),
{
    if s.len() > 0 {
        let front = s.drop_last();
        lemma_rejected_character(front);
        let end = s.len() as int;
        if is_symbol(s.last()) {
            assert forall|i: int| 0 <= i < front.len() implies s[i] == front[i] by {}
            if let Some(c) = rejected_character(front) {
                let j = choose|j: int|
                    0 <= j < front.len() && #[trigger] front[j] == c && !is_symbol(c)
                        && all_symbols(front.subrange(j + 1, front.len() as int));
                let tail = s.subrange(j + 1, end);
                let front_tail = front.subrange(j + 1, front.len() as int);
                assert forall|i: int| 0 <= i < tail.len() implies is_symbol(
                    #[trigger] tail[i],
                ) by {
                    if i < front_tail.len() {
                        assert(tail[i] == front_tail[i]);
                    }
                }
                assert(s[j] == c);
            } else {
                assert forall|i: int| 0 <= i < s.len() implies is_symbol(#[trigger] s[i]) by {
                    if i < front.len() {
                        assert(s[i] == front[i]);
                    }
                }
            }
        } else {
            assert(s[end - 1] == s.last());
            assert(s.subrange(end, end).len() == 0);
        }
    }
}

/// Where a character is no symbol and every character after it is one, it is
/// the character rejected.
pub proof fn lemma_rejected_at(s: Seq<char>, j: int)
    requires
        0 <= j < s.len(),
        !is_symbol(s[j]),
        all_symbols(s.subrange(j + 1, s.len() as int)),
    ensures
        rejected_character(s) == Some(s[j]),
    decreases s.len(),
{
    if j + 1 < s.len() {
        let front = s.drop_last();
        let tail = s.subrange(j + 1, s.len() as int);
        assert(tail[tail.len() - 1] == s.last());
        assert forall|k: int| 0 <= k < front.len() - (j + 1) implies is_symbol(
            #[trigger] front.subrange(j + 1, front.len() as int)[k],
        ) by {
            assert(front.subrange(j + 1, front.len() as int)[k] == tail[k]);
        }
        lemma_rejected_at(front, j);
    }
}

/// Decodes a text that has been trimmed and upper-cased already: walks it from
/// its last character to its first, adding each symbol's value to the total, or
/// subtracting it where it is smaller than the value met just before.
pub fn decode_symbols(roman: &str) -> (r: Result<i32, RomanError>)
    ensures
        r == decoded(roman@),
        r matches Err(RomanError::OutOfRange(total)) ==> total == numeral_value(roman@),
{
    let symbols = characters(roman);
    let len = symbols.len();
    if len == 0 {
        return Err(RomanError::EmptyInput);
    }
    let ghost s = symbols@;
    let mut total: i128 = 0;
    let mut prev_value: i128 = 0;
    let mut i: usize = len;
    while i > 0
        invariant
            s == symbols@,
            s == roman@,
            len == s.len(),
            i <= len,
            all_symbols(s.subrange(i as int, len as int)),
            total == numeral_value(s.subrange(i as int, len as int)),
            prev_value == (if i < len {
                symbol_weight(s[i as int])
            } else {
                0
            }),
            -1000 * (len - i) <= total <= 1000 * (len - i),
        decreases i,
    {
        let ghost seen = s.subrange(i as int, len as int);
        i -= 1;
        let c = symbols[i];
        let ghost now = s.subrange(i as int, len as int);
        proof {
            assert(now.drop_first() == seen);
            assert(now[0] == c);
            if seen.len() > 0 {
                assert(now[1] == seen[0]);
            }
        }
        let value: i128 = match symbol_value(c) {
            Some(v) => v as i128,
            None => {
                proof {
                    lemma_rejected_at(s, i as int);
                }
                return Err(RomanError::InvalidCharacter(c));
            },
        };
        if value < prev_value {
            total -= value;
        } else {
            total += value;
        }
        prev_value = value;
        proof {
            assert forall|k: int| 0 <= k < now.len() implies is_symbol(#[trigger] now[k]) by {
                if k > 0 {
                    assert(now[k] == seen[k - 1]);
                }
            }
        }
    }
    proof {
        assert(s.subrange(0, len as int) == s);
        lemma_rejected_character(s);
    }
    if total < 1 || total > 3999 {
        return Err(RomanError::OutOfRange(total));
    }
    Ok(total as i32)
}

/// Decodes a Roman numeral: the white space around the text is dropped and
/// its letters are upper-cased, then the symbols are added up.
pub fn roman_to_integer(input: &str) -> (r: Result<i32, RomanError>)
    ensures
        r == decoded(normalized(input@)),
        r matches Err(RomanError::OutOfRange(total)) ==> total == numeral_value(
            normalized(input@),
        ),
{
    let roman = normalize(input);
    decode_symbols(roman.as_str())
}

} // verus!
