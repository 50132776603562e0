//! What sequences of symbols add up to: the totals of the numerals that are
//! written place by place, and what decoding makes of symbols.

use crate::decode::{decoded, lemma_rejected_character, numeral_value, RomanError};
use crate::encode::{digit_numeral, repeated, standard_numeral};
use crate::symbols::{all_symbols, is_symbol, symbol_weight};
use crate::text::{ascii_uppercased, is_ascii_text, normalized, trimmed};
use vstd::prelude::*;

verus! {

/// Whether every character of a sequence weighs at least `bound`.
pub open spec fn weighs_at_least(s: Seq<char>, bound: int) -> bool {
    forall|i: int| 0 <= i < s.len() ==> symbol_weight(#[trigger] s[i]) >= bound
}

/// Whether every character of a sequence weighs at most `bound`.
pub open spec fn weighs_at_most(s: Seq<char>, bound: int) -> bool {
    forall|i: int| 0 <= i < s.len() ==> symbol_weight(#[trigger] s[i]) <= bound
}

/// Where no character of the second sequence outweighs one of the first, the
/// total of the two in a row is the sum of their totals.
pub proof fn lemma_value_of_sequence(a: Seq<char>, b: Seq<char>, bound: int)
    requires
        weighs_at_least(a, bound),
        weighs_at_most(b, bound),
    ensures
        numeral_value(a + b) == numeral_value(a) + numeral_value(b),
    decreases a.len(),
{
    let s = a + b;
    if a.len() == 0 {
        assert(s =~= b);
    } else {
        let rest = a.drop_first();
        assert(s.drop_first() =~= rest + b);
        assert(s[0] == a[0]);
        if a.len() == 1 {
            assert(rest + b =~= b);
            assert(numeral_value(rest) == 0);
            if b.len() > 0 {
                assert(s[1] == b[0]);
            }
        } else {
            assert(s[1] == a[1]);
            assert forall|i: int| 0 <= i < rest.len() implies symbol_weight(#[trigger] rest[i])
                >= bound by {
                assert(rest[i] == a[i + 1]);
            }
            lemma_value_of_sequence(rest, b, bound);
        }
    }
}

/// A symbol written several times over counts that many times.
pub proof fn lemma_value_of_repeated(c: char, times: int)
    requires
        0 <= times,
    ensures
        numeral_value(repeated(c, times)) == times * symbol_weight(c),
    decreases times,
{
    if times > 0 {
        let s = repeated(c, times);
        assert(s.drop_first() =~= repeated(c, times - 1));
        lemma_value_of_repeated(c, times - 1);
        assert(times * symbol_weight(c) == (times - 1) * symbol_weight(c) + symbol_weight(c))
            by (nonlinear_arith);
    }
}

/// The writing of a digit counts as the digit times the weight of its place,
/// and holds no symbol but the three of its place.
pub proof fn lemma_value_of_digit(digit: int, one: char, five: char, ten: char)
    requires
        0 <= digit <= 9,
        symbol_weight(one) > 0,
        symbol_weight(five) == 5 * symbol_weight(one),
        symbol_weight(ten) == 10 * symbol_weight(one),
    ensures
        numeral_value(digit_numeral(digit, one, five, ten)) == digit * symbol_weight(one),
        weighs_at_least(digit_numeral(digit, one, five, ten), symbol_weight(one)),
        weighs_at_most(digit_numeral(digit, one, five, ten), symbol_weight(ten)),
        digit > 0 ==> digit_numeral(digit, one, five, ten).len() > 0,
{
    let unit = symbol_weight(one);
    let s = digit_numeral(digit, one, five, ten);
    if digit == 9 || digit == 4 {
        assert(s.drop_first().drop_first() =~= Seq::<char>::empty());
        assert(numeral_value(s.drop_first()) == numeral_value(s.drop_first().drop_first())
            + symbol_weight(s[1]));
    } else if digit >= 5 {
        let ones = repeated(one, digit - 5);
        lemma_value_of_repeated(one, digit - 5);
        lemma_value_of_repeated(five, 1);
        assert(repeated(five, 1) =~= seq![five]);
        lemma_value_of_sequence(seq![five], ones, unit);
        assert(digit * unit == 5 * unit + (digit - 5) * unit) by (nonlinear_arith);
    } else {
        lemma_value_of_repeated(one, digit);
    }
}

/// A numeral written place by place counts as its digits say, and holds
/// numeral symbols only.
pub proof fn lemma_value_of_standard_numeral(thousands: int, hundreds: int, tens: int, units: int)
    requires
        0 <= thousands,
        0 <= hundreds <= 9,
        0 <= tens <= 9,
        0 <= units <= 9,
    ensures
        numeral_value(standard_numeral(thousands, hundreds, tens, units)) == 1000 * thousands + 100
            * hundreds + 10 * tens + units,
        all_symbols(standard_numeral(thousands, hundreds, tens, units)),
        thousands + hundreds + tens + units > 0 ==> standard_numeral(
            thousands,
            hundreds,
            tens,
            units,
        ).len() > 0,
{
    let m = repeated('M', thousands);
    let c = digit_numeral(hundreds, 'C', 'D', 'M');
    let x = digit_numeral(tens, 'X', 'L', 'C');
    let i = digit_numeral(units, 'I', 'V', 'X');
    lemma_value_of_repeated('M', thousands);
    lemma_value_of_digit(hundreds, 'C', 'D', 'M');
    lemma_value_of_digit(tens, 'X', 'L', 'C');
    lemma_value_of_digit(units, 'I', 'V', 'X');
    lemma_value_of_sequence(m, c, 1000);
    lemma_value_of_sequence(m + c, x, 100);
    lemma_value_of_sequence(m + c + x, i, 10);
}

/// Whether a sequence is a numeral in standard form: up to three `M`, then
/// one digit each for the hundreds, the tens and the units, each written in
/// the one way that `digit_numeral` gives.
pub open spec fn is_standard_numeral(s: Seq<char>) -> bool {
    exists|thousands: int, hundreds: int, tens: int, units: int|
        0 <= thousands <= 3 && 0 <= hundreds <= 9 && 0 <= tens <= 9 && 0 <= units <= 9 && s
            == #[trigger] standard_numeral(thousands, hundreds, tens, units)
}

/// Normalizing leaves a sequence of numeral symbols as it is.
pub proof fn lemma_symbols_are_normalized(s: Seq<char>)
    requires
        all_symbols(s),
    ensures
        normalized(s) == s,
{
    if s.len() > 0 {
        assert(is_symbol(s[0]) && is_symbol(s.last()));
    }
    assert(trimmed(s) == s);
    assert(is_ascii_text(s)) by {
        assert forall|i: int| 0 <= i < s.len() implies #[trigger] s[i] as u32 <= 0x7f by {
            assert(is_symbol(s[i]));
        }
    }
    assert forall|i: int| 0 <= i < s.len() implies #[trigger] ascii_uppercased(s)[i] == s[i] by {
        assert(is_symbol(s[i]));
    }
    assert(ascii_uppercased(s) =~= s);
}

/// A sequence of numeral symbols whose total lies from 1 to 3999 decodes to
/// its total, normalized or not.
pub proof fn lemma_decoded_symbols(s: Seq<char>)
    requires
        all_symbols(s),
        1 <= numeral_value(s) <= 3999,
    ensures
        decoded(s) == Ok::<i32, RomanError>(numeral_value(s) as i32),
        decoded(normalized(s)) == decoded(s),
{
    lemma_symbols_are_normalized(s);
    lemma_rejected_character(s);
}

} // verus!
