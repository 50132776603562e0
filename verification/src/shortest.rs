//! How long a numeral has to be: the numeral that is written for an integer
//! is no longer than any sequence of symbols that adds up to the integer and
//! subtracts by the rule.

use crate::decode::numeral_value;
use crate::digits::{lemma_decimal_digits, lemma_digits_are_decimal};
use crate::encode::{digit_numeral, numeral_of, repeated, standard_numeral};
use crate::symbols::{all_symbols, is_symbol, symbol_weight};
use crate::values::{
    is_standard_numeral, lemma_value_of_digit, lemma_value_of_standard_numeral, weighs_at_least,
};
use vstd::prelude::*;

verus! {

/// How many symbols the writing of a digit takes.
pub open spec fn digit_length(digit: int) -> int {
    if digit == 9 || digit == 4 {
        2
    } else if digit >= 5 {
        digit - 4
    } else {
        digit
    }
}

/// How many symbols the numeral for an integer takes; meant for an integer
/// that is not negative.
pub open spec fn numeral_length(n: int) -> int {
    n / 1000 + digit_length((n / 100) % 10) + digit_length((n / 10) % 10) + digit_length(n % 10)
}

proof fn lemma_length_of_digits(n: int, thousands: int, hundreds: int, tens: int, units: int)
    requires
        0 <= thousands,
        0 <= hundreds <= 9,
        0 <= tens <= 9,
        0 <= units <= 9,
        1000 * thousands + 100 * hundreds + 10 * tens + units == n,
    ensures
        numeral_length(n) == thousands + digit_length(hundreds) + digit_length(tens)
            + digit_length(units),
{
    lemma_digits_are_decimal(n, thousands, hundreds, tens, units);
}

/// The numeral for an integer that is not negative is as long as
/// `numeral_length` says.
pub proof fn lemma_numeral_length(n: int)
    requires
        0 <= n,
    ensures
        numeral_of(n).len() == numeral_length(n),
{
    lemma_decimal_digits(n);
}

/// One thousand more takes one symbol more.
proof fn lemma_one_more_thousand(n: int)
    requires
        0 <= n,
    ensures
        numeral_length(n + 1000) == numeral_length(n) + 1,
{
    lemma_decimal_digits(n);
    lemma_length_of_digits(
        n + 1000,
        n / 1000 + 1,
        (n / 100) % 10,
        (n / 10) % 10,
        n % 10,
    );
}

/// One hundred more takes one symbol more at most.
proof fn lemma_one_more_hundred(n: int)
    requires
        0 <= n,
    ensures
        numeral_length(n + 100) <= numeral_length(n) + 1,
{
    lemma_decimal_digits(n);
    let (m, c, x, i) = (n / 1000, (n / 100) % 10, (n / 10) % 10, n % 10);
    if c < 9 {
        lemma_length_of_digits(n + 100, m, c + 1, x, i);
    } else {
        lemma_length_of_digits(n + 100, m + 1, 0, x, i);
    }
}

/// Ten more takes one symbol more at most.
proof fn lemma_one_more_ten(n: int)
    requires
        0 <= n,
    ensures
        numeral_length(n + 10) <= numeral_length(n) + 1,
{
    lemma_decimal_digits(n);
    let (m, c, x, i) = (n / 1000, (n / 100) % 10, (n / 10) % 10, n % 10);
    if x < 9 {
        lemma_length_of_digits(n + 10, m, c, x + 1, i);
    } else {
        lemma_length_of_digits(n - 90, m, c, 0, i);
        lemma_one_more_hundred(n - 90);
    }
}

/// One more takes one symbol more at most.
proof fn lemma_one_more_unit(n: int)
    requires
        0 <= n,
    ensures
        numeral_length(n + 1) <= numeral_length(n) + 1,
{
    lemma_decimal_digits(n);
    let (m, c, x, i) = (n / 1000, (n / 100) % 10, (n / 10) % 10, n % 10);
    if i < 9 {
        lemma_length_of_digits(n + 1, m, c, x, i + 1);
    } else {
        lemma_length_of_digits(n - 9, m, c, x, 0);
        lemma_one_more_ten(n - 9);
    }
}

/// An integer that is a symbol's weight larger takes one symbol more at most.
pub proof fn lemma_one_more_symbol(n: int, symbol: char)
    requires
        0 <= n,
        is_symbol(symbol),
    ensures
        numeral_length(n + symbol_weight(symbol)) <= numeral_length(n) + 1,
{
    lemma_decimal_digits(n);
    let (m, c, x, i) = (n / 1000, (n / 100) % 10, (n / 10) % 10, n % 10);
    let weight = symbol_weight(symbol);
    if weight == 1 {
        lemma_one_more_unit(n);
    } else if weight == 5 {
        if i < 5 {
            lemma_length_of_digits(n + 5, m, c, x, i + 5);
        } else {
            lemma_length_of_digits(n - 5, m, c, x, i - 5);
            lemma_one_more_ten(n - 5);
        }
    } else if weight == 10 {
        lemma_one_more_ten(n);
    } else if weight == 50 {
        if x < 5 {
            lemma_length_of_digits(n + 50, m, c, x + 5, i);
        } else {
            lemma_length_of_digits(n - 50, m, c, x - 5, i);
            lemma_one_more_hundred(n - 50);
        }
    } else if weight == 100 {
        lemma_one_more_hundred(n);
    } else if weight == 500 {
        if c < 5 {
            lemma_length_of_digits(n + 500, m, c + 5, x, i);
        } else {
            lemma_length_of_digits(n - 500, m, c - 5, x, i);
            lemma_one_more_thousand(n - 500);
        }
    } else {
        lemma_one_more_thousand(n);
    }
}

/// Where an integer has nothing in a place nor below it, four or nine of
/// that place more take two symbols more.
pub proof fn lemma_one_more_pair(n: int, unit: int, amount: int)
    requires
        0 <= n,
        unit == 1 || unit == 10 || unit == 100,
        n % (10 * unit) == 0,
        amount == 4 * unit || amount == 9 * unit,
    ensures
        numeral_length(n + amount) == numeral_length(n) + 2,
{
    lemma_decimal_digits(n);
    let (m, c, x, i) = (n / 1000, (n / 100) % 10, (n / 10) % 10, n % 10);
    let digit = if amount == 4 * unit {
        4int
    } else {
        9int
    };
    if unit == 1 {
        assert(i == 0);
        lemma_length_of_digits(n + amount, m, c, x, digit);
    } else if unit == 10 {
        assert(i == 0 && x == 0);
        lemma_length_of_digits(n + amount, m, c, digit, 0);
    } else {
        assert(i == 0 && x == 0 && c == 0);
        lemma_length_of_digits(n + amount, m, digit, 0, 0);
    }
}

/// Whether two symbols in a row are one of the six pairs in which the first
/// is subtracted: IV, IX, XL, XC, CD and CM.
pub open spec fn is_subtractive_pair(first: char, second: char) -> bool {
    ||| first == 'I' && (second == 'V' || second == 'X')
    ||| first == 'X' && (second == 'L' || second == 'C')
    ||| first == 'C' && (second == 'D' || second == 'M')
}

/// Whether a sequence of symbols subtracts by the rule and stays below
/// `bound`. The sequence is read as single symbols and pairs, a pair being a
/// symbol before a heavier one. By the rule a pair is one of the six, and
/// whatever comes after it, symbol or pair, counts less than the symbol that
/// the pair subtracts. Below `bound` means that each symbol or pair counts
/// less than `bound`, up to the first pair.
pub open spec fn subtracts_by_rule_below(s: Seq<char>, bound: int) -> bool
    decreases s.len(),
{
    if s.len() == 0 {
        true
    } else if s.len() >= 2 && symbol_weight(s[0]) < symbol_weight(s[1]) {
        &&& is_subtractive_pair(s[0], s[1])
        &&& symbol_weight(s[1]) - symbol_weight(s[0]) < bound
        &&& subtracts_by_rule_below(s.skip(2), symbol_weight(s[0]))
    } else {
        &&& symbol_weight(s[0]) < bound
        &&& subtracts_by_rule_below(s.drop_first(), bound)
    }
}

/// Whether a sequence of symbols subtracts by the rule: a symbol stands
/// before a heavier one in the six pairs only, and whatever comes after such a
/// pair counts less than the symbol subtracted. Every numeral in standard form
/// goes by the rule, and so do `IIII`, `XLIIII` and every sequence that never
/// subtracts; `IL`, `VX`, `IXIX` and `IVX` do not.
pub open spec fn subtracts_by_rule(s: Seq<char>) -> bool {
    // No symbol and no pair counts 10000 or more.
    all_symbols(s) && subtracts_by_rule_below(s, 10000)
}

/// Whether an integer has nothing in the decimal places under `bound`,
/// which is a power of ten.
pub open spec fn nothing_under(n: int, bound: int) -> bool {
    &&& bound >= 10 ==> n % 10 == 0
    &&& bound >= 100 ==> n % 100 == 0
    &&& bound >= 1000 ==> n % 1000 == 0
}

/// A pair that counts less than `bound` fits an integer that has nothing
/// under `bound`: the integer has nothing in the pair's place either, and
/// with the pair it has nothing under that place.
proof fn lemma_place_of_pair(base: int, bound: int, unit: int, amount: int)
    requires
        bound == 1 || bound == 10 || bound == 100 || bound == 1000 || bound == 10000,
        nothing_under(base, bound),
        unit == 1 || unit == 10 || unit == 100,
        amount == 4 * unit || amount == 9 * unit,
        amount < bound,
    ensures
        base % (10 * unit) == 0,
        nothing_under(base + amount, unit),
{
    if unit == 10 {
        assert(base % 10 == 0 && base % 100 == 0);
        assert((base + amount) % 10 == 0);
    } else if unit == 100 {
        assert(base % 10 == 0 && base % 100 == 0 && base % 1000 == 0);
        assert((base + amount) % 10 == 0);
        assert((base + amount) % 100 == 0);
    }
}

/// Symbols that go by the rule, put after an integer that has nothing in
/// their places, make it no shorter: the numeral for the sum takes no more
/// symbols than the numeral for the integer and the symbols together.
proof fn lemma_no_shorter_after(s: Seq<char>, base: int, bound: int)
    requires
        all_symbols(s),
        subtracts_by_rule_below(s, bound),
        bound == 1 || bound == 10 || bound == 100 || bound == 1000 || bound == 10000,
        0 <= base,
        nothing_under(base, bound),
    ensures
        0 <= numeral_value(s),
        numeral_length(base + numeral_value(s)) <= numeral_length(base) + s.len(),
    decreases s.len(),
{
    if s.len() > 0 {
        let first = s[0];
        let tail = s.drop_first();
        assert(is_symbol(first));
        assert forall|i: int| 0 <= i < tail.len() implies is_symbol(#[trigger] tail[i]) by {
            assert(tail[i] == s[i + 1]);
        }
        if s.len() >= 2 && symbol_weight(first) < symbol_weight(s[1]) {
            let second = s[1];
            let rest = s.skip(2);
            let unit = symbol_weight(first);
            let amount = symbol_weight(second) - unit;
            assert(tail[0] == second);
            assert(tail.drop_first() =~= rest);
            assert forall|i: int| 0 <= i < rest.len() implies is_symbol(#[trigger] rest[i]) by {
                assert(rest[i] == s[i + 2]);
            }
            if rest.len() > 0 {
                assert(tail[1] == rest[0]);
                assert(is_symbol(rest[0]));
                if rest.len() >= 2 {
                    assert(is_symbol(rest[1]));
                }
                assert(subtracts_by_rule_below(rest, unit));
                assert(symbol_weight(rest[0]) < unit);
            }
            assert(numeral_value(tail) == numeral_value(rest) + symbol_weight(second));
            assert(numeral_value(s) == numeral_value(rest) + amount);
            lemma_place_of_pair(base, bound, unit, amount);
            lemma_one_more_pair(base, unit, amount);
            lemma_no_shorter_after(rest, base + amount, unit);
        } else {
            if tail.len() == 0 {
                assert(numeral_value(tail) == 0);
            }
            lemma_no_shorter_after(tail, base, bound);
            lemma_one_more_symbol(base + numeral_value(tail), first);
        }
    }
}

/// A sequence that stays below a bound stays below every larger one.
proof fn lemma_rule_widens(s: Seq<char>, bound: int, wider: int)
    requires
        subtracts_by_rule_below(s, bound),
        bound <= wider,
    ensures
        subtracts_by_rule_below(s, wider),
    decreases s.len(),
{
    if s.len() > 0 && !(s.len() >= 2 && symbol_weight(s[0]) < symbol_weight(s[1])) {
        lemma_rule_widens(s.drop_first(), bound, wider);
    }
}

/// Two sequences in a row go by the rule where each does and no symbol of
/// the first is lighter than `low`, below which the second stays.
proof fn lemma_rule_of_sequence(a: Seq<char>, b: Seq<char>, bound: int, low: int)
    requires
        subtracts_by_rule_below(a, bound),
        subtracts_by_rule_below(b, low),
        weighs_at_least(a, low),
        low <= bound,
    ensures
        subtracts_by_rule_below(a + b, bound),
    decreases a.len(),
{
    let s = a + b;
    if a.len() == 0 {
        assert(s =~= b);
        lemma_rule_widens(b, low, bound);
    } else {
        assert(s[0] == a[0]);
        assert(symbol_weight(a[0]) >= low);
        if a.len() >= 2 && symbol_weight(a[0]) < symbol_weight(a[1]) {
            let rest = a.skip(2);
            assert(s[1] == a[1]);
            assert(s.skip(2) =~= rest + b);
            assert forall|i: int| 0 <= i < rest.len() implies symbol_weight(#[trigger] rest[i])
                >= low by {
                assert(rest[i] == a[i + 2]);
            }
            lemma_rule_of_sequence(rest, b, symbol_weight(a[0]), low);
        } else {
            let rest = a.drop_first();
            assert(s.drop_first() =~= rest + b);
            assert forall|i: int| 0 <= i < rest.len() implies symbol_weight(#[trigger] rest[i])
                >= low by {
                assert(rest[i] == a[i + 1]);
            }
            if a.len() >= 2 {
                assert(s[1] == a[1]);
            } else if b.len() > 0 {
                assert(s[1] == b[0]);
                assert(symbol_weight(b[0]) < low);
            }
            lemma_rule_of_sequence(rest, b, bound, low);
        }
    }
}

/// A symbol written several times over goes by the rule.
proof fn lemma_rule_of_repeated(c: char, times: int, bound: int)
    requires
        symbol_weight(c) < bound,
    ensures
        subtracts_by_rule_below(repeated(c, times), bound),
    decreases times,
{
    if times > 0 {
        assert(repeated(c, times).drop_first() =~= repeated(c, times - 1));
        lemma_rule_of_repeated(c, times - 1, bound);
    }
}

/// The writing of a digit goes by the rule, and stays below ten of its place.
proof fn lemma_rule_of_digit(digit: int, one: char, five: char, ten: char)
    requires
        0 <= digit <= 9,
        is_subtractive_pair(one, five),
        is_subtractive_pair(one, ten),
        symbol_weight(five) == 5 * symbol_weight(one),
        symbol_weight(ten) == 10 * symbol_weight(one),
    ensures
        subtracts_by_rule_below(digit_numeral(digit, one, five, ten), symbol_weight(ten)),
{
    let s = digit_numeral(digit, one, five, ten);
    let bound = symbol_weight(ten);
    if digit == 9 || digit == 4 {
        assert(s.len() == 2 && s[0] == one);
        assert(s.skip(2) =~= Seq::<char>::empty());
        assert(subtracts_by_rule_below(s.skip(2), symbol_weight(one)));
        assert(subtracts_by_rule_below(s, bound));
    } else if digit >= 5 {
        assert(s[0] == five);
        assert(s.drop_first() =~= repeated(one, digit - 5));
        if digit > 5 {
            assert(s[1] == one);
        }
        lemma_rule_of_repeated(one, digit - 5, bound);
        assert(subtracts_by_rule_below(s, bound));
    } else {
        lemma_rule_of_repeated(one, digit, bound);
    }
}

/// The numeral that is written for the total of a sequence of symbols is no
/// longer than the sequence, where the sequence subtracts by the rule.
pub proof fn theorem_written_numeral_is_shortest(s: Seq<char>)
    requires
        subtracts_by_rule(s),
    ensures
        0 <= numeral_value(s),
        numeral_of(numeral_value(s)).len() <= s.len(),
{
    lemma_no_shorter_after(s, 0, 10000);
    lemma_numeral_length(numeral_value(s));
    assert(numeral_length(0) == 0);
}

/// Every numeral in standard form subtracts by the rule.
pub proof fn theorem_standard_numeral_by_rule(s: Seq<char>)
    requires
        is_standard_numeral(s),
    ensures
        subtracts_by_rule(s),
{
    let (thousands, hundreds, tens, units) = choose|
        thousands: int,
        hundreds: int,
        tens: int,
        units: int,
    |
        0 <= thousands <= 3 && 0 <= hundreds <= 9 && 0 <= tens <= 9 && 0 <= units <= 9 && s
            == #[trigger] standard_numeral(thousands, hundreds, tens, units);
    let m = repeated('M', thousands);
    let c = digit_numeral(hundreds, 'C', 'D', 'M');
    let x = digit_numeral(tens, 'X', 'L', 'C');
    let i = digit_numeral(units, 'I', 'V', 'X');
    lemma_value_of_standard_numeral(thousands, hundreds, tens, units);
    lemma_value_of_digit(hundreds, 'C', 'D', 'M');
    lemma_value_of_digit(tens, 'X', 'L', 'C');
    lemma_rule_of_repeated('M', thousands, 10000);
    lemma_rule_of_digit(hundreds, 'C', 'D', 'M');
    lemma_rule_of_digit(tens, 'X', 'L', 'C');
    lemma_rule_of_digit(units, 'I', 'V', 'X');
    lemma_rule_of_sequence(m, c, 10000, 1000);
    lemma_rule_of_sequence(m + c, x, 10000, 100);
    lemma_rule_of_sequence(m + c + x, i, 10000, 10);
}

} // verus!
