//! Writing: from an integer to its numeral, by a walk down the encoding
//! table.

use crate::digits::{lemma_decimal_digits, lemma_digits_are_decimal};
use vstd::prelude::*;

verus! {

/// A character written a number of times over; nothing for a number below one.
pub open spec fn repeated(c: char, times: int) -> Seq<char> {
    Seq::new(
        if times > 0 {
            times as nat
        } else {
            0
        },
        |i: int| c,
    )
}

/// How one decimal digit is written with the symbols for one, five and ten of
/// its place: ones are piled up to three, four and nine are written as one
/// before five and one before ten, and five to eight as five followed by ones.
pub open spec fn digit_numeral(digit: int, one: char, five: char, ten: char) -> Seq<char> {
    if digit == 9 {
        seq![one, ten]
    } else if digit == 4 {
        seq![one, five]
    } else if digit >= 5 {
        seq![five] + repeated(one, digit - 5)
    } else {
        repeated(one, digit)
    }
}

/// The numeral written place by place: an `M` for each thousand, then the
/// digits of the hundreds, of the tens and of the units.
pub open spec fn standard_numeral(thousands: int, hundreds: int, tens: int, units: int) -> Seq<
    char,
> {
    repeated('M', thousands) + digit_numeral(hundreds, 'C', 'D', 'M') + digit_numeral(
        tens,
        'X',
        'L',
        'C',
    ) + digit_numeral(units, 'I', 'V', 'X')
}

/// The numeral for an integer; nothing for an integer below one.
pub open spec fn numeral_of(n: int) -> Seq<char> {
    if n < 0 {
        Seq::empty()
    } else {
        standard_numeral(n / 1000, (n / 100) % 10, (n / 10) % 10, n % 10)
    }
}

/// How many entries the encoding table has.
pub const ENTRIES: usize = 13;

/// The entries of the encoding table: the thirteen magnitudes that are
/// written with a symbol or a pair of their own, from the largest down, each
/// with its symbols.
pub open spec fn encoding_entry(index: int) -> (int, Seq<char>) {
    if index == 0 {
        (1000, seq!['M'])
    } else if index == 1 {
        (900, seq!['C', 'M'])
    } else if index == 2 {
        (500, seq!['D'])
    } else if index == 3 {
        (400, seq!['C', 'D'])
    } else if index == 4 {
        (100, seq!['C'])
    } else if index == 5 {
        (90, seq!['X', 'C'])
    } else if index == 6 {
        (50, seq!['L'])
    } else if index == 7 {
        (40, seq!['X', 'L'])
    } else if index == 8 {
        (10, seq!['X'])
    } else if index == 9 {
        (9, seq!['I', 'X'])
    } else if index == 10 {
        (5, seq!['V'])
    } else if index == 11 {
        (4, seq!['I', 'V'])
    } else {
        (1, seq!['I'])
    }
}

/// What the integer still to be written is known to lie under when the walk
/// down the table has come to an entry: the magnitude of the entry before.
pub open spec fn below_previous(index: int, rest: int) -> bool {
    index > 0 ==> rest < encoding_entry(index - 1).0
}

/// The magnitudes of the table go strictly down.
pub proof fn lemma_table_descends(earlier: int, later: int)
    requires
        0 <= earlier < later < ENTRIES,
    ensures
        encoding_entry(earlier).0 > encoding_entry(later).0 > 0,
{
}

/// How the writing of a digit begins: with which symbols, and which digit
/// the symbols after them write.
proof fn lemma_digit_begins(digit: int, one: char, five: char, ten: char)
    requires
        0 <= digit <= 9,
    ensures
        digit == 0 ==> digit_numeral(digit, one, five, ten).len() == 0,
        1 <= digit <= 3 ==> digit_numeral(digit, one, five, ten) == seq![one] + digit_numeral(
            digit - 1,
            one,
            five,
            ten,
        ),
        digit == 4 ==> digit_numeral(digit, one, five, ten) == seq![one, five] + digit_numeral(
            0,
            one,
            five,
            ten,
        ),
        5 <= digit <= 8 ==> digit_numeral(digit, one, five, ten) == seq![five] + digit_numeral(
            digit - 5,
            one,
            five,
            ten,
        ),
        digit == 9 ==> digit_numeral(digit, one, five, ten) == seq![one, ten] + digit_numeral(
            0,
            one,
            five,
            ten,
        ),
{
    let nothing = digit_numeral(0, one, five, ten);
    if 1 <= digit <= 3 {
        assert(repeated(one, digit) =~= seq![one] + repeated(one, digit - 1));
    } else if digit == 4 {
        assert(seq![one, five] =~= seq![one, five] + nothing);
    } else if digit == 9 {
        assert(seq![one, ten] =~= seq![one, ten] + nothing);
    }
}

/// Symbols that begin the writing of the first place that is not empty begin
/// the whole numeral.
proof fn lemma_begins_numeral(
    symbols: Seq<char>,
    thousands: Seq<char>,
    hundreds: Seq<char>,
    tens: Seq<char>,
    units: Seq<char>,
    thousands_left: Seq<char>,
    hundreds_left: Seq<char>,
    tens_left: Seq<char>,
    units_left: Seq<char>,
)
    requires
        ({
            ||| thousands == symbols + thousands_left && hundreds == hundreds_left && tens
                == tens_left && units == units_left
            ||| thousands.len() == 0 && thousands_left.len() == 0 && hundreds == symbols
                + hundreds_left && tens == tens_left && units == units_left
            ||| thousands.len() == 0 && thousands_left.len() == 0 && hundreds.len() == 0
                && hundreds_left.len() == 0 && tens == symbols + tens_left && units == units_left
            ||| thousands.len() == 0 && thousands_left.len() == 0 && hundreds.len() == 0
                && hundreds_left.len() == 0 && tens.len() == 0 && tens_left.len() == 0 && units
                == symbols + units_left
        }),
    ensures
        thousands + hundreds + tens + units == symbols + (thousands_left + hundreds_left
            + tens_left + units_left),
{
    assert(thousands + hundreds + tens + units =~= symbols + (thousands_left + hundreds_left
        + tens_left + units_left));
}

/// An integer that is not negative is written with its decimal digits.
proof fn lemma_written_with_digits(n: int, thousands: int, hundreds: int, tens: int, units: int)
    requires
        0 <= thousands,
        0 <= hundreds <= 9,
        0 <= tens <= 9,
        0 <= units <= 9,
        1000 * thousands + 100 * hundreds + 10 * tens + units == n,
    ensures
        numeral_of(n) == standard_numeral(thousands, hundreds, tens, units),
{
    lemma_digits_are_decimal(n, thousands, hundreds, tens, units);
}

/// One step down the table: an integer that reaches an entry's magnitude, and
/// lies under the magnitude of the entry before, is written as the entry's
/// symbols followed by the numeral of what is left.
pub proof fn lemma_leading_entry(index: int, n: int)
    requires
        0 <= index < ENTRIES,
        encoding_entry(index).0 <= n,
        below_previous(index, n),
    ensures
        numeral_of(n) == encoding_entry(index).1 + numeral_of(n - encoding_entry(index).0),
{
    let (value, symbols) = encoding_entry(index);
    let (m, c, x, i) = (n / 1000, (n / 100) % 10, (n / 10) % 10, n % 10);
    lemma_decimal_digits(n);
    // The digits of what is left: the entry takes its magnitude off one place.
    let (m2, c2, x2, i2) = if index == 0 {
        (m - 1, c, x, i)
    } else if index <= 4 {
        (m, c - value / 100, x, i)
    } else if index <= 8 {
        (m, c, x - value / 10, i)
    } else {
        (m, c, x, i - value)
    };
    lemma_written_with_digits(n - value, m2, c2, x2, i2);
    if index == 0 {
        assert(repeated('M', m) =~= symbols + repeated('M', m2));
    }
    lemma_digit_begins(c, 'C', 'D', 'M');
    lemma_digit_begins(x, 'X', 'L', 'C');
    lemma_digit_begins(i, 'I', 'V', 'X');
    lemma_begins_numeral(
        symbols,
        repeated('M', m),
        digit_numeral(c, 'C', 'D', 'M'),
        digit_numeral(x, 'X', 'L', 'C'),
        digit_numeral(i, 'I', 'V', 'X'),
        repeated('M', m2),
        digit_numeral(c2, 'C', 'D', 'M'),
        digit_numeral(x2, 'X', 'L', 'C'),
        digit_numeral(i2, 'I', 'V', 'X'),
    );
}

/// An entry of the table: its magnitude and its symbols.
fn table_entry(index: usize) -> (entry: (i32, &'static str))
    requires
        index < ENTRIES,
    ensures
        entry.0 == encoding_entry(index as int).0,
        entry.1@ == encoding_entry(index as int).1,
{
    let values: [(i32, &'static str); ENTRIES] = [
        (1000, "M"),
        (900, "CM"),
        (500, "D"),
        (400, "CD"),
        (100, "C"),
        (90, "XC"),
        (50, "L"),
        (40, "XL"),
        (10, "X"),
        (9, "IX"),
        (5, "V"),
        (4, "IV"),
        (1, "I"),
    ];
    proof {
        reveal_strlit("M");
        reveal_strlit("CM");
        reveal_strlit("D");
        reveal_strlit("CD");
        reveal_strlit("C");
        reveal_strlit("XC");
        reveal_strlit("L");
        reveal_strlit("XL");
        reveal_strlit("X");
        reveal_strlit("IX");
        reveal_strlit("V");
        reveal_strlit("IV");
        reveal_strlit("I");
        assert("M"@ =~= seq!['M']);
        assert("CM"@ =~= seq!['C', 'M']);
        assert("D"@ =~= seq!['D']);
        assert("CD"@ =~= seq!['C', 'D']);
        assert("C"@ =~= seq!['C']);
        assert("XC"@ =~= seq!['X', 'C']);
        assert("L"@ =~= seq!['L']);
        assert("XL"@ =~= seq!['X', 'L']);
        assert("X"@ =~= seq!['X']);
        assert("IX"@ =~= seq!['I', 'X']);
        assert("V"@ =~= seq!['V']);
        assert("IV"@ =~= seq!['I', 'V']);
        assert("I"@ =~= seq!['I']);
    }
    values[index]
}

/// Writes an integer as a Roman numeral: walks the table from the largest
/// magnitude down and, for as long as the integer reaches a magnitude, writes
/// its symbols and takes the magnitude off. An integer below one is written as
/// the empty text.
pub fn integer_to_roman(num: i32) -> (numeral: String)
    ensures
        numeral@ == numeral_of(num as int),
{
    let mut result = String::new();
    let mut rest: i32 = num;
    let mut index: usize = 0;
    proof {
        assert(result@ + numeral_of(rest as int) =~= numeral_of(num as int));
    }
    while index < ENTRIES
        invariant
            index <= ENTRIES,
            below_previous(index as int, rest as int),
            result@ + numeral_of(rest as int) == numeral_of(num as int),
        decreases ENTRIES - index,
    {
        let (value, symbols) = table_entry(index);
        while rest >= value
            invariant
                index < ENTRIES,
                value == encoding_entry(index as int).0,
                symbols@ == encoding_entry(index as int).1,
                below_previous(index as int, rest as int),
                result@ + numeral_of(rest as int) == numeral_of(num as int),
            decreases rest,
        {
            proof {
                lemma_leading_entry(index as int, rest as int);
                assert(result@ + (symbols@ + numeral_of(rest - value)) =~= (result@ + symbols@)
                    + numeral_of(rest - value));
            }
            result.append(symbols);
            rest -= value;
        }
        index += 1;
    }
    proof {
        assert(numeral_of(rest as int).len() == 0);
        assert(result@ + numeral_of(rest as int) =~= result@);
    }
    result
}

} // verus!
