//! What an interactive shell around the conversions has to decide: which
//! choice a menu line stands for, and what to make of a line that should hold
//! a year.

use crate::text::{characters, trim, trimmed};
use vstd::prelude::*;

verus! {

/// What the user picked from the menu.
#[derive(Debug, Clone, Copy, PartialEq, Eq, Structural)]
pub enum UserChoice {
    IntegerToRoman,
    RomanToInteger,
    Exit,
    Invalid,
}

/// What a line that should hold a year turns out to hold.
#[derive(Debug, Clone, Copy, PartialEq, Eq, Structural)]
pub enum YearEntry {
    /// The line is not an integer that fits 32 bits.
    NotAnInteger,
    /// The line is 0, and no year has that number.
    YearZero,
    /// The year lies outside 1..=3999, whatever its sign.
    OutOfRange,
    /// A year of the common era, from 1 to 3999.
    Ad(i32),
    /// A year before the common era, given without its sign, from 1 to 3999.
    Bc(i32),
}

/// The choice that a menu line stands for, once it is trimmed.
pub open spec fn choice_of(line: Seq<char>) -> UserChoice {
    if line == seq!['1'] {
        UserChoice::IntegerToRoman
    } else if line == seq!['2'] {
        UserChoice::RomanToInteger
    } else if line == seq!['3'] {
        UserChoice::Exit
    } else {
        UserChoice::Invalid
    }
}

/// Whether a sequence is one decimal digit or more, and nothing else.
pub open spec fn is_decimal(digits: Seq<char>) -> bool {
    digits.len() > 0 && forall|i: int| 0 <= i < digits.len() ==> '0' <= #[trigger] digits[i] <= '9'
}

/// The number that a sequence of decimal digits writes.
pub open spec fn decimal_value(digits: Seq<char>) -> int
    decreases digits.len(),
{
    if digits.len() == 0 {
        0
    } else {
        10 * decimal_value(digits.drop_last()) + (digits.last() as int - '0' as int)
    }
}

/// A text without the sign that it may begin with.
pub open spec fn unsigned_part(s: Seq<char>) -> Seq<char> {
    if s.len() > 0 && (s[0] == '+' || s[0] == '-') {
        s.drop_first()
    } else {
        s
    }
}

/// The integer that a text writes in decimal, with or without a sign before
/// its digits, where it fits 32 bits.
pub open spec fn parsed_integer(s: Seq<char>) -> Option<i32> {
    let magnitude = decimal_value(unsigned_part(s));
    let value = if s.len() > 0 && s[0] == '-' {
        -magnitude
    } else {
        magnitude
    };
    if is_decimal(unsigned_part(s)) && i32::MIN <= value <= i32::MAX {
        Some(value as i32)
    } else {
        None
    }
}

/// What a year is taken for, or the absence of one.
pub open spec fn year_entry(year: Option<i32>) -> YearEntry {
    match year {
        None => YearEntry::NotAnInteger,
        Some(y) => if y == 0 {
            YearEntry::YearZero
        } else if y < -3999 || y > 3999 {
            YearEntry::OutOfRange
        } else if y < 0 {
            YearEntry::Bc((-y) as i32)
        } else {
            YearEntry::Ad(y)
        },
    }
}

/// Calls `str::parse::<i32>` and keeps the integer where there is one. The
/// contract restates the grammar that std documents for it: an optional `+`
/// or `-`, then decimal digits only, at least one; and a value that does not
/// fit the type is refused.
#[verifier::external_body]
fn parse_integer(s: &str) -> (parsed: Option<i32>)
    ensures
        parsed == parsed_integer(s@),
{
    s.parse::<i32>().ok()
}

/// Reads the user's choice off a menu line: `1`, `2` or `3` with any white
/// space around it; every other line is an invalid choice.
pub fn parse_choice(line: &str) -> (choice: UserChoice)
    ensures
        choice == choice_of(trimmed(line@)),
{
    let picked = characters(trim(line));
    if picked.len() != 1 {
        return UserChoice::Invalid;
    }
    let c = picked[0];
    proof {
        assert(picked@ =~= seq![c]);
    }
    if c == '1' {
        UserChoice::IntegerToRoman
    } else if c == '2' {
        UserChoice::RomanToInteger
    } else if c == '3' {
        UserChoice::Exit
    } else {
        UserChoice::Invalid
    }
}

/// Sorts a year by what can be done with it: there is no year 0, and only
/// the years from 1 to 3999, before or of the common era, can be written.
pub fn classify_year(raw_year: i32) -> (entry: YearEntry)
    ensures
        entry == year_entry(Some(raw_year)),
{
    if raw_year == 0 {
        YearEntry::YearZero
    } else if raw_year < -3999 || raw_year > 3999 {
        YearEntry::OutOfRange
    } else if raw_year < 0 {
        YearEntry::Bc(-raw_year)
    } else {
        YearEntry::Ad(raw_year)
    }
}

/// Reads a year off a line: the line is trimmed and read as an integer,
/// which is then sorted as `classify_year` does.
pub fn read_year(line: &str) -> (entry: YearEntry)
    ensures
        entry == year_entry(parsed_integer(trimmed(line@))),
{
    match parse_integer(trim(line)) {
        Some(raw_year) => classify_year(raw_year),
        None => YearEntry::NotAnInteger,
    }
}

} // verus!
