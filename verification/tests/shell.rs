use roman_numerals::{classify_year, parse_choice, read_year, UserChoice, YearEntry};

#[test]
fn the_menu_has_three_choices() {
    assert_eq!(parse_choice("1"), UserChoice::IntegerToRoman);
    assert_eq!(parse_choice("2"), UserChoice::RomanToInteger);
    assert_eq!(parse_choice("3"), UserChoice::Exit);
}

#[test]
fn a_choice_is_read_off_a_whole_line() {
    assert_eq!(parse_choice("1\n"), UserChoice::IntegerToRoman);
    assert_eq!(parse_choice("  2 \r\n"), UserChoice::RomanToInteger);
    assert_eq!(parse_choice("\t3"), UserChoice::Exit);
}

#[test]
fn every_other_line_is_an_invalid_choice() {
    assert_eq!(parse_choice(""), UserChoice::Invalid);
    assert_eq!(parse_choice("\n"), UserChoice::Invalid);
    assert_eq!(parse_choice("0"), UserChoice::Invalid);
    assert_eq!(parse_choice("4"), UserChoice::Invalid);
    assert_eq!(parse_choice("12"), UserChoice::Invalid);
    assert_eq!(parse_choice("1 2"), UserChoice::Invalid);
    assert_eq!(parse_choice("one"), UserChoice::Invalid);
    assert_eq!(parse_choice("+1"), UserChoice::Invalid);
}

#[test]
fn years_are_sorted_by_sign_and_range() {
    assert_eq!(classify_year(44), YearEntry::Ad(44));
    assert_eq!(classify_year(-44), YearEntry::Bc(44));
    assert_eq!(classify_year(1), YearEntry::Ad(1));
    assert_eq!(classify_year(-1), YearEntry::Bc(1));
    assert_eq!(classify_year(3999), YearEntry::Ad(3999));
    assert_eq!(classify_year(-3999), YearEntry::Bc(3999));
    assert_eq!(classify_year(0), YearEntry::YearZero);
    assert_eq!(classify_year(4000), YearEntry::OutOfRange);
    assert_eq!(classify_year(-4000), YearEntry::OutOfRange);
    assert_eq!(classify_year(i32::MAX), YearEntry::OutOfRange);
    assert_eq!(classify_year(i32::MIN), YearEntry::OutOfRange);
}

#[test]
fn a_year_is_read_off_a_whole_line() {
    assert_eq!(read_year("44\n"), YearEntry::Ad(44));
    assert_eq!(read_year(" -44 \r\n"), YearEntry::Bc(44));
    assert_eq!(read_year("+2019"), YearEntry::Ad(2019));
    assert_eq!(read_year("0044"), YearEntry::Ad(44));
    assert_eq!(read_year("0"), YearEntry::YearZero);
    assert_eq!(read_year("-0"), YearEntry::YearZero);
    assert_eq!(read_year("4000"), YearEntry::OutOfRange);
    assert_eq!(read_year("-2147483648"), YearEntry::OutOfRange);
}

#[test]
fn a_line_that_is_no_integer_is_told_apart() {
    assert_eq!(read_year(""), YearEntry::NotAnInteger);
    assert_eq!(read_year("\n"), YearEntry::NotAnInteger);
    assert_eq!(read_year("XLIV"), YearEntry::NotAnInteger);
    assert_eq!(read_year("4 4"), YearEntry::NotAnInteger);
    assert_eq!(read_year("44.0"), YearEntry::NotAnInteger);
    assert_eq!(read_year("-"), YearEntry::NotAnInteger);
    assert_eq!(read_year("+"), YearEntry::NotAnInteger);
    assert_eq!(read_year("--4"), YearEntry::NotAnInteger);
    assert_eq!(read_year("1_000"), YearEntry::NotAnInteger);
    assert_eq!(read_year("2147483648"), YearEntry::NotAnInteger);
    assert_eq!(read_year("-2147483649"), YearEntry::NotAnInteger);
}

// The reading of a year, worked out in the open: an optional sign, then
// decimal digits only, and a value that fits 32 bits.
fn year_by_hand(line: &str) -> YearEntry {
    let text = line.trim();
    let (negative, digits) = match text.chars().next() {
        Some('-') => (true, &text[1..]),
        Some('+') => (false, &text[1..]),
        _ => (false, text),
    };
    if digits.is_empty() || !digits.chars().all(|c| ('0'..='9').contains(&c)) {
        return YearEntry::NotAnInteger;
    }
    let mut value: i64 = 0;
    for c in digits.chars() {
        value = value * 10 + (c as i64 - '0' as i64);
        if value > 1 << 40 {
            return YearEntry::NotAnInteger;
        }
    }
    if negative {
        value = -value;
    }
    if value < i32::MIN as i64 || value > i32::MAX as i64 {
        YearEntry::NotAnInteger
    } else if value == 0 {
        YearEntry::YearZero
    } else if value < -3999 || value > 3999 {
        YearEntry::OutOfRange
    } else if value < 0 {
        YearEntry::Bc(-value as i32)
    } else {
        YearEntry::Ad(value as i32)
    }
}

#[test]
fn every_short_line_is_read_as_worked_out_by_hand() {
    let alphabet = ['+', '-', '0', '1', '4', '9', ' ', 'x', '\u{a0}', '\u{663}'];
    let mut lines: Vec<String> = vec![String::new()];
    let mut start: usize = 0;
    for _ in 0..5 {
        let end = lines.len();
        for i in start..end {
            for c in alphabet {
                let mut longer = lines[i].clone();
                longer.push(c);
                lines.push(longer);
            }
        }
        start = end;
    }
    assert_eq!(lines.len(), 111_111);
    for line in &lines {
        assert_eq!(read_year(line), year_by_hand(line), "{:?}", line);
    }
}

#[test]
fn the_bounds_of_32_bits_are_read_exactly() {
    for line in ["2147483647", "+2147483647", "-2147483647", "-2147483648", "00002147483647"] {
        assert_eq!(read_year(line), YearEntry::OutOfRange);
    }
    for line in ["2147483648", "-2147483649", "99999999999999999999", "-99999999999999999999"] {
        assert_eq!(read_year(line), YearEntry::NotAnInteger);
    }
    assert_eq!(read_year("000000000000000000000000000044"), YearEntry::Ad(44));
    assert_eq!(read_year("-000000000000000000000000003999"), YearEntry::Bc(3999));
}
