use roman_numerals::{decode_symbols, normalize, roman_to_integer, symbol_value, RomanError};

#[test]
fn decodes_the_fixtures() {
    assert_eq!(roman_to_integer("I"), Ok(1));
    assert_eq!(roman_to_integer("IV"), Ok(4));
    assert_eq!(roman_to_integer("XLIV"), Ok(44));
    assert_eq!(roman_to_integer("mmxix"), Ok(2019));
    assert_eq!(roman_to_integer("MMMCMXCIX"), Ok(3999));
    assert_eq!(roman_to_integer("MCMXCIV"), Ok(1994));
    assert_eq!(roman_to_integer("CDXLIV"), Ok(444));
    assert_eq!(roman_to_integer("DCCCLXXXVIII"), Ok(888));
}

#[test]
fn empty_and_blank_texts_are_empty_input() {
    assert_eq!(roman_to_integer(""), Err(RomanError::EmptyInput));
    assert_eq!(roman_to_integer("   "), Err(RomanError::EmptyInput));
    assert_eq!(roman_to_integer(" \t\r\n"), Err(RomanError::EmptyInput));
    assert_eq!(roman_to_integer("\u{a0}\u{2003}\u{3000}"), Err(RomanError::EmptyInput));
    assert_eq!(decode_symbols(""), Err(RomanError::EmptyInput));
}

#[test]
fn reports_the_last_invalid_character_in_reading_order() {
    assert_eq!(roman_to_integer("ABCD"), Err(RomanError::InvalidCharacter('B')));
    assert_eq!(roman_to_integer("AXB"), Err(RomanError::InvalidCharacter('B')));
    assert_eq!(roman_to_integer("XIZ"), Err(RomanError::InvalidCharacter('Z')));
    assert_eq!(roman_to_integer("QXI"), Err(RomanError::InvalidCharacter('Q')));
    assert_eq!(roman_to_integer("X I"), Err(RomanError::InvalidCharacter(' ')));
    assert_eq!(roman_to_integer("12"), Err(RomanError::InvalidCharacter('2')));
}

#[test]
fn reports_the_invalid_character_in_upper_case() {
    assert_eq!(roman_to_integer("abcd"), Err(RomanError::InvalidCharacter('B')));
    assert_eq!(roman_to_integer("xiz"), Err(RomanError::InvalidCharacter('Z')));
}

#[test]
fn an_invalid_character_wins_over_the_range() {
    assert_eq!(roman_to_integer("MMMMA"), Err(RomanError::InvalidCharacter('A')));
    assert_eq!(roman_to_integer("AMMMM"), Err(RomanError::InvalidCharacter('A')));
}

#[test]
fn totals_above_3999_are_out_of_range() {
    assert_eq!(roman_to_integer("MMMM"), Err(RomanError::OutOfRange(4000)));
    assert_eq!(roman_to_integer("MMMMI"), Err(RomanError::OutOfRange(4001)));
    assert_eq!(roman_to_integer("mmmmm"), Err(RomanError::OutOfRange(5000)));
    assert_eq!(roman_to_integer("MMMCMXCIXI"), Err(RomanError::OutOfRange(4000)));
}

#[test]
fn the_total_is_reported_as_computed_however_large() {
    let long = "M".repeat(3_000_000);
    assert_eq!(roman_to_integer(&long), Err(RomanError::OutOfRange(3_000_000_000)));
}

#[test]
fn malformed_numerals_are_added_up_all_the_same() {
    assert_eq!(roman_to_integer("IIII"), Ok(4));
    assert_eq!(roman_to_integer("VX"), Ok(5));
    assert_eq!(roman_to_integer("IL"), Ok(49));
    assert_eq!(roman_to_integer("IIX"), Ok(10));
    assert_eq!(roman_to_integer("IVX"), Ok(4));
    assert_eq!(roman_to_integer("IXIX"), Ok(18));
    assert_eq!(roman_to_integer("IM"), Ok(999));
    assert_eq!(roman_to_integer("XIXIX"), Ok(28));
}

#[test]
fn only_the_symbol_right_before_a_larger_one_is_subtracted() {
    assert_eq!(roman_to_integer("IVXLCDM"), Ok(334));
    assert_eq!(roman_to_integer("MDCLXVI"), Ok(1666));
    assert_eq!(roman_to_integer("XXL"), Ok(50));
}

#[test]
fn white_space_around_the_numeral_is_dropped() {
    assert_eq!(roman_to_integer(" IV "), Ok(4));
    assert_eq!(roman_to_integer("\tXLIV\n"), Ok(44));
    assert_eq!(roman_to_integer("mmxix\r\n"), Ok(2019));
    assert_eq!(roman_to_integer("\u{a0}IX\u{2009}"), Ok(9));
}

#[test]
fn letter_case_is_ignored() {
    assert_eq!(roman_to_integer("mcmxciv"), roman_to_integer("MCMXCIV"));
    assert_eq!(roman_to_integer("McMxCiV"), Ok(1994));
    assert_eq!(roman_to_integer(" xliv "), roman_to_integer(" XLIV "));
    assert_eq!(roman_to_integer("abcd"), roman_to_integer("ABCD"));
    assert_eq!(roman_to_integer("mmmm"), roman_to_integer("MMMM"));
    for text in ["i", "iv", "Ix", "mMxIx", " q ", "", "x i", "iiii", "vx"] {
        assert_eq!(roman_to_integer(text), roman_to_integer(&text.to_uppercase()));
    }
}

#[test]
fn upper_casing_follows_unicode() {
    // U+0131, the dotless small i, has `I` for its capital.
    assert_eq!(roman_to_integer("\u{131}"), Ok(1));
    assert_eq!(roman_to_integer("x\u{131}v"), Ok(14));
    // U+00DF, the sharp s, becomes two letters.
    assert_eq!(roman_to_integer("\u{df}"), Err(RomanError::InvalidCharacter('S')));
    assert_eq!(roman_to_integer("\u{e9}"), Err(RomanError::InvalidCharacter('\u{c9}')));
}

#[test]
fn normalize_trims_and_upper_cases() {
    assert_eq!(normalize("  mmxix \n"), "MMXIX");
    assert_eq!(normalize("iv"), "IV");
    assert_eq!(normalize(" a b "), "A B");
    assert_eq!(normalize("   "), "");
    assert_eq!(normalize("\u{a0}stra\u{df}e\u{a0}"), "STRASSE");
}

#[test]
fn decode_symbols_takes_the_text_as_it_is() {
    assert_eq!(decode_symbols("XLIV"), Ok(44));
    assert_eq!(decode_symbols("MMMM"), Err(RomanError::OutOfRange(4000)));
    assert_eq!(decode_symbols("iv"), Err(RomanError::InvalidCharacter('v')));
    assert_eq!(decode_symbols(" IV"), Err(RomanError::InvalidCharacter(' ')));
    assert_eq!(decode_symbols("IV "), Err(RomanError::InvalidCharacter(' ')));
    assert_eq!(decode_symbols("ABCD"), Err(RomanError::InvalidCharacter('B')));
}

#[test]
fn the_symbol_table_holds_seven_symbols() {
    assert_eq!(symbol_value('I'), Some(1));
    assert_eq!(symbol_value('V'), Some(5));
    assert_eq!(symbol_value('X'), Some(10));
    assert_eq!(symbol_value('L'), Some(50));
    assert_eq!(symbol_value('C'), Some(100));
    assert_eq!(symbol_value('D'), Some(500));
    assert_eq!(symbol_value('M'), Some(1000));
    assert_eq!(symbol_value('i'), None);
    assert_eq!(symbol_value('A'), None);
    assert_eq!(symbol_value(' '), None);
    let mut known: usize = 0;
    for c in '\0'..='\u{ffff}' {
        if symbol_value(c).is_some() {
            known += 1;
        }
    }
    assert_eq!(known, 7);
}
