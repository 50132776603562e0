use roman_numerals::{normalize, roman_to_integer, RomanError};

fn is_listed_white_space(c: char) -> bool {
    matches!(
        c,
        '\t'..='\r'
            | ' '
            | '\u{85}'
            | '\u{a0}'
            | '\u{1680}'
            | '\u{2000}'..='\u{200a}'
            | '\u{2028}'
            | '\u{2029}'
            | '\u{202f}'
            | '\u{205f}'
            | '\u{3000}'
    )
}

#[test]
fn exactly_the_listed_characters_are_trimmed() {
    let mut trimmed_away: usize = 0;
    for c in '\0'..=char::MAX {
        let alone = c.to_string();
        assert_eq!(normalize(&alone).is_empty(), is_listed_white_space(c), "{:?}", c);
        if is_listed_white_space(c) {
            trimmed_away += 1;
            let around = format!("{}IV{}", c, c);
            assert_eq!(normalize(&around), "IV");
            assert_eq!(roman_to_integer(&around), Ok(4));
        }
    }
    assert_eq!(trimmed_away, 25);
}

#[test]
fn white_space_inside_the_text_is_kept() {
    assert_eq!(normalize(" x  i "), "X  I");
    assert_eq!(normalize("\tx\ti\t"), "X\tI");
    assert_eq!(roman_to_integer("x\ti"), Err(RomanError::InvalidCharacter('\t')));
}

#[test]
fn ascii_text_is_upper_cased_letter_by_letter() {
    for code in 0u8..=0x7f {
        let c = code as char;
        let expected = if c.is_ascii_lowercase() { (code - 32) as char } else { c };
        let text = format!("I{}I", c);
        assert_eq!(normalize(&text), format!("I{}I", expected));
    }
    assert_eq!(normalize("the quick brown fox, 1234!"), "THE QUICK BROWN FOX, 1234!");
}

#[test]
fn upper_casing_twice_changes_nothing_of_an_ascii_text() {
    for text in ["mmxix", " Iv ", "a1b2", "", "  ", "XLIV", "q\tq"] {
        let once = normalize(text);
        assert_eq!(normalize(&once), once);
        assert_eq!(normalize(&text.to_uppercase()), once);
    }
}
