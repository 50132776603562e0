use roman_numerals::{integer_to_roman, roman_to_integer, RomanError};

// Tests for converting integers to Roman numerals
#[test]
fn test_integer_to_roman_basic() {
    assert_eq!(integer_to_roman(1), "I");
    assert_eq!(integer_to_roman(4), "IV");
    assert_eq!(integer_to_roman(9), "IX");
    assert_eq!(integer_to_roman(40), "XL");
    assert_eq!(integer_to_roman(44), "XLIV");
    assert_eq!(integer_to_roman(3999), "MMMCMXCIX");
}

// Tests for converting Roman numerals to integers
#[test]
fn test_roman_to_integer_basic() {
    assert_eq!(roman_to_integer("I").unwrap(), 1);
    assert_eq!(roman_to_integer("IV").unwrap(), 4);
    assert_eq!(roman_to_integer("IX").unwrap(), 9);
    assert_eq!(roman_to_integer("XL").unwrap(), 40);
    assert_eq!(roman_to_integer("XLIV").unwrap(), 44);
    assert_eq!(roman_to_integer("MMMCMXCIX").unwrap(), 3999);
    assert_eq!(roman_to_integer("i").unwrap(), 1);
    assert_eq!(roman_to_integer("mmxix").unwrap(), 2019);
    assert!(matches!(roman_to_integer(""), Err(RomanError::EmptyInput)));
    assert!(matches!(roman_to_integer("ABCD"), Err(RomanError::InvalidCharacter(_))));
    assert!(matches!(roman_to_integer("MMMM"), Err(RomanError::OutOfRange(4000))));
}
