//! Roman numerals and the integers from 1 to 3999: decoding a numeral,
//! writing an integer as one, and what is proved of the two.

pub mod symbols;
pub mod digits;
pub mod text;
pub mod decode;
pub mod encode;
pub mod values;
pub mod shortest;
pub mod theorems;
pub mod shell;

pub use decode::{decode_symbols, roman_to_integer, RomanError};
pub use encode::integer_to_roman;
pub use shell::{classify_year, parse_choice, read_year, UserChoice, YearEntry};
pub use symbols::symbol_value;
pub use text::{characters, normalize};
