use mctext::chars::{
    chars_of, hex_digit, hex_digit_value, is_control_char, is_space_char, push_decimal, same_text,
};
use mctext::NamedColor;

#[test]
fn control_characters_are_the_two_blocks() {
    for code in 0..=0x10ffffu32 {
        if let Some(c) = char::from_u32(code) {
            assert_eq!(is_control_char(c), c.is_control(), "U+{:04X}", code);
        }
    }
}

#[test]
fn white_space_is_the_unicode_property() {
    for code in 0..=0x10ffffu32 {
        if let Some(c) = char::from_u32(code) {
            assert_eq!(is_space_char(c), c.is_whitespace(), "U+{:04X}", code);
        }
    }
}

#[test]
fn hex_digits() {
    for n in 0..16u8 {
        let c = hex_digit(n);
        assert_eq!(c, char::from_digit(n as u32, 16).unwrap());
        assert_eq!(hex_digit_value(c), Some(n));
        assert_eq!(hex_digit_value(c.to_ascii_uppercase()), Some(n));
    }
    for code in 0..=0x10ffffu32 {
        if let Some(c) = char::from_u32(code) {
            assert_eq!(hex_digit_value(c), c.to_digit(16).map(|d| d as u8), "U+{:04X}", code);
        }
    }
}

#[test]
fn chars_and_text_comparison() {
    assert_eq!(chars_of("h\u{e9}\u{1f600}"), vec!['h', '\u{e9}', '\u{1f600}']);
    assert!(chars_of("").is_empty());
    assert!(same_text("abc", "abc"));
    assert!(same_text("", ""));
    assert!(!same_text("abc", "abd"));
    assert!(!same_text("abc", "ab"));
    assert!(!same_text("", "a"));
}

#[test]
fn decimal_digits() {
    for n in [0usize, 1, 9, 10, 11, 99, 100, 101, 12345, usize::MAX] {
        let mut s = String::from("n=");
        push_decimal(&mut s, n);
        assert_eq!(s, format!("n={}", n));
    }
}

#[test]
fn palette_constant_is_the_palette() {
    assert_eq!(NamedColor::ALL, NamedColor::all());
    assert_eq!(NamedColor::ALL.len(), 16);
    for (i, c) in NamedColor::ALL.iter().enumerate() {
        assert_eq!(NamedColor::from_index(i as u8), Some(*c));
    }
}
