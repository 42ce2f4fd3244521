use bwdta::format::{bool_text, char_text, replace_chars, signed_text, unsigned_text};
use bwdta::text::{chars_of, is_white_char, split_chars, string_from_chars, trim_end_range, trim_start_range};

#[test]
fn unsigned_text_writes_decimal_digits() {
    assert_eq!(unsigned_text(0), "0");
    assert_eq!(unsigned_text(7), "7");
    assert_eq!(unsigned_text(809460), "809460");
    assert_eq!(unsigned_text(u128::MAX), u128::MAX.to_string());
    assert_eq!(unsigned_text(u64::MAX as u128), "18446744073709551615");
}

#[test]
fn signed_text_writes_sign_and_digits() {
    assert_eq!(signed_text(0), "0");
    assert_eq!(signed_text(-42), "-42");
    assert_eq!(signed_text(12345), "12345");
    assert_eq!(signed_text(i128::MIN), "-170141183460469231731687303715884105728");
    assert_eq!(signed_text(i128::MAX), i128::MAX.to_string());
    assert_eq!(signed_text(i8::MIN as i128), "-128");
}

#[test]
fn bool_and_char_text() {
    assert_eq!(bool_text(true), "J");
    assert_eq!(bool_text(false), "N");
    assert_eq!(char_text('x'), "x");
    assert_eq!(char_text('ß'), "ß");
}

#[test]
fn replace_chars_turns_point_into_comma() {
    assert_eq!(replace_chars("3.14", '.', ','), "3,14");
    assert_eq!(replace_chars("1.000.5", '.', ','), "1,000,5");
    assert_eq!(replace_chars("42", '.', ','), "42");
    assert_eq!(replace_chars("", '.', ','), "");
}

#[test]
fn split_chars_keeps_empty_pieces() {
    let v = chars_of("þaþþb");
    let pieces = split_chars(&v, 'þ');
    let texts: Vec<String> = pieces.iter().map(|p| string_from_chars(p)).collect();
    assert_eq!(texts, vec!["", "a", "", "b"]);
    let none = split_chars(&chars_of(""), 'þ');
    assert_eq!(none.len(), 1);
    assert!(none[0].is_empty());
}

#[test]
fn trimming_ranges() {
    let v = chars_of("  ab \t\n");
    assert_eq!(trim_end_range(&v, 0, v.len()), 4);
    assert_eq!(trim_start_range(&v, 0, v.len()), 2);
    let blank = chars_of(" \u{3000} ");
    assert_eq!(trim_end_range(&blank, 0, blank.len()), 0);
    assert!(is_white_char('\u{3000}'));
    assert!(is_white_char('\u{85}'));
    assert!(!is_white_char('a'));
    assert!(!is_white_char('þ'));
}
