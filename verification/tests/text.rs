use batch_step::is_blank;
use batch_step::parse_u8;
use batch_step::split_lines;
use batch_step::split_str;
use batch_step::str_eq;
use batch_step::to_upper;

#[test]
fn split_on_single_character() {
    assert_eq!(vec!["a", "b", "c"], split_str("a;b;c", ";"));
    assert_eq!(vec!["a", "", "b"], split_str("a;;b", ";"));
    assert_eq!(vec!["", "a", ""], split_str(";a;", ";"));
    assert_eq!(vec![""], split_str("", ";"));
}

#[test]
fn split_on_multiple_characters() {
    assert_eq!(vec!["a", "b"], split_str("a--b", "--"));
    assert_eq!(vec!["", "a"], split_str("aaa", "aa"));
}

#[test]
fn split_on_empty_delimiter() {
    assert_eq!(vec!["", "a", "b", ""], split_str("ab", ""));
}

#[test]
fn lines_follow_newlines() {
    assert_eq!(vec!["a", "b"], split_lines("a\nb"));
    assert_eq!(vec!["a", "b"], split_lines("a\r\nb\n"));
    assert_eq!(vec!["a", ""], split_lines("a\n\n"));
    assert!(split_lines("").is_empty());
}

#[test]
fn blank_detection() {
    assert!(is_blank(""));
    assert!(is_blank(" \t "));
    assert!(!is_blank(" x "));
}

#[test]
fn parsing_small_numbers() {
    assert_eq!(Some(33), parse_u8("33"));
    assert_eq!(Some(7), parse_u8("+7"));
    assert_eq!(Some(12), parse_u8("0012"));
    assert_eq!(Some(255), parse_u8("255"));
    assert_eq!(None, parse_u8("256"));
    assert_eq!(None, parse_u8(""));
    assert_eq!(None, parse_u8("+"));
    assert_eq!(None, parse_u8("4x"));
    assert_eq!(None, parse_u8("-1"));
}

#[test]
fn uppercasing_ascii() {
    assert_eq!("JOHN.DOE@EMAIL.COM", to_upper("john.doe@email.com"));
    assert_eq!("A1 B2", to_upper("a1 B2"));
    assert_eq!("", to_upper(""));
}

#[test]
fn string_equality() {
    assert!(str_eq("age", "age"));
    assert!(!str_eq("age", "ages"));
    assert!(!str_eq("age", "age "));
}
