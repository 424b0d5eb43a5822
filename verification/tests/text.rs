use route::decimal::parse_i32_in;
use route::text::{chars_of, find_char, string_of};
use route::IntParseError;

#[test]
fn characters_of_a_string() {
    assert_eq!(chars_of("2+30"), vec!['2', '+', '3', '0']);
    assert_eq!(chars_of(""), Vec::<char>::new());
    assert_eq!(chars_of("caf\u{e9} \u{2708}"), vec!['c', 'a', 'f', '\u{e9}', ' ', '\u{2708}']);
}

#[test]
fn a_string_of_some_characters() {
    let v = chars_of("wind \u{2708} calm");
    assert_eq!(string_of(&v, 0, v.len()), "wind \u{2708} calm");
    assert_eq!(string_of(&v, 0, 4), "wind");
    assert_eq!(string_of(&v, 5, 6), "\u{2708}");
    assert_eq!(string_of(&v, 7, 11), "calm");
    assert_eq!(string_of(&v, 3, 3), "");
    assert_eq!(string_of(&v, 11, 11), "");
}

#[test]
fn the_first_of_several() {
    let v = chars_of("1+2+3");
    assert_eq!(find_char(&v, 0, v.len(), '+'), Some(1));
    assert_eq!(find_char(&v, 1, v.len(), '+'), Some(1));
    assert_eq!(find_char(&v, 2, v.len(), '+'), Some(3));
    assert_eq!(find_char(&v, 4, v.len(), '+'), None);
    assert_eq!(find_char(&v, 0, 1, '+'), None);
    assert_eq!(find_char(&v, 0, 0, '+'), None);
    assert_eq!(find_char(&v, 0, v.len(), '1'), Some(0));
    assert_eq!(find_char(&v, 0, v.len(), '3'), Some(4));
    assert_eq!(find_char(&v, 0, v.len(), 'x'), None);
}

#[test]
fn a_number_inside_a_text() {
    let v = chars_of("at -42 feet");
    assert_eq!(parse_i32_in(&v, 3, 6), Ok(-42));
    assert_eq!(parse_i32_in(&v, 4, 6), Ok(42));
    assert_eq!(parse_i32_in(&v, 3, 4), Err(IntParseError::InvalidDigit));
    assert_eq!(parse_i32_in(&v, 3, 3), Err(IntParseError::Empty));
    assert_eq!(parse_i32_in(&v, 3, 7), Err(IntParseError::InvalidDigit));
    assert_eq!(parse_i32_in(&v, 0, v.len()), Err(IntParseError::InvalidDigit));
}
