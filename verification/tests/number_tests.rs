use tape_automaton::number::{digit_to_char, is_decimal_digit, read_digits};
use tape_automaton::text::to_chars;

#[test]
fn is_decimal_digit_knows_the_ten_digits() {
    for c in '0'..='9' {
        assert!(is_decimal_digit(c));
    }
    for c in ['/', ':', 'a', ' ', '٣', '²'] {
        assert!(!is_decimal_digit(c));
    }
}

#[test]
fn digit_to_char_writes_each_digit() {
    let written: String = (0..10).filter_map(digit_to_char).collect();
    assert_eq!(written, "0123456789");
}

#[test]
fn digit_to_char_has_no_character_for_larger_numbers() {
    assert_eq!(digit_to_char(10), None);
    assert_eq!(digit_to_char(usize::MAX), None);
}

#[test]
fn read_digits_stops_at_the_first_non_digit() {
    let chars = to_chars("ab123c45");
    assert_eq!(read_digits(&chars, 2, 8), (5, Some(123)));
    assert_eq!(read_digits(&chars, 3, 8), (5, Some(23)));
    assert_eq!(read_digits(&chars, 6, 8), (8, Some(45)));
}

#[test]
fn read_digits_stops_at_the_given_end() {
    let chars = to_chars("123456");
    assert_eq!(read_digits(&chars, 0, 3), (3, Some(123)));
    assert_eq!(read_digits(&chars, 1, 6), (6, Some(23456)));
}

#[test]
fn read_digits_of_an_empty_run_is_zero() {
    let chars = to_chars("a1");
    assert_eq!(read_digits(&chars, 0, 2), (0, Some(0)));
    assert_eq!(read_digits(&chars, 2, 2), (2, Some(0)));
}

#[test]
fn read_digits_goes_to_the_end_of_a_run_that_is_too_large() {
    let text = format!("{}99x", usize::MAX);
    let chars = to_chars(&text);
    assert_eq!(read_digits(&chars, 0, chars.len()), (chars.len() - 1, None));
}

#[test]
fn to_chars_gives_each_character() {
    assert_eq!(to_chars("aé;\n"), vec!['a', 'é', ';', '\n']);
    assert_eq!(to_chars(""), Vec::<char>::new());
}
