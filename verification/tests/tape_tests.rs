use tape_automaton::tape::{parse_tape, TapeError};

fn chars(text: &str) -> Vec<char> {
    text.chars().collect()
}

#[test]
fn parse_tape_three_parts() {
    assert_eq!(parse_tape("0;4;0110".to_string()), Ok((0, 4, chars("0110"))));
    assert_eq!(parse_tape("12;007;abc".to_string()), Ok((12, 7, chars("abc"))));
}

#[test]
fn parse_tape_every_character_is_a_cell() {
    assert_eq!(parse_tape("0;1;a b\n".to_string()), Ok((0, 1, chars("a b\n"))));
    assert_eq!(parse_tape("0;1;D(=)é".to_string()), Ok((0, 1, chars("D(=)é"))));
}

#[test]
fn parse_tape_without_cells() {
    assert_eq!(parse_tape("3;3;".to_string()), Ok((3, 3, chars(""))));
}

#[test]
fn parse_tape_with_more_parts() {
    assert_eq!(parse_tape("0;4;01;10".to_string()), Err(TapeError::SurplusPart));
    assert_eq!(parse_tape("0;4;;".to_string()), Err(TapeError::SurplusPart));
    assert_eq!(parse_tape("0;4;0110;".to_string()), Err(TapeError::SurplusPart));
    assert_eq!(parse_tape("0;4;;0110".to_string()), Err(TapeError::SurplusPart));
    assert_eq!(parse_tape("1;2;3;4;5".to_string()), Err(TapeError::SurplusPart));
}

#[test]
fn parse_tape_positions_may_carry_a_plus() {
    assert_eq!(parse_tape("+1;+20;x".to_string()), Ok((1, 20, chars("x"))));
}

#[test]
fn parse_tape_with_fewer_parts() {
    assert_eq!(parse_tape("0".to_string()), Err(TapeError::MissingPart));
    assert_eq!(parse_tape("0;4".to_string()), Err(TapeError::MissingPart));
}

#[test]
fn parse_tape_with_a_position_that_is_no_number() {
    assert_eq!(parse_tape("".to_string()), Err(TapeError::InvalidPosition));
    assert_eq!(parse_tape(";4;ab".to_string()), Err(TapeError::InvalidPosition));
    assert_eq!(parse_tape("0;;ab".to_string()), Err(TapeError::InvalidPosition));
    assert_eq!(parse_tape("a;4;ab".to_string()), Err(TapeError::InvalidPosition));
    assert_eq!(parse_tape("0;4x;ab".to_string()), Err(TapeError::InvalidPosition));
    assert_eq!(parse_tape("0; 4;ab".to_string()), Err(TapeError::InvalidPosition));
    assert_eq!(parse_tape("-1;4;ab".to_string()), Err(TapeError::InvalidPosition));
    assert_eq!(parse_tape("+;4;ab".to_string()), Err(TapeError::InvalidPosition));
    assert_eq!(parse_tape("++1;4;ab".to_string()), Err(TapeError::InvalidPosition));
    assert_eq!(parse_tape("1+;4;ab".to_string()), Err(TapeError::InvalidPosition));
    assert_eq!(parse_tape("0;1_0;ab".to_string()), Err(TapeError::InvalidPosition));
}

#[test]
fn parse_tape_reports_the_leftmost_fault() {
    assert_eq!(parse_tape("x".to_string()), Err(TapeError::InvalidPosition));
    assert_eq!(parse_tape("0;x".to_string()), Err(TapeError::InvalidPosition));
    assert_eq!(parse_tape("x;y;z".to_string()), Err(TapeError::InvalidPosition));
    assert_eq!(parse_tape("x;4;a;b".to_string()), Err(TapeError::InvalidPosition));
    assert_eq!(parse_tape("0;y;a;b".to_string()), Err(TapeError::InvalidPosition));
}

#[test]
fn parse_tape_position_limits() {
    let max = usize::MAX.to_string();
    assert_eq!(
        parse_tape(format!("{};{};a", max, max)),
        Ok((usize::MAX, usize::MAX, chars("a")))
    );
    assert_eq!(parse_tape(format!("{}0;1;a", max)), Err(TapeError::InvalidPosition));
    assert_eq!(parse_tape(format!("1;{}0;a", max)), Err(TapeError::InvalidPosition));
}

#[test]
fn parse_tape_agrees_with_the_standard_number_reader() {
    for part in ["0", "42", "+7", "007", "", "+", "-0", " 1", "1 ", "1a", "٣"] {
        let expected = part.parse::<usize>().ok();
        let got = parse_tape(format!("{};0;", part)).ok().map(|described| described.0);
        assert_eq!(got, expected, "part {:?}", part);
    }
}
