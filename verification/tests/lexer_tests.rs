use tape_automaton::lexer::{lex, LexError};
use tape_automaton::token::Token;

#[test]
fn lex_alphabet_declaration() {
    assert_eq!(
        lex("T={0,1}".to_string()),
        Ok(vec![
            Token::Alphabet,
            Token::Equals,
            Token::CurlyOpen,
            Token::Number(0),
            Token::Comma,
            Token::Number(1),
            Token::CurlyClose,
        ])
    );
}

#[test]
fn lex_rule_declaration() {
    assert_eq!(
        lex("D(12,a)=(3,b)".to_string()),
        Ok(vec![
            Token::Rule,
            Token::Open,
            Token::Number(12),
            Token::Comma,
            Token::Letter('a'),
            Token::Close,
            Token::Equals,
            Token::Open,
            Token::Number(3),
            Token::Comma,
            Token::Letter('b'),
            Token::Close,
        ])
    );
}

#[test]
fn lex_empty_text_has_no_tokens() {
    assert_eq!(lex(String::new()), Ok(vec![]));
}

#[test]
fn lex_numeral_at_end_of_text_is_kept() {
    assert_eq!(lex("12".to_string()), Ok(vec![Token::Number(12)]));
    assert_eq!(lex("T 7".to_string()), Ok(vec![Token::Alphabet, Token::Number(7)]));
}

#[test]
fn lex_digits_form_one_numeral_until_a_non_digit() {
    assert_eq!(
        lex("12 3\n45a6".to_string()),
        Ok(vec![
            Token::Number(12),
            Token::Number(3),
            Token::Number(45),
            Token::Letter('a'),
            Token::Number(6),
        ])
    );
}

#[test]
fn lex_leading_zeros_do_not_count() {
    assert_eq!(lex("007".to_string()), Ok(vec![Token::Number(7)]));
    assert_eq!(lex("0".to_string()), Ok(vec![Token::Number(0)]));
    assert_eq!(
        lex("0000000000000000000000000000000000000001,".to_string()),
        Ok(vec![Token::Number(1), Token::Comma])
    );
}

#[test]
fn lex_space_and_line_feed_are_dropped() {
    assert_eq!(lex(" \n \n".to_string()), Ok(vec![]));
    assert_eq!(
        lex("T = {\n a , b }\n".to_string()),
        Ok(vec![
            Token::Alphabet,
            Token::Equals,
            Token::CurlyOpen,
            Token::Letter('a'),
            Token::Comma,
            Token::Letter('b'),
            Token::CurlyClose,
        ])
    );
}

#[test]
fn lex_every_lower_case_letter_is_a_letter() {
    let text: String = ('a'..='z').collect();
    let expected: Vec<Token> = ('a'..='z').map(Token::Letter).collect();
    assert_eq!(lex(text), Ok(expected));
}

#[test]
fn lex_rejects_other_characters() {
    assert_eq!(lex("T={0;1}".to_string()), Err(LexError::UnexpectedCharacter(';')));
    assert_eq!(lex("A".to_string()), Err(LexError::UnexpectedCharacter('A')));
    assert_eq!(lex("\t".to_string()), Err(LexError::UnexpectedCharacter('\t')));
    assert_eq!(lex("\r\n".to_string()), Err(LexError::UnexpectedCharacter('\r')));
    assert_eq!(lex("a-b".to_string()), Err(LexError::UnexpectedCharacter('-')));
    assert_eq!(lex("é".to_string()), Err(LexError::UnexpectedCharacter('é')));
}

#[test]
fn lex_reports_the_leftmost_fault() {
    assert_eq!(lex("a?b!".to_string()), Err(LexError::UnexpectedCharacter('?')));
    assert_eq!(
        lex("99999999999999999999999999999999999999999?".to_string()),
        Err(LexError::NumberTooLarge)
    );
    assert_eq!(
        lex("?99999999999999999999999999999999999999999".to_string()),
        Err(LexError::UnexpectedCharacter('?'))
    );
}

#[test]
fn lex_numeral_limits() {
    let max = usize::MAX.to_string();
    assert_eq!(lex(max.clone()), Ok(vec![Token::Number(usize::MAX)]));
    let mut above = max.clone();
    above.push('0');
    assert_eq!(lex(above), Err(LexError::NumberTooLarge));
    let last = (usize::MAX % 10) as u8;
    if last < 9 {
        let mut next = max[..max.len() - 1].to_string();
        next.push((b'0' + last + 1) as char);
        assert_eq!(lex(next), Err(LexError::NumberTooLarge));
    }
}

#[test]
fn lex_twice_gives_the_same_tokens() {
    let text = "T={a,b}\nD(0,a)=(1,b)";
    assert_eq!(lex(text.to_string()), lex(text.to_string()));
}
