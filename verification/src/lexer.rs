//! From program text to tokens.

use crate::number::{
    decimal_value, digits_end, is_decimal_digit, is_digit, lemma_digits_end_bounds,
    lemma_digits_end_is, read_digits,
};
use crate::text::to_chars;
use crate::token::Token;
use vstd::prelude::*;

verus! {

/// Why a program text has no tokens.
#[derive(Clone, Copy, PartialEq, Eq, Debug, Structural)]
pub enum LexError {
    /// A character that starts no token and is no blank.
    UnexpectedCharacter(char),
    /// A numeral worth more than a `usize` holds.
    NumberTooLarge,
}

/// Blanks stand between tokens and are dropped: the space and the line feed,
/// and nothing else.
pub open spec fn is_blank(c: char) -> bool {
    c == ' ' || c == '\n'
}

/// The token that the single character `c` writes, if it writes one. Digits
/// are not single tokens: they come in runs.
pub open spec fn single_token(c: char) -> Option<Token> {
    if c == 'T' {
        Some(Token::Alphabet)
    } else if c == 'D' {
        Some(Token::Rule)
    } else if c == '=' {
        Some(Token::Equals)
    } else if c == '{' {
        Some(Token::CurlyOpen)
    } else if c == '}' {
        Some(Token::CurlyClose)
    } else if c == '(' {
        Some(Token::Open)
    } else if c == ')' {
        Some(Token::Close)
    } else if c == ',' {
        Some(Token::Comma)
    } else if 'a' <= c && c <= 'z' {
        Some(Token::Letter(c))
    } else {
        None
    }
}

/// `first` in front of what `rest` yields; a failure of `rest` stays one.
pub open spec fn tokens_then(first: Seq<Token>, rest: Result<Seq<Token>, LexError>) -> Result<
    Seq<Token>,
    LexError,
> {
    match rest {
        Ok(tokens) => Ok(first + tokens),
        Err(error) => Err(error),
    }
}

/// The tokens of `source` from index `from` on, where `from` is not inside a
/// numeral. A numeral is the longest run of digits, its token the value of the
/// run; the leftmost fault decides the error.
pub open spec fn lex_from(source: Seq<char>, from: int) -> Result<Seq<Token>, LexError>
    decreases source.len() - from,
{
    if from < 0 || from >= source.len() {
        Ok(Seq::empty())
    } else if is_digit(source[from]) {
        let end = digits_end(source, from);
        let value = decimal_value(source.subrange(from, end));
        if value > usize::MAX {
            Err(LexError::NumberTooLarge)
        } else {
            proof {
                lemma_digits_end_bounds(source, from);
            }
            tokens_then(seq![Token::Number(value as usize)], lex_from(source, end))
        }
    } else if is_blank(source[from]) {
        lex_from(source, from + 1)
    } else {
        match single_token(source[from]) {
            Some(token) => tokens_then(seq![token], lex_from(source, from + 1)),
            None => Err(LexError::UnexpectedCharacter(source[from])),
        }
    }
}

/// The tokens of a whole program text.
pub open spec fn lex_spec(source: Seq<char>) -> Result<Seq<Token>, LexError> {
    lex_from(source, 0)
}

/// The token of a single character that is neither digit nor blank.
fn token_of(c: char) -> (token: Option<Token>)
    ensures
        token == single_token(c),
{
    if c == 'T' {
        Some(Token::Alphabet)
    } else if c == 'D' {
        Some(Token::Rule)
    } else if c == '=' {
        Some(Token::Equals)
    } else if c == '{' {
        Some(Token::CurlyOpen)
    } else if c == '}' {
        Some(Token::CurlyClose)
    } else if c == '(' {
        Some(Token::Open)
    } else if c == ')' {
        Some(Token::Close)
    } else if c == ',' {
        Some(Token::Comma)
    } else if 'a' <= c && c <= 'z' {
        Some(Token::Letter(c))
    } else {
        None
    }
}

/// Splits a program text into its tokens, left to right. A numeral that ends
/// the text is a token like any other.
pub fn lex(machine: String) -> (result: Result<Vec<Token>, LexError>)
    ensures
        match result {
            Ok(tokens) => lex_spec(machine@) == Ok::<Seq<Token>, LexError>(tokens@),
            Err(error) => lex_spec(machine@) == Err::<Seq<Token>, LexError>(error),
        },
{
    let chars = to_chars(machine.as_str());
    let mut tokens: Vec<Token> = Vec::new();
    let mut at: usize = 0;
    while at < chars.len()
        invariant
            at <= chars.len(),
            chars@ == machine@,
            lex_spec(chars@) == tokens_then(tokens@, lex_from(chars@, at as int)),
        decreases chars.len() - at,
    {
        let c = chars[at];
        let ghost before = tokens@;
        if is_decimal_digit(c) {
            let (end, value) = read_digits(&chars, at, chars.len());
            proof {
                lemma_digits_end_is(chars@, at as int, end as int);
            }
            match value {
                Some(value) => {
                    tokens.push(Token::Number(value));
                    proof {
                        let rest = lex_from(chars@, end as int);
                        if let Ok(more) = rest {
                            assert(before + (seq![Token::Number(value)] + more) =~= tokens@ + more);
                        }
                    }
                    at = end;
                },
                None => {
                    return Err(LexError::NumberTooLarge);
                },
            }
        } else if c == ' ' || c == '\n' {
            at = at + 1;
        } else {
            match token_of(c) {
                Some(token) => {
                    tokens.push(token);
                    proof {
                        let rest = lex_from(chars@, at + 1);
                        if let Ok(more) = rest {
                            assert(before + (seq![token] + more) =~= tokens@ + more);
                        }
                    }
                    at = at + 1;
                },
                None => {
                    return Err(LexError::UnexpectedCharacter(c));
                },
            }
        }
    }
    proof {
        assert(tokens@ + Seq::<Token>::empty() =~= tokens@);
    }
    Ok(tokens)
}

} // verus!
