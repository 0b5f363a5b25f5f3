//! From tokens to declarations.

use crate::ast::{lemma_push_deep_view, Node, NodeView};
use crate::number::{digit_char, digit_to_char};
use crate::token::Token;
use vstd::prelude::*;

verus! {

/// Why a token sequence is no program.
#[derive(Clone, Copy, PartialEq, Eq, Debug, Structural)]
pub enum ParseError {
    /// Another token stands where the grammar wants a given one.
    UnexpectedToken,
    /// In an alphabet, a symbol follows a symbol with no comma between them.
    MissingComma,
    /// A numeral of more than one digit stands where a symbol is wanted.
    NumberAsSymbol,
    /// The tokens end inside a declaration.
    UnexpectedEnd,
}

/// The symbol that a token writes: a letter is its own symbol, a number
/// below ten is its digit.
pub open spec fn symbol_of(token: Token) -> Result<char, ParseError> {
    match token {
        Token::Letter(c) => Ok(c),
        Token::Number(n) => if n < 10 {
            Ok(digit_char(n as int))
        } else {
            Err(ParseError::NumberAsSymbol)
        },
        _ => Err(ParseError::UnexpectedToken),
    }
}

/// What is wrong if `token` is wanted at index `at`; `None` if it stands there.
pub open spec fn expected_at(tokens: Seq<Token>, at: int, token: Token) -> Option<ParseError> {
    if at < 0 || at >= tokens.len() {
        Some(ParseError::UnexpectedEnd)
    } else if tokens[at] != token {
        Some(ParseError::UnexpectedToken)
    } else {
        None
    }
}

/// The number at index `at`.
pub open spec fn number_at(tokens: Seq<Token>, at: int) -> Result<usize, ParseError> {
    if at < 0 || at >= tokens.len() {
        Err(ParseError::UnexpectedEnd)
    } else {
        match tokens[at] {
            Token::Number(n) => Ok(n),
            _ => Err(ParseError::UnexpectedToken),
        }
    }
}

/// The symbol at index `at`.
pub open spec fn symbol_at(tokens: Seq<Token>, at: int) -> Result<char, ParseError> {
    if at < 0 || at >= tokens.len() {
        Err(ParseError::UnexpectedEnd)
    } else {
        symbol_of(tokens[at])
    }
}

/// The pair `( number , symbol )` whose opening bracket is wanted at index
/// `at`: five tokens. The leftmost fault decides the error.
pub open spec fn pair_at(tokens: Seq<Token>, at: int) -> Result<(usize, char), ParseError> {
    match expected_at(tokens, at, Token::Open) {
        Some(error) => Err(error),
        None => match number_at(tokens, at + 1) {
            Err(error) => Err(error),
            Ok(state) => match expected_at(tokens, at + 2, Token::Comma) {
                Some(error) => Err(error),
                None => match symbol_at(tokens, at + 3) {
                    Err(error) => Err(error),
                    Ok(symbol) => match expected_at(tokens, at + 4, Token::Close) {
                        Some(error) => Err(error),
                        None => Ok((state, symbol)),
                    },
                },
            },
        },
    }
}

/// How many tokens a rule takes: `D`, a pair, `=`, a pair.
pub const RULE_LEN: usize = 12;

/// The rule whose `D` stands at index `at`.
pub open spec fn rule_at(tokens: Seq<Token>, at: int) -> Result<NodeView, ParseError> {
    match pair_at(tokens, at + 1) {
        Err(error) => Err(error),
        Ok(condition) => match expected_at(tokens, at + 6, Token::Equals) {
            Some(error) => Err(error),
            None => match pair_at(tokens, at + 7) {
                Err(error) => Err(error),
                Ok(action) => Ok(NodeView::Rule(condition, action)),
            },
        },
    }
}

/// The rest of an alphabet's list from index `at` on, after `symbols` were
/// read. The closing bracket ends the list wherever it stands; a comma is
/// taken wherever it stands, and allows a symbol to follow; a symbol is taken
/// only at the start of the list or after a comma. Gives the symbols and the
/// index behind the closing bracket.
pub open spec fn alphabet_body(
    tokens: Seq<Token>,
    at: int,
    can_have_next: bool,
    symbols: Seq<char>,
) -> Result<(Seq<char>, int), ParseError>
    decreases tokens.len() - at,
{
    if at < 0 || at >= tokens.len() {
        Err(ParseError::UnexpectedEnd)
    } else if tokens[at] == Token::CurlyClose {
        Ok((symbols, at + 1))
    } else if tokens[at] == Token::Comma {
        alphabet_body(tokens, at + 1, true, symbols)
    } else if !can_have_next {
        Err(ParseError::MissingComma)
    } else {
        match symbol_of(tokens[at]) {
            Ok(symbol) => alphabet_body(tokens, at + 1, false, symbols.push(symbol)),
            Err(error) => Err(error),
        }
    }
}

/// The alphabet declaration whose `T` stands at index `at`: its symbols, and
/// the index behind its closing bracket.
pub open spec fn alphabet_at(tokens: Seq<Token>, at: int) -> Result<(Seq<char>, int), ParseError> {
    match expected_at(tokens, at + 1, Token::Equals) {
        Some(error) => Err(error),
        None => match expected_at(tokens, at + 2, Token::CurlyOpen) {
            Some(error) => Err(error),
            None => alphabet_body(tokens, at + 3, true, Seq::empty()),
        },
    }
}

/// `first` in front of what `rest` yields; a failure of `rest` stays one.
pub open spec fn nodes_then(first: Seq<NodeView>, rest: Result<Seq<NodeView>, ParseError>) -> Result<
    Seq<NodeView>,
    ParseError,
> {
    match rest {
        Ok(nodes) => Ok(first + nodes),
        Err(error) => Err(error),
    }
}

/// The declarations that the tokens from index `at` on write, in their order.
/// Each starts with `T` or `D`; the leftmost fault decides the error.
pub open spec fn parse_from(tokens: Seq<Token>, at: int) -> Result<Seq<NodeView>, ParseError>
    decreases tokens.len() - at,
{
    if at < 0 || at >= tokens.len() {
        Ok(Seq::empty())
    } else {
        match tokens[at] {
            Token::Alphabet => match alphabet_at(tokens, at) {
                Ok((symbols, next)) => {
                    proof {
                        lemma_alphabet_body_end(tokens, at + 3, true, Seq::empty());
                    }
                    nodes_then(seq![NodeView::Alphabet(symbols)], parse_from(tokens, next))
                },
                Err(error) => Err(error),
            },
            Token::Rule => match rule_at(tokens, at) {
                Ok(rule) => nodes_then(seq![rule], parse_from(tokens, at + RULE_LEN)),
                Err(error) => Err(error),
            },
            _ => Err(ParseError::UnexpectedToken),
        }
    }
}

/// The declarations of a whole token sequence.
pub open spec fn parse_spec(tokens: Seq<Token>) -> Result<Seq<NodeView>, ParseError> {
    parse_from(tokens, 0)
}

/// A list that closes, closes behind where it was entered and within the tokens.
pub proof fn lemma_alphabet_body_end(
    tokens: Seq<Token>,
    at: int,
    can_have_next: bool,
    symbols: Seq<char>,
)
    ensures
        match alphabet_body(tokens, at, can_have_next, symbols) {
            Ok((_, next)) => 0 <= at < next <= tokens.len(),
            Err(_) => true,
        },
    decreases tokens.len() - at,
{
    if 0 <= at < tokens.len() && tokens[at] != Token::CurlyClose {
        if tokens[at] == Token::Comma {
            lemma_alphabet_body_end(tokens, at + 1, true, symbols);
        } else if can_have_next {
            if let Ok(symbol) = symbol_of(tokens[at]) {
                lemma_alphabet_body_end(tokens, at + 1, false, symbols.push(symbol));
            }
        }
    }
}

/// Steps over the token behind index `at` if it is `token`, and gives its index.
pub fn expect_token(tokens: &Vec<Token>, at: usize, token: Token) -> (result: Result<
    usize,
    ParseError,
>)
    ensures
        match result {
            Ok(next) => next == at + 1 && next < tokens.len() && tokens[next as int] == token,
            Err(error) => expected_at(tokens@, at + 1, token) == Some(error),
        },
{
    if at >= tokens.len() || at + 1 >= tokens.len() {
        Err(ParseError::UnexpectedEnd)
    } else if tokens[at + 1] != token {
        Err(ParseError::UnexpectedToken)
    } else {
        Ok(at + 1)
    }
}

/// The symbol that `token` writes.
fn symbol(token: Token) -> (result: Result<char, ParseError>)
    ensures
        result == symbol_of(token),
{
    match token {
        Token::Letter(c) => Ok(c),
        Token::Number(n) => match digit_to_char(n) {
            Some(c) => Ok(c),
            None => Err(ParseError::NumberAsSymbol),
        },
        _ => Err(ParseError::UnexpectedToken),
    }
}

/// Reads the pair behind index `at`.
fn parse_pair(tokens: &Vec<Token>, at: usize) -> (result: Result<(usize, char), ParseError>)
    ensures
        result == pair_at(tokens@, at + 1),
        result is Ok ==> at + 5 < tokens.len(),
{
    let open = match expect_token(tokens, at, Token::Open) {
        Ok(next) => next,
        Err(error) => {
            return Err(error);
        },
    };
    if open + 1 >= tokens.len() {
        return Err(ParseError::UnexpectedEnd);
    }
    let state = match tokens[open + 1] {
        Token::Number(n) => n,
        _ => {
            return Err(ParseError::UnexpectedToken);
        },
    };
    let comma = match expect_token(tokens, open + 1, Token::Comma) {
        Ok(next) => next,
        Err(error) => {
            return Err(error);
        },
    };
    if comma + 1 >= tokens.len() {
        return Err(ParseError::UnexpectedEnd);
    }
    let written = match symbol(tokens[comma + 1]) {
        Ok(c) => c,
        Err(error) => {
            return Err(error);
        },
    };
    match expect_token(tokens, comma + 1, Token::Close) {
        Ok(_) => Ok((state, written)),
        Err(error) => Err(error),
    }
}

/// Reads the rule whose `D` stands at index `at`.
fn parse_rule(tokens: &Vec<Token>, at: usize) -> (result: Result<Node, ParseError>)
    requires
        at < tokens.len(),
    ensures
        match result {
            Ok(node) => rule_at(tokens@, at as int) == Ok::<NodeView, ParseError>(node@) && at
                + RULE_LEN <= tokens.len(),
            Err(error) => rule_at(tokens@, at as int) == Err::<NodeView, ParseError>(error),
        },
{
    let condition = match parse_pair(tokens, at) {
        Ok(pair) => pair,
        Err(error) => {
            return Err(error);
        },
    };
    let equals = match expect_token(tokens, at + 5, Token::Equals) {
        Ok(next) => next,
        Err(error) => {
            return Err(error);
        },
    };
    match parse_pair(tokens, equals) {
        Ok(action) => Ok(Node::Rule(condition, action)),
        Err(error) => Err(error),
    }
}

/// Reads the alphabet declaration whose `T` stands at index `at`.
fn parse_alphabet(tokens: &Vec<Token>, at: usize) -> (result: Result<(Vec<char>, usize), ParseError>)
    requires
        at < tokens.len(),
    ensures
        match result {
            Ok((symbols, next)) => alphabet_at(tokens@, at as int) == Ok::<
                (Seq<char>, int),
                ParseError,
            >((symbols@, next as int)) && at < next <= tokens.len(),
            Err(error) => alphabet_at(tokens@, at as int) == Err::<(Seq<char>, int), ParseError>(
                error,
            ),
        },
{
    let equals = match expect_token(tokens, at, Token::Equals) {
        Ok(next) => next,
        Err(error) => {
            return Err(error);
        },
    };
    let open = match expect_token(tokens, equals, Token::CurlyOpen) {
        Ok(next) => next,
        Err(error) => {
            return Err(error);
        },
    };
    let mut symbols: Vec<char> = Vec::new();
    let mut can_have_next = true;
    let mut index: usize = open + 1;
    loop
        invariant
            at + 3 <= index <= tokens.len(),
            alphabet_at(tokens@, at as int) == alphabet_body(
                tokens@,
                index as int,
                can_have_next,
                symbols@,
            ),
        decreases tokens.len() - index,
    {
        if index >= tokens.len() {
            return Err(ParseError::UnexpectedEnd);
        }
        let token = tokens[index];
        if token == Token::CurlyClose {
            return Ok((symbols, index + 1));
        }
        if token == Token::Comma {
            can_have_next = true;
        } else if !can_have_next {
            return Err(ParseError::MissingComma);
        } else {
            match symbol(token) {
                Ok(c) => {
                    symbols.push(c);
                    can_have_next = false;
                },
                Err(error) => {
                    return Err(error);
                },
            }
        }
        index = index + 1;
    }
}

/// Reads the declarations that `tokens` write, in their order. Nothing is
/// checked across declarations.
pub fn parse(tokens: Vec<Token>) -> (result: Result<Vec<Node>, ParseError>)
    ensures
        match result {
            Ok(nodes) => parse_spec(tokens@) == Ok::<Seq<NodeView>, ParseError>(nodes.deep_view()),
            Err(error) => parse_spec(tokens@) == Err::<Seq<NodeView>, ParseError>(error),
        },
{
    let mut index: usize = 0;
    let mut nodes: Vec<Node> = Vec::new();
    proof {
        assert(Seq::<NodeView>::empty() =~= nodes.deep_view());
        if let Ok(all) = parse_from(tokens@, 0) {
            assert(nodes.deep_view() + all =~= all);
        }
    }
    while index < tokens.len()
        invariant
            index <= tokens.len(),
            parse_spec(tokens@) == nodes_then(nodes.deep_view(), parse_from(tokens@, index as int)),
        decreases tokens.len() - index,
    {
        let ghost before = nodes@;
        let (node, next) = match tokens[index] {
            Token::Alphabet => match parse_alphabet(&tokens, index) {
                Ok((symbols, next)) => (Node::Alphabet(symbols), next),
                Err(error) => {
                    return Err(error);
                },
            },
            Token::Rule => match parse_rule(&tokens, index) {
                Ok(rule) => (rule, index + RULE_LEN),
                Err(error) => {
                    return Err(error);
                },
            },
            _ => {
                return Err(ParseError::UnexpectedToken);
            },
        };
        let ghost shown = node@;
        nodes.push(node);
        proof {
            lemma_push_deep_view(before, nodes@[before.len() as int], nodes@);
            if let Ok(more) = parse_from(tokens@, next as int) {
                assert(Seq::new(before.len(), |i: int| before[i].deep_view()) + (seq![shown] + more)
                    =~= nodes.deep_view() + more);
            }
        }
        index = next;
    }
    proof {
        assert(nodes.deep_view() + Seq::<NodeView>::empty() =~= nodes.deep_view());
    }
    Ok(nodes)
}

} // verus!
