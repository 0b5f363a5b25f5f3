//! Which token sequences parse to a program of the right shape.

use crate::ast::NodeView;
use crate::interpreter::well_formed;
use crate::parser::{
    alphabet_at, alphabet_body, lemma_alphabet_body_end, parse_from, parse_spec, rule_at,
    symbol_of, RULE_LEN,
};
use crate::token::Token;
use vstd::prelude::*;

verus! {

/// `T` stands at the front of the tokens and nowhere else.
pub open spec fn alphabet_leads(tokens: Seq<Token>) -> bool {
    &&& tokens.len() > 0
    &&& tokens[0] == Token::Alphabet
    &&& forall|i: int| 0 < i < tokens.len() ==> #[trigger] tokens[i] != Token::Alphabet
}

/// No `T` stands at an index from `from` up to `to`.
pub open spec fn no_alphabet_token(tokens: Seq<Token>, from: int, to: int) -> bool {
    forall|i: int| from <= i < to && 0 <= i < tokens.len() ==> #[trigger] tokens[i]
        != Token::Alphabet
}

/// `token` writes a symbol.
pub open spec fn is_symbol(token: Token) -> bool {
    symbol_of(token) is Ok
}

/// Two symbols stand side by side at index `i`.
pub open spec fn symbols_touch(tokens: Seq<Token>, i: int) -> bool {
    is_symbol(tokens[i]) && is_symbol(tokens[i + 1])
}

/// The tokens from `at` up to `close` can stand in an alphabet's list: each is
/// a comma or a symbol, and no symbol stands directly behind another; where
/// a symbol was read last, the first of them is no symbol either.
pub open spec fn well_separated(
    tokens: Seq<Token>,
    at: int,
    close: int,
    can_have_next: bool,
) -> bool {
    &&& forall|i: int|
        at <= i < close ==> #[trigger] tokens[i] == Token::Comma || is_symbol(tokens[i])
    &&& forall|i: int| at <= i < close - 1 ==> !#[trigger] symbols_touch(tokens, i)
    &&& (can_have_next || at >= close || tokens[at] == Token::Comma)
}

/// Which lists an alphabet takes. With the first closing bracket at index
/// `close`, the list from `at` on is read just where it is well separated;
/// commas may stand anywhere in it, also in front, at the end or in a row. The
/// reading then ends behind that bracket.
pub proof fn law_alphabet_list(
    tokens: Seq<Token>,
    at: int,
    close: int,
    can_have_next: bool,
    symbols: Seq<char>,
)
    requires
        0 <= at <= close < tokens.len(),
        tokens[close] == Token::CurlyClose,
        forall|i: int| at <= i < close ==> #[trigger] tokens[i] != Token::CurlyClose,
    ensures
        alphabet_body(tokens, at, can_have_next, symbols) is Ok <==> well_separated(
            tokens,
            at,
            close,
            can_have_next,
        ),
        alphabet_body(tokens, at, can_have_next, symbols) matches Ok(read) ==> read.1 == close + 1,
    decreases close - at,
{
    if at < close {
        let token = tokens[at];
        assert(token != Token::CurlyClose);
        if token == Token::Comma {
            law_alphabet_list(tokens, at + 1, close, true, symbols);
            assert(!symbols_touch(tokens, at));
            if well_separated(tokens, at + 1, close, true) {
                assert forall|i: int| at <= i < close - 1 implies !#[trigger] symbols_touch(
                    tokens,
                    i,
                ) by {}
            }
        } else if can_have_next {
            match symbol_of(token) {
                Ok(symbol) => {
                    law_alphabet_list(tokens, at + 1, close, false, symbols.push(symbol));
                    if well_separated(tokens, at, close, true) {
                        if at + 1 < close {
                            assert(!symbols_touch(tokens, at));
                            assert(tokens[at + 1] == Token::Comma || is_symbol(tokens[at + 1]));
                        }
                    }
                    if well_separated(tokens, at + 1, close, false) {
                        assert forall|i: int| at <= i < close - 1 implies !#[trigger] symbols_touch(
                            tokens,
                            i,
                        ) by {}
                    }
                },
                Err(_) => {
                    assert(!(tokens[at] == Token::Comma || is_symbol(tokens[at])));
                },
            }
        }
    }
}

/// Every declaration of `nodes` is a rule.
pub open spec fn all_rules(nodes: Seq<NodeView>) -> bool {
    forall|k: int| 0 <= k < nodes.len() ==> #[trigger] nodes[k] is Rule
}

/// The list of an alphabet that closes holds no `T`.
pub proof fn lemma_alphabet_body_tokens(
    tokens: Seq<Token>,
    at: int,
    can_have_next: bool,
    symbols: Seq<char>,
)
    requires
        alphabet_body(tokens, at, can_have_next, symbols) is Ok,
    ensures
        no_alphabet_token(tokens, at, alphabet_body(tokens, at, can_have_next, symbols)->Ok_0.1),
    decreases tokens.len() - at,
{
    if tokens[at] != Token::CurlyClose {
        if tokens[at] == Token::Comma {
            lemma_alphabet_body_tokens(tokens, at + 1, true, symbols);
        } else {
            let symbol = symbol_of(tokens[at])->Ok_0;
            lemma_alphabet_body_tokens(tokens, at + 1, false, symbols.push(symbol));
        }
    }
}

/// A rule that parses holds no `T`.
pub proof fn lemma_rule_tokens(tokens: Seq<Token>, at: int)
    requires
        0 <= at < tokens.len(),
        tokens[at] == Token::Rule,
        rule_at(tokens, at) is Ok,
    ensures
        at + RULE_LEN <= tokens.len(),
        no_alphabet_token(tokens, at, at + RULE_LEN),
{
    assert forall|i: int| at <= i < at + RULE_LEN implies #[trigger] tokens[i]
        != Token::Alphabet by {
        if i == at {
        } else if i == at + 1 {
        } else if i == at + 2 {
        } else if i == at + 3 {
        } else if i == at + 4 {
        } else if i == at + 5 {
        } else if i == at + 6 {
        } else if i == at + 7 {
        } else if i == at + 8 {
        } else if i == at + 9 {
        } else if i == at + 10 {
        } else {
            assert(i == at + 11);
        }
    }
}

/// Of the declarations that parse from index `at` on: there is one if any
/// token is left, the first is an alphabet just where `T` stands at `at`, and
/// all are rules just where no `T` stands from `at` on.
pub proof fn lemma_parsed_declarations(tokens: Seq<Token>, at: int)
    requires
        0 <= at <= tokens.len(),
        parse_from(tokens, at) is Ok,
    ensures
        at < tokens.len() ==> parse_from(tokens, at)->Ok_0.len() > 0,
        at < tokens.len() ==> (parse_from(tokens, at)->Ok_0[0] is Alphabet <==> tokens[at]
            == Token::Alphabet),
        all_rules(parse_from(tokens, at)->Ok_0) <==> no_alphabet_token(
            tokens,
            at,
            tokens.len() as int,
        ),
    decreases tokens.len() - at,
{
    let nodes = parse_from(tokens, at)->Ok_0;
    if at < tokens.len() {
        if tokens[at] == Token::Alphabet {
            assert(nodes[0] is Alphabet);
            assert(!all_rules(nodes));
            assert(!no_alphabet_token(tokens, at, tokens.len() as int));
        } else {
            assert(tokens[at] == Token::Rule);
            let next = at + RULE_LEN;
            let rest = parse_from(tokens, next)->Ok_0;
            lemma_rule_tokens(tokens, at);
            lemma_parsed_declarations(tokens, next);
            assert(nodes =~= seq![rule_at(tokens, at)->Ok_0] + rest);
            assert(nodes[0] is Rule);
            if all_rules(nodes) {
                assert forall|k: int| 0 <= k < rest.len() implies #[trigger] rest[k] is Rule by {
                    assert(rest[k] == nodes[k + 1]);
                }
            }
            if all_rules(rest) {
                assert forall|k: int| 0 <= k < nodes.len() implies #[trigger] nodes[k] is Rule by {
                    if k > 0 {
                        assert(nodes[k] == rest[k - 1]);
                    }
                }
            }
        }
    }
}

/// A token sequence that parses gives a program of the right shape, its
/// alphabet first and rules behind it, just where `T` stands at its front and
/// nowhere else.
pub proof fn law_parsed_program_shape(tokens: Seq<Token>)
    requires
        parse_spec(tokens) is Ok,
    ensures
        well_formed(parse_spec(tokens)->Ok_0) <==> alphabet_leads(tokens),
{
    let nodes = parse_spec(tokens)->Ok_0;
    lemma_parsed_declarations(tokens, 0);
    if tokens.len() > 0 && tokens[0] == Token::Alphabet {
        let next = alphabet_at(tokens, 0)->Ok_0.1;
        let rest = parse_from(tokens, next)->Ok_0;
        lemma_alphabet_body_end(tokens, 3, true, Seq::empty());
        lemma_alphabet_body_tokens(tokens, 3, true, Seq::empty());
        lemma_parsed_declarations(tokens, next);
        assert(nodes =~= seq![NodeView::Alphabet(alphabet_at(tokens, 0)->Ok_0.0)] + rest);
        if well_formed(nodes) {
            assert forall|k: int| 0 <= k < rest.len() implies #[trigger] rest[k] is Rule by {
                assert(rest[k] == nodes[k + 1]);
            }
            assert(no_alphabet_token(tokens, next, tokens.len() as int));
        }
        if alphabet_leads(tokens) {
            assert(no_alphabet_token(tokens, next, tokens.len() as int));
            assert forall|k: int| 0 < k < nodes.len() implies #[trigger] nodes[k] is Rule by {
                assert(nodes[k] == rest[k - 1]);
            }
        }
    }
}

} // verus!
