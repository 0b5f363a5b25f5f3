//! Tokens of the description language.

use vstd::prelude::*;

verus! {

/// One lexical unit of a program text. Tokens carry no position.
#[derive(Clone, Copy, PartialEq, Eq, Debug, Structural)]
pub enum Token {
    /// A lower-case letter `a`..`z`.
    Letter(char),
    /// A run of decimal digits, by its value.
    Number(usize),
    /// `T`, which opens the alphabet declaration.
    Alphabet,
    /// `D`, which opens a rule.
    Rule,
    /// `=`
    Equals,
    /// `{`
    CurlyOpen,
    /// `}`
    CurlyClose,
    /// `(`
    Open,
    /// `)`
    Close,
    /// `,`
    Comma,
}

} // verus!
