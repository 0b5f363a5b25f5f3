//! A deterministic tape-rewriting automaton: its description language and its runs.

pub mod ast;
pub mod interpreter;
pub mod lexer;
pub mod machine;
pub mod number;
pub mod parser;
pub mod shape;
pub mod tape;
pub mod text;
pub mod token;
pub mod trace;
