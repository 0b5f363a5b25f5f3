//! The whole way from two texts to the tape that the run leaves.

use crate::interpreter::{interpret, interpret_spec, InterpretError};
use crate::lexer::{lex, lex_spec, LexError};
use crate::parser::{parse, parse_spec, ParseError};
use crate::tape::{parse_tape, parse_tape_spec, TapeError};
use crate::text::cells_of;
use vstd::prelude::*;

verus! {

/// Why two texts give no tape, by the stage that failed.
#[derive(Clone, Copy, PartialEq, Eq, Debug, Structural)]
pub enum Failure {
    Tape(TapeError),
    Lex(LexError),
    Parse(ParseError),
    Interpret(InterpretError),
}

/// What the program text `program` leaves of the tape that `description`
/// describes. The description is read first, then the program is split into
/// tokens, read as declarations, and run; the first stage that fails decides
/// the failure.
pub open spec fn execute_spec(program: Seq<char>, description: Seq<char>) -> Result<
    Seq<char>,
    Failure,
> {
    match parse_tape_spec(description) {
        Err(error) => Err(Failure::Tape(error)),
        Ok((start, end, tape)) => match lex_spec(program) {
            Err(error) => Err(Failure::Lex(error)),
            Ok(tokens) => match parse_spec(tokens) {
                Err(error) => Err(Failure::Parse(error)),
                Ok(nodes) => match interpret_spec(nodes, start, end, tape) {
                    Err(error) => Err(Failure::Interpret(error)),
                    Ok(written) => Ok(written),
                },
            },
        },
    }
}

/// Runs the program written in `program` on the tape described by
/// `description`, and gives the cells of the tape as the run leaves them.
pub fn execute(program: String, description: String) -> (result: Result<Vec<char>, Failure>)
    ensures
        cells_of(result) == execute_spec(program@, description@),
{
    let (start, end, tape) = match parse_tape(description) {
        Ok(described) => described,
        Err(error) => {
            return Err(Failure::Tape(error));
        },
    };
    let tokens = match lex(program) {
        Ok(tokens) => tokens,
        Err(error) => {
            return Err(Failure::Lex(error));
        },
    };
    let nodes = match parse(tokens) {
        Ok(nodes) => nodes,
        Err(error) => {
            return Err(Failure::Parse(error));
        },
    };
    match interpret(nodes, start, end, &tape) {
        Ok(written) => Ok(written),
        Err(error) => Err(Failure::Interpret(error)),
    }
}

/// Running the same program text on the same description twice gives the
/// same cells, or the same failure.
pub proof fn law_execute_is_deterministic(
    program: String,
    program_again: String,
    description: String,
    description_again: String,
    first: Result<Vec<char>, Failure>,
    second: Result<Vec<char>, Failure>,
)
    requires
        program@ == program_again@,
        description@ == description_again@,
        cells_of(first) == execute_spec(program@, description@),
        cells_of(second) == execute_spec(program_again@, description_again@),
    ensures
        cells_of(first) == cells_of(second),
        first matches Ok(cells) ==> second matches Ok(cells_again) && cells@ == cells_again@,
        first matches Err(failure) ==> second == Err::<Vec<char>, Failure>(failure),
{
}

} // verus!
