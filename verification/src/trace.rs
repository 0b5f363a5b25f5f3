//! The automaton one rule at a time, and why `run` says what it does.
//!
//! `step` is the automaton as it works: it looks at one rule, and either
//! takes it or moves the cursor on. `run` sums the steps up, and calls a run
//! endless where a rule is taken that leads back to its own position and
//! writes what it matched. Here both are held against each other.

use crate::ast::NodeView;
use crate::interpreter::{applies, pending, run, InterpretError};
use vstd::prelude::*;

verus! {

/// Where a run stands: the position, the index of the next rule to try, and
/// the tape as written so far.
pub struct Configuration {
    pub pos: usize,
    pub cursor: int,
    pub tape: Seq<char>,
}

/// What one step leads to.
pub enum Step {
    /// The position is the halt position: the run ends with this tape.
    Halted(Seq<char>),
    /// The run stops with an error.
    Failed(InterpretError),
    /// The run goes on from this configuration.
    Goes(Configuration),
}

/// One step from `c`: the halt position ends the run; else the symbol at the
/// position, read from the tape as written so far, must be in the alphabet,
/// and the rule under the cursor is looked at. If it applies, its symbol is
/// written and its position taken, and the cursor stays; if not, the cursor
/// moves on by one.
pub open spec fn step(
    rules: Seq<NodeView>,
    alphabet: Seq<char>,
    end: usize,
    c: Configuration,
) -> Step {
    if c.pos == end {
        Step::Halted(c.tape)
    } else if c.pos >= c.tape.len() {
        Step::Failed(InterpretError::OutsideTape(c.pos))
    } else if !alphabet.contains(c.tape[c.pos as int]) {
        Step::Failed(InterpretError::UnexpectedLetter(c.tape[c.pos as int]))
    } else if c.cursor < 0 || c.cursor >= rules.len() {
        Step::Failed(InterpretError::MissingRule(c.pos, c.tape[c.pos as int]))
    } else if applies(rules[c.cursor], c.pos, c.tape[c.pos as int]) {
        let action = rules[c.cursor]->Rule_1;
        Step::Goes(
            Configuration {
                pos: action.0,
                cursor: c.cursor,
                tape: c.tape.update(c.pos as int, action.1),
            },
        )
    } else {
        Step::Goes(Configuration { pos: c.pos, cursor: c.cursor + 1, tape: c.tape })
    }
}

/// Where the run stands after `n` steps from `c`; once it has ended, it stays
/// ended.
pub open spec fn after(
    rules: Seq<NodeView>,
    alphabet: Seq<char>,
    end: usize,
    c: Configuration,
    n: nat,
) -> Step
    decreases n,
{
    if n == 0 {
        Step::Goes(c)
    } else {
        match step(rules, alphabet, end, c) {
            Step::Goes(next) => after(rules, alphabet, end, next, (n - 1) as nat),
            ended => ended,
        }
    }
}

/// `run` from a configuration.
pub open spec fn run_from(
    rules: Seq<NodeView>,
    alphabet: Seq<char>,
    end: usize,
    c: Configuration,
) -> Result<Seq<char>, InterpretError> {
    run(rules, alphabet, end, c.pos, c.cursor, c.tape)
}

/// The end of the steps that stands for a result of `run`.
pub open spec fn ended(result: Result<Seq<char>, InterpretError>) -> Step {
    match result {
        Ok(tape) => Step::Halted(tape),
        Err(error) => Step::Failed(error),
    }
}

/// At the halt position the run ends with the tape as it stands, before any
/// rule is looked at: whatever the rules, the alphabet and the cursor are.
pub proof fn law_halt_position_ends_the_run(
    rules: Seq<NodeView>,
    alphabet: Seq<char>,
    c: Configuration,
)
    ensures
        step(rules, alphabet, c.pos, c) == Step::Halted(c.tape),
        run_from(rules, alphabet, c.pos, c) == Ok::<Seq<char>, InterpretError>(c.tape),
{
}

/// Where `run` gives a tape or an error other than `NeverHalts`, the steps
/// come to that very end after some number of them.
pub proof fn law_run_ends_as_the_steps_do(
    rules: Seq<NodeView>,
    alphabet: Seq<char>,
    end: usize,
    c: Configuration,
)
    requires
        !(run_from(rules, alphabet, end, c) matches Err(InterpretError::NeverHalts(_, _))),
    ensures
        exists|n: nat|
            after(rules, alphabet, end, c, n) == ended(run_from(rules, alphabet, end, c)),
    decreases rules.len() - c.cursor, pending(rules, c.pos, c.cursor, c.tape),
{
    let result = run_from(rules, alphabet, end, c);
    match step(rules, alphabet, end, c) {
        Step::Goes(next) => {
            assert(run_from(rules, alphabet, end, next) == result);
            law_run_ends_as_the_steps_do(rules, alphabet, end, next);
            let n = choose|n: nat|
                after(rules, alphabet, end, next, n) == ended(run_from(rules, alphabet, end, next));
            assert(after(rules, alphabet, end, c, n + 1) == ended(result));
        },
        _ => {
            assert(after(rules, alphabet, end, c, 1) == ended(result));
        },
    }
}

/// Where `run` says `NeverHalts`, the next step goes on, and to a
/// configuration of which `run` says the same.
pub proof fn lemma_endless_run_goes_on(
    rules: Seq<NodeView>,
    alphabet: Seq<char>,
    end: usize,
    c: Configuration,
)
    requires
        run_from(rules, alphabet, end, c) matches Err(InterpretError::NeverHalts(_, _)),
    ensures
        step(rules, alphabet, end, c) matches Step::Goes(next) && run_from(rules, alphabet, end, next)
            == run_from(rules, alphabet, end, c),
{
}

/// Where `run` says `NeverHalts`, the steps never end: after any number of
/// them the run still goes on.
pub proof fn law_never_halts(
    rules: Seq<NodeView>,
    alphabet: Seq<char>,
    end: usize,
    c: Configuration,
    n: nat,
)
    requires
        run_from(rules, alphabet, end, c) matches Err(InterpretError::NeverHalts(_, _)),
    ensures
        after(rules, alphabet, end, c, n) is Goes,
    decreases n,
{
    if n > 0 {
        lemma_endless_run_goes_on(rules, alphabet, end, c);
        let next = step(rules, alphabet, end, c)->Goes_0;
        law_never_halts(rules, alphabet, end, next, (n - 1) as nat);
    }
}

} // verus!
