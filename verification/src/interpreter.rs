//! Running a program on a tape.

use crate::ast::{Node, NodeView};
use crate::text::cells_of;
use vstd::prelude::*;

verus! {

/// Why a run gives no tape.
#[derive(Clone, Copy, PartialEq, Eq, Debug, Structural)]
pub enum InterpretError {
    /// The program does not start with its alphabet: it is empty, or its first
    /// declaration is a rule.
    MissingAlphabet,
    /// An alphabet is declared behind the first declaration.
    AlphabetNotFirst,
    /// The symbol at the current position is not in the alphabet.
    UnexpectedLetter(char),
    /// No rule from the scan cursor on matches this position and symbol.
    MissingRule(usize, char),
    /// The current position, which is not the halt position, is off the tape.
    OutsideTape(usize),
    /// The rule that matched this position and symbol leads back to the same
    /// position and writes the symbol that it matched. Position, cursor and
    /// tape stay as they are, so the same rule would match for ever.
    NeverHalts(usize, char),
}

/// A program has the right shape: its alphabet first, then rules only.
pub open spec fn well_formed(program: Seq<NodeView>) -> bool {
    &&& program.len() > 0
    &&& program[0] is Alphabet
    &&& forall|i: int| 0 < i < program.len() ==> #[trigger] program[i] is Rule
}

/// What is wrong with the shape of a program, by the first declaration that
/// is out of place; `None` for a well-formed one.
pub open spec fn shape_error(program: Seq<NodeView>) -> Option<InterpretError> {
    if program.len() == 0 || program[0] is Rule {
        Some(InterpretError::MissingAlphabet)
    } else if exists|i: int| 0 < i < program.len() && #[trigger] program[i] is Alphabet {
        Some(InterpretError::AlphabetNotFirst)
    } else {
        None
    }
}

/// The symbols that a well-formed program declares.
pub open spec fn alphabet_of(program: Seq<NodeView>) -> Seq<char>
    recommends
        well_formed(program),
{
    program[0]->Alphabet_0
}

/// The rules of a well-formed program, in their order.
pub open spec fn rules_of(program: Seq<NodeView>) -> Seq<NodeView>
    recommends
        well_formed(program),
{
    program.subrange(1, program.len() as int)
}

/// `rule` is a rule for `symbol` at position `pos`.
pub open spec fn applies(rule: NodeView, pos: usize, symbol: char) -> bool {
    rule matches NodeView::Rule(condition, _) && condition.0 == pos && condition.1 == symbol
}

/// The rule under the cursor applies to what stands at `pos`: 1 if so, else 0.
/// A rule that is taken does not apply to what it leaves behind, unless it
/// changes nothing.
pub open spec fn pending(rules: Seq<NodeView>, pos: usize, cursor: int, tape: Seq<char>) -> int {
    if 0 <= cursor < rules.len() && pos < tape.len() && applies(
        rules[cursor],
        pos,
        tape[pos as int],
    ) {
        1
    } else {
        0
    }
}

/// The rest of a run. The automaton stands at `pos`; `cursor` is the index of
/// the next rule to try, and never goes back; `tape` is the tape as written so
/// far, and symbols are read from it.
///
/// The run ends with `tape` once `pos` is `end`. Else the symbol at `pos` must
/// be in the alphabet, and the first rule from `cursor` on that applies to it
/// writes its symbol at `pos` and sets the next position; the cursor stays on
/// that rule.
pub open spec fn run(
    rules: Seq<NodeView>,
    alphabet: Seq<char>,
    end: usize,
    pos: usize,
    cursor: int,
    tape: Seq<char>,
) -> Result<Seq<char>, InterpretError>
    decreases rules.len() - cursor, pending(rules, pos, cursor, tape),
{
    if pos == end {
        Ok(tape)
    } else if pos >= tape.len() {
        Err(InterpretError::OutsideTape(pos))
    } else if !alphabet.contains(tape[pos as int]) {
        Err(InterpretError::UnexpectedLetter(tape[pos as int]))
    } else if cursor < 0 || cursor >= rules.len() {
        Err(InterpretError::MissingRule(pos, tape[pos as int]))
    } else if applies(rules[cursor], pos, tape[pos as int]) {
        let action = rules[cursor]->Rule_1;
        if action.0 == pos && action.1 == tape[pos as int] {
            Err(InterpretError::NeverHalts(pos, tape[pos as int]))
        } else {
            run(rules, alphabet, end, action.0, cursor, tape.update(pos as int, action.1))
        }
    } else {
        run(rules, alphabet, end, pos, cursor + 1, tape)
    }
}

/// What running `program` gives on `tape` from `start`, with `end` as the halt
/// position.
pub open spec fn interpret_spec(
    program: Seq<NodeView>,
    start: usize,
    end: usize,
    tape: Seq<char>,
) -> Result<Seq<char>, InterpretError> {
    match shape_error(program) {
        Some(error) => Err(error),
        None => run(rules_of(program), alphabet_of(program), end, start, 0, tape),
    }
}

/// No rule with an index from `from` up to `to` applies to `symbol` at `pos`.
pub open spec fn none_applies(
    rules: Seq<NodeView>,
    from: int,
    to: int,
    pos: usize,
    symbol: char,
) -> bool {
    forall|i: int| from <= i < to && 0 <= i < rules.len() ==> !applies(#[trigger] rules[i], pos, symbol)
}

/// Rules that do not apply are passed over: where the symbol at `pos` is in
/// the alphabet and no rule from `cursor` up to `to` applies to it, the run
/// goes on as from cursor `to`.
pub proof fn lemma_run_passes_over(
    rules: Seq<NodeView>,
    alphabet: Seq<char>,
    end: usize,
    pos: usize,
    cursor: int,
    to: int,
    tape: Seq<char>,
)
    requires
        0 <= cursor <= to <= rules.len(),
        pos != end,
        pos < tape.len(),
        alphabet.contains(tape[pos as int]),
        none_applies(rules, cursor, to, pos, tape[pos as int]),
    ensures
        run(rules, alphabet, end, pos, cursor, tape) == run(rules, alphabet, end, pos, to, tape),
    decreases to - cursor,
{
    if cursor < to {
        assert(!applies(rules[cursor], pos, tape[pos as int]));
        lemma_run_passes_over(rules, alphabet, end, pos, cursor + 1, to, tape);
    }
}

/// The shape of a program is checked before anything is run: a program that
/// does not start with its alphabet, or declares an alphabet later on, is
/// rejected whatever the tape and the positions are, and a well-formed one is
/// run.
pub proof fn law_shape_is_checked(program: Seq<NodeView>, start: usize, end: usize, tape: Seq<char>)
    ensures
        well_formed(program) <==> shape_error(program) is None,
        !well_formed(program) ==> interpret_spec(program, start, end, tape) == Err::<
            Seq<char>,
            InterpretError,
        >(shape_error(program)->0),
        !well_formed(program) ==> shape_error(program) == Some(InterpretError::MissingAlphabet)
            || shape_error(program) == Some(InterpretError::AlphabetNotFirst),
        well_formed(program) ==> interpret_spec(program, start, end, tape) == run(
            rules_of(program),
            alphabet_of(program),
            end,
            start,
            0,
            tape,
        ),
{
    if shape_error(program) is None && program.len() > 0 {
        assert forall|i: int| 0 < i < program.len() implies #[trigger] program[i] is Rule by {
            assert(!(program[i] is Alphabet));
        }
    }
}

/// A run itself never fails for the shape of the program.
pub proof fn law_run_has_no_shape_error(
    rules: Seq<NodeView>,
    alphabet: Seq<char>,
    end: usize,
    pos: usize,
    cursor: int,
    tape: Seq<char>,
)
    ensures
        run(rules, alphabet, end, pos, cursor, tape) != Err::<Seq<char>, InterpretError>(
            InterpretError::MissingAlphabet,
        ),
        run(rules, alphabet, end, pos, cursor, tape) != Err::<Seq<char>, InterpretError>(
            InterpretError::AlphabetNotFirst,
        ),
    decreases rules.len() - cursor, pending(rules, pos, cursor, tape),
{
    if pos != end && pos < tape.len() && alphabet.contains(tape[pos as int]) && 0 <= cursor
        < rules.len() {
        if applies(rules[cursor], pos, tape[pos as int]) {
            let action = rules[cursor]->Rule_1;
            if !(action.0 == pos && action.1 == tape[pos as int]) {
                law_run_has_no_shape_error(
                    rules,
                    alphabet,
                    end,
                    action.0,
                    cursor,
                    tape.update(pos as int, action.1),
                );
            }
        } else {
            law_run_has_no_shape_error(rules, alphabet, end, pos, cursor + 1, tape);
        }
    }
}

/// Where the run starts at the halt position, a well-formed program gives the
/// tape back as it was, and no rule is looked at: the result is the same
/// whatever the rules are.
pub proof fn law_start_at_halt_position(program: Seq<NodeView>, at: usize, tape: Seq<char>)
    requires
        well_formed(program),
    ensures
        interpret_spec(program, at, at, tape) == Ok::<Seq<char>, InterpretError>(tape),
{
    law_shape_is_checked(program, at, at, tape);
}

/// A symbol that the alphabet does not hold stops the run, at whatever
/// position the automaton meets it and wherever the cursor stands, be it a
/// symbol that was given or one that a rule wrote.
pub proof fn law_symbol_outside_alphabet(
    rules: Seq<NodeView>,
    alphabet: Seq<char>,
    end: usize,
    pos: usize,
    cursor: int,
    tape: Seq<char>,
)
    requires
        pos != end,
        pos < tape.len(),
        !alphabet.contains(tape[pos as int]),
    ensures
        run(rules, alphabet, end, pos, cursor, tape) == Err::<Seq<char>, InterpretError>(
            InterpretError::UnexpectedLetter(tape[pos as int]),
        ),
{
}

/// Where no rule from the cursor on applies to the symbol at the position, the
/// run stops for want of a rule. Rules in front of the cursor do not count,
/// whether they apply or not.
pub proof fn law_missing_rule(
    rules: Seq<NodeView>,
    alphabet: Seq<char>,
    end: usize,
    pos: usize,
    cursor: int,
    tape: Seq<char>,
)
    requires
        0 <= cursor,
        pos != end,
        pos < tape.len(),
        alphabet.contains(tape[pos as int]),
        none_applies(rules, cursor, rules.len() as int, pos, tape[pos as int]),
    ensures
        run(rules, alphabet, end, pos, cursor, tape) == Err::<Seq<char>, InterpretError>(
            InterpretError::MissingRule(pos, tape[pos as int]),
        ),
{
    if cursor < rules.len() {
        lemma_run_passes_over(rules, alphabet, end, pos, cursor, rules.len() as int, tape);
    }
}

/// One step of a run. The first rule from the cursor on that applies to the
/// symbol at the position is taken: it writes its symbol at the position and
/// names the next one. The search for the next rule starts at the rule just
/// taken, not at the first rule, and reads the tape as the rule left it.
pub proof fn law_first_rule_is_taken(
    rules: Seq<NodeView>,
    alphabet: Seq<char>,
    end: usize,
    pos: usize,
    cursor: int,
    taken: int,
    tape: Seq<char>,
)
    requires
        0 <= cursor <= taken < rules.len(),
        pos != end,
        pos < tape.len(),
        alphabet.contains(tape[pos as int]),
        none_applies(rules, cursor, taken, pos, tape[pos as int]),
        applies(rules[taken], pos, tape[pos as int]),
        rules[taken]->Rule_1 != (pos, tape[pos as int]),
    ensures
        run(rules, alphabet, end, pos, cursor, tape) == run(
            rules,
            alphabet,
            end,
            rules[taken]->Rule_1.0,
            taken,
            tape.update(pos as int, rules[taken]->Rule_1.1),
        ),
{
    lemma_run_passes_over(rules, alphabet, end, pos, cursor, taken, tape);
}

/// A rule that is taken and leads back to its own position with the symbol it
/// matched ends nothing: the run is called endless there. A rule that leads
/// back with another symbol is taken once, and the search goes on behind it.
pub proof fn law_rule_to_its_own_position(
    rules: Seq<NodeView>,
    alphabet: Seq<char>,
    end: usize,
    pos: usize,
    cursor: int,
    tape: Seq<char>,
)
    requires
        0 <= cursor < rules.len(),
        pos != end,
        pos < tape.len(),
        alphabet.contains(tape[pos as int]),
        applies(rules[cursor], pos, tape[pos as int]),
        rules[cursor]->Rule_1.0 == pos,
    ensures
        rules[cursor]->Rule_1.1 == tape[pos as int] ==> run(rules, alphabet, end, pos, cursor, tape)
            == Err::<Seq<char>, InterpretError>(InterpretError::NeverHalts(pos, tape[pos as int])),
        rules[cursor]->Rule_1.1 != tape[pos as int] && alphabet.contains(rules[cursor]->Rule_1.1)
            ==> run(rules, alphabet, end, pos, cursor, tape) == run(
            rules,
            alphabet,
            end,
            pos,
            cursor + 1,
            tape.update(pos as int, rules[cursor]->Rule_1.1),
        ),
{
    let written = tape.update(pos as int, rules[cursor]->Rule_1.1);
    if rules[cursor]->Rule_1.1 != tape[pos as int] && alphabet.contains(rules[cursor]->Rule_1.1) {
        assert(run(rules, alphabet, end, pos, cursor, tape) == run(
            rules,
            alphabet,
            end,
            pos,
            cursor,
            written,
        ));
        assert(!applies(rules[cursor], pos, written[pos as int]));
    }
}

/// A run writes in place: the tape that it gives is as long as the tape that
/// it was given.
pub proof fn law_run_keeps_length(
    rules: Seq<NodeView>,
    alphabet: Seq<char>,
    end: usize,
    pos: usize,
    cursor: int,
    tape: Seq<char>,
)
    ensures
        run(rules, alphabet, end, pos, cursor, tape) matches Ok(written) ==> written.len()
            == tape.len(),
    decreases rules.len() - cursor, pending(rules, pos, cursor, tape),
{
    if pos != end && pos < tape.len() && alphabet.contains(tape[pos as int]) && 0 <= cursor
        < rules.len() {
        if applies(rules[cursor], pos, tape[pos as int]) {
            let action = rules[cursor]->Rule_1;
            if !(action.0 == pos && action.1 == tape[pos as int]) {
                law_run_keeps_length(
                    rules,
                    alphabet,
                    end,
                    action.0,
                    cursor,
                    tape.update(pos as int, action.1),
                );
            }
        } else {
            law_run_keeps_length(rules, alphabet, end, pos, cursor + 1, tape);
        }
    }
}

/// Running the same program on the same tape twice gives the same result:
/// what `interpret` returns is a function of what its arguments hold.
pub proof fn law_interpret_is_deterministic(
    nodes: Vec<Node>,
    nodes_again: Vec<Node>,
    start: usize,
    end: usize,
    tape: Vec<char>,
    tape_again: Vec<char>,
    first: Result<Vec<char>, InterpretError>,
    second: Result<Vec<char>, InterpretError>,
)
    requires
        nodes.deep_view() == nodes_again.deep_view(),
        tape@ == tape_again@,
        cells_of(first) == interpret_spec(nodes.deep_view(), start, end, tape@),
        cells_of(second) == interpret_spec(nodes_again.deep_view(), start, end, tape_again@),
    ensures
        cells_of(first) == cells_of(second),
        first matches Ok(cells) ==> second matches Ok(cells_again) && cells@ == cells_again@,
        first matches Err(error) ==> second == Err::<Vec<char>, InterpretError>(error),
{
}

/// Whether `c` is among `symbols`.
fn holds(symbols: &Vec<char>, c: char) -> (found: bool)
    ensures
        found == symbols@.contains(c),
{
    let mut i: usize = 0;
    while i < symbols.len()
        invariant
            i <= symbols.len(),
            forall|k: int| 0 <= k < i ==> symbols[k] != c,
        decreases symbols.len() - i,
    {
        if symbols[i] == c {
            return true;
        }
        i = i + 1;
    }
    false
}

/// The index of the first declaration from `from` on that is a rule for
/// `symbol` at `pos`, or the number of declarations if there is none.
fn find_rule(nodes: &Vec<Node>, from: usize, pos: usize, symbol: char) -> (found: usize)
    requires
        from <= nodes.len(),
    ensures
        from <= found <= nodes.len(),
        forall|i: int| from <= i < found ==> !applies(#[trigger] nodes[i]@, pos, symbol),
        found < nodes.len() ==> applies(nodes[found as int]@, pos, symbol),
{
    let mut at: usize = from;
    while at < nodes.len()
        invariant
            from <= at <= nodes.len(),
            forall|i: int| from <= i < at ==> !applies(#[trigger] nodes[i]@, pos, symbol),
        decreases nodes.len() - at,
    {
        match &nodes[at] {
            Node::Rule(condition, _) => {
                if condition.0 == pos && condition.1 == symbol {
                    return at;
                }
            },
            Node::Alphabet(_) => {},
        }
        at = at + 1;
    }
    at
}

/// What a rule does: the position to go to and the symbol to write.
fn action_of(node: &Node) -> (action: (usize, char))
    requires
        node@ is Rule,
    ensures
        action == node@->Rule_1,
{
    match node {
        Node::Rule(_, action) => *action,
        Node::Alphabet(_) => vstd::pervasive::unreached(),
    }
}

/// Runs the program `nodes` on a copy of `tape`, from position `start` until
/// the position is `end`, and gives the copy as it then stands; `tape` itself
/// is left as it was.
///
/// The shape of the program is checked first, over all of it. Each step reads
/// the symbol at the position from the copy, as written so far, and the rules
/// are tried from where the last search stopped: a rule in front of the one
/// that matched last is never tried again.
pub fn interpret(nodes: Vec<Node>, start: usize, end: usize, tape: &Vec<char>) -> (result: Result<
    Vec<char>,
    InterpretError,
>)
    ensures
        cells_of(result) == interpret_spec(nodes.deep_view(), start, end, tape@),
        result matches Ok(written) ==> written.len() == tape.len(),
{
    let ghost program = nodes.deep_view();
    if nodes.len() == 0 {
        return Err(InterpretError::MissingAlphabet);
    }
    let alphabet: &Vec<char> = match &nodes[0] {
        Node::Alphabet(symbols) => symbols,
        Node::Rule(_, _) => {
            return Err(InterpretError::MissingAlphabet);
        },
    };
    let mut index: usize = 1;
    while index < nodes.len()
        invariant
            1 <= index <= nodes.len(),
            program == nodes.deep_view(),
            program[0] is Alphabet,
            forall|i: int| 0 < i < index ==> #[trigger] program[i] is Rule,
        decreases nodes.len() - index,
    {
        match &nodes[index] {
            Node::Alphabet(_) => {
                assert(program[index as int] is Alphabet);
                return Err(InterpretError::AlphabetNotFirst);
            },
            Node::Rule(_, _) => {},
        }
        index = index + 1;
    }
    assert(well_formed(program));
    assert(shape_error(program) is None);

    let ghost rules = rules_of(program);
    let mut new_tape = tape.clone();
    assert(new_tape@ =~= tape@);
    let mut pos = start;
    let mut cursor: usize = 1;
    while pos != end
        invariant
            1 <= cursor <= nodes.len(),
            program == nodes.deep_view(),
            well_formed(program),
            rules == rules_of(program),
            alphabet@ == alphabet_of(program),
            new_tape@.len() == tape@.len(),
            interpret_spec(program, start, end, tape@) == run(
                rules,
                alphabet@,
                end,
                pos,
                cursor - 1,
                new_tape@,
            ),
        decreases nodes.len() - cursor, pending(rules, pos, cursor - 1, new_tape@),
    {
        if pos >= new_tape.len() {
            return Err(InterpretError::OutsideTape(pos));
        }
        let state = new_tape[pos];
        if !holds(alphabet, state) {
            return Err(InterpretError::UnexpectedLetter(state));
        }
        let found = find_rule(&nodes, cursor, pos, state);
        proof {
            assert forall|i: int| cursor - 1 <= i < found - 1 && 0 <= i < rules.len() implies !applies(
                #[trigger] rules[i],
                pos,
                state,
            ) by {
                assert(rules[i] == nodes[i + 1]@);
            }
            lemma_run_passes_over(rules, alphabet@, end, pos, cursor - 1, found - 1, new_tape@);
        }
        if found == nodes.len() {
            return Err(InterpretError::MissingRule(pos, state));
        }
        assert(rules[found - 1] == nodes[found as int]@);
        let action = action_of(&nodes[found]);
        if action.0 == pos && action.1 == state {
            return Err(InterpretError::NeverHalts(pos, state));
        }
        new_tape.set(pos, action.1);
        pos = action.0;
        cursor = found;
    }
    Ok(new_tape)
}

} // verus!
