use tape_automaton::ast::Node;
use tape_automaton::interpreter::{interpret, InterpretError};

fn chars(text: &str) -> Vec<char> {
    text.chars().collect()
}

fn binary() -> Node {
    Node::Alphabet(vec!['0', '1'])
}

fn walk() -> Vec<Node> {
    vec![
        binary(),
        Node::Rule((0, '0'), (1, '1')),
        Node::Rule((1, '1'), (2, '1')),
        Node::Rule((2, '1'), (3, '0')),
        Node::Rule((3, '0'), (4, '0')),
    ]
}

#[test]
fn interpret_walks_the_tape() {
    assert_eq!(interpret(walk(), 0, 4, &chars("0110")), Ok(chars("1100")));
}

#[test]
fn interpret_leaves_the_given_tape_alone() {
    let tape = chars("0110");
    let written = interpret(walk(), 0, 4, &tape);
    assert_eq!(written, Ok(chars("1100")));
    assert_eq!(tape, chars("0110"));
}

#[test]
fn interpret_twice_gives_the_same_tape() {
    let tape = chars("0110");
    assert_eq!(interpret(walk(), 0, 4, &tape), interpret(walk(), 0, 4, &tape));
    let stuck = chars("0100");
    assert_eq!(interpret(walk(), 0, 4, &stuck), interpret(walk(), 0, 4, &stuck));
}

#[test]
fn interpret_start_at_the_halt_position_changes_nothing() {
    assert_eq!(interpret(walk(), 4, 4, &chars("0110")), Ok(chars("0110")));
    assert_eq!(interpret(walk(), 0, 0, &chars("0110")), Ok(chars("0110")));
    assert_eq!(interpret(vec![binary()], 2, 2, &chars("xy")), Ok(chars("xy")));
    assert_eq!(interpret(vec![binary()], 9, 9, &chars("")), Ok(chars("")));
}

#[test]
fn interpret_halt_position_may_lie_off_the_tape() {
    let nodes = vec![binary(), Node::Rule((0, '0'), (100, '1'))];
    assert_eq!(interpret(nodes, 0, 100, &chars("0")), Ok(chars("1")));
}

#[test]
fn interpret_may_jump_backwards() {
    let nodes = vec![
        Node::Alphabet(vec!['a', 'b']),
        Node::Rule((2, 'a'), (0, 'b')),
        Node::Rule((0, 'b'), (1, 'a')),
    ];
    assert_eq!(interpret(nodes, 2, 1, &chars("bba")), Ok(chars("abb")));
}

#[test]
fn interpret_empty_program_has_no_alphabet() {
    assert_eq!(interpret(vec![], 0, 1, &chars("0")), Err(InterpretError::MissingAlphabet));
    assert_eq!(interpret(vec![], 0, 0, &chars("0")), Err(InterpretError::MissingAlphabet));
}

#[test]
fn interpret_rule_in_front_has_no_alphabet() {
    let nodes = vec![Node::Rule((0, '0'), (1, '1')), binary()];
    assert_eq!(interpret(nodes, 0, 1, &chars("0")), Err(InterpretError::MissingAlphabet));
    let only_rules = vec![Node::Rule((0, '0'), (1, '1'))];
    assert_eq!(interpret(only_rules, 0, 0, &chars("0")), Err(InterpretError::MissingAlphabet));
}

#[test]
fn interpret_second_alphabet_is_rejected() {
    let nodes = vec![binary(), Node::Rule((0, '0'), (1, '1')), binary()];
    assert_eq!(interpret(nodes, 0, 1, &chars("0")), Err(InterpretError::AlphabetNotFirst));
    let twice = vec![binary(), binary()];
    assert_eq!(interpret(twice, 0, 0, &chars("0")), Err(InterpretError::AlphabetNotFirst));
}

#[test]
fn interpret_shape_is_checked_before_the_run() {
    let nodes = vec![binary(), Node::Rule((0, '0'), (1, '1')), binary()];
    assert_eq!(interpret(nodes, 0, 5, &chars("x")), Err(InterpretError::AlphabetNotFirst));
}

#[test]
fn interpret_symbol_outside_the_alphabet() {
    assert_eq!(
        interpret(walk(), 0, 4, &chars("2110")),
        Err(InterpretError::UnexpectedLetter('2'))
    );
    assert_eq!(
        interpret(walk(), 0, 4, &chars("0x10")),
        Err(InterpretError::UnexpectedLetter('x'))
    );
    let nothing_declared = vec![Node::Alphabet(vec![]), Node::Rule((0, 'a'), (1, 'a'))];
    assert_eq!(
        interpret(nothing_declared, 0, 1, &chars("a")),
        Err(InterpretError::UnexpectedLetter('a'))
    );
}

#[test]
fn interpret_alphabet_is_asked_before_the_rules() {
    let nodes = vec![Node::Alphabet(vec!['a']), Node::Rule((0, 'b'), (1, 'a'))];
    assert_eq!(interpret(nodes, 0, 1, &chars("b")), Err(InterpretError::UnexpectedLetter('b')));
}

#[test]
fn interpret_written_symbols_are_not_held_to_the_alphabet() {
    let nodes = vec![Node::Alphabet(vec!['a']), Node::Rule((0, 'a'), (1, 'z'))];
    assert_eq!(interpret(nodes, 0, 1, &chars("a")), Ok(chars("z")));
}

#[test]
fn interpret_missing_rule() {
    assert_eq!(
        interpret(walk(), 0, 4, &chars("0100")),
        Err(InterpretError::MissingRule(2, '0'))
    );
    assert_eq!(
        interpret(vec![binary()], 0, 1, &chars("0")),
        Err(InterpretError::MissingRule(0, '0'))
    );
    assert_eq!(
        interpret(walk(), 0, 5, &chars("01100")),
        Err(InterpretError::MissingRule(4, '0'))
    );
}

#[test]
fn interpret_rule_in_front_of_the_cursor_is_not_found_again() {
    let nodes = vec![
        binary(),
        Node::Rule((1, '1'), (2, '1')),
        Node::Rule((0, '0'), (1, '0')),
    ];
    assert_eq!(
        interpret(nodes, 0, 2, &chars("01")),
        Err(InterpretError::MissingRule(1, '1'))
    );
    let in_order = vec![
        binary(),
        Node::Rule((0, '0'), (1, '0')),
        Node::Rule((1, '1'), (2, '1')),
    ];
    assert_eq!(interpret(in_order, 0, 2, &chars("01")), Ok(chars("01")));
}

#[test]
fn interpret_cursor_stays_on_the_rule_that_matched() {
    let nodes = vec![
        binary(),
        Node::Rule((0, '0'), (1, '1')),
        Node::Rule((1, '0'), (0, '1')),
    ];
    assert_eq!(
        interpret(nodes, 0, 2, &chars("00")),
        Err(InterpretError::MissingRule(0, '1'))
    );
}

#[test]
fn interpret_first_rule_that_applies_wins() {
    let nodes = vec![
        binary(),
        Node::Rule((0, '1'), (1, '0')),
        Node::Rule((0, '0'), (1, '1')),
        Node::Rule((0, '0'), (1, '0')),
    ];
    assert_eq!(interpret(nodes, 0, 1, &chars("0")), Ok(chars("1")));
}

#[test]
fn interpret_reads_what_it_wrote() {
    let nodes = vec![
        binary(),
        Node::Rule((0, '0'), (0, '1')),
        Node::Rule((0, '1'), (1, '1')),
    ];
    assert_eq!(interpret(nodes, 0, 1, &chars("0")), Ok(chars("1")));
}

#[test]
fn interpret_reads_what_it_wrote_on_a_second_visit() {
    let nodes = vec![
        Node::Alphabet(vec!['a', 'b', 'c']),
        Node::Rule((0, 'a'), (1, 'b')),
        Node::Rule((1, 'a'), (0, 'c')),
        Node::Rule((0, 'a'), (2, 'd')),
        Node::Rule((0, 'b'), (2, 'c')),
    ];
    assert_eq!(interpret(nodes, 0, 2, &chars("aa")), Ok(chars("cc")));
}

#[test]
fn interpret_written_symbol_is_held_to_the_alphabet_when_read() {
    let nodes = vec![
        Node::Alphabet(vec!['a', 'c']),
        Node::Rule((0, 'a'), (1, 'b')),
        Node::Rule((1, 'a'), (0, 'c')),
        Node::Rule((0, 'a'), (2, 'd')),
    ];
    assert_eq!(
        interpret(nodes, 0, 2, &chars("aa")),
        Err(InterpretError::UnexpectedLetter('b'))
    );
}

#[test]
fn interpret_missing_rule_names_the_symbol_that_was_read() {
    let nodes = vec![
        binary(),
        Node::Rule((0, '0'), (1, '1')),
        Node::Rule((1, '0'), (0, '0')),
        Node::Rule((0, '0'), (2, '0')),
    ];
    assert_eq!(
        interpret(nodes, 0, 2, &chars("00")),
        Err(InterpretError::MissingRule(0, '1'))
    );
}

#[test]
fn interpret_position_off_the_tape() {
    assert_eq!(interpret(walk(), 7, 4, &chars("0110")), Err(InterpretError::OutsideTape(7)));
    assert_eq!(interpret(walk(), 0, 4, &chars("")), Err(InterpretError::OutsideTape(0)));
    let leaves = vec![binary(), Node::Rule((0, '0'), (9, '1'))];
    assert_eq!(interpret(leaves, 0, 1, &chars("00")), Err(InterpretError::OutsideTape(9)));
}

#[test]
fn interpret_rule_that_leads_to_its_own_position_with_another_symbol() {
    let nodes = vec![binary(), Node::Rule((0, '0'), (0, '1'))];
    assert_eq!(interpret(nodes, 0, 1, &chars("0")), Err(InterpretError::MissingRule(0, '1')));
    let goes_on = vec![
        binary(),
        Node::Rule((0, '0'), (0, '1')),
        Node::Rule((0, '1'), (0, '0')),
        Node::Rule((0, '0'), (1, '1')),
    ];
    assert_eq!(interpret(goes_on, 0, 1, &chars("0")), Ok(chars("1")));
}

#[test]
fn interpret_rule_that_leads_to_its_own_position_and_changes_nothing() {
    let nodes = vec![binary(), Node::Rule((0, '0'), (0, '0'))];
    assert_eq!(interpret(nodes, 0, 1, &chars("0")), Err(InterpretError::NeverHalts(0, '0')));
    let later = vec![
        binary(),
        Node::Rule((0, '0'), (1, '1')),
        Node::Rule((1, '1'), (1, '1')),
        Node::Rule((1, '1'), (2, '0')),
    ];
    assert_eq!(interpret(later, 0, 2, &chars("01")), Err(InterpretError::NeverHalts(1, '1')));
}

#[test]
fn interpret_rule_to_its_own_position_is_harmless_when_not_matched() {
    let nodes = vec![
        binary(),
        Node::Rule((5, '0'), (5, '1')),
        Node::Rule((0, '0'), (1, '1')),
    ];
    assert_eq!(interpret(nodes, 0, 1, &chars("0")), Ok(chars("1")));
}
