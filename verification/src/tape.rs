//! The description of a tape: `<start>;<end>;<symbols>`.

use crate::number::{all_digits, decimal_value, is_digit, read_digits};
use crate::text::to_chars;
use vstd::prelude::*;

verus! {

/// Why a text describes no tape.
#[derive(Clone, Copy, PartialEq, Eq, Debug, Structural)]
pub enum TapeError {
    /// The start or the halt position is no number that a `usize` holds.
    InvalidPosition,
    /// The text has fewer than three parts.
    MissingPart,
    /// The text has more than three parts.
    SurplusPart,
}

/// Where the part that starts at `from` ends: the index of the first `;` at
/// or after `from`, or the length of `text`.
pub open spec fn part_end(text: Seq<char>, from: int) -> int
    decreases text.len() - from,
{
    if 0 <= from < text.len() && text[from] != ';' {
        part_end(text, from + 1)
    } else {
        from
    }
}

/// The position that `part` writes: one or more digits, with or without a `+`
/// in front of them, worth no more than a `usize` holds.
pub open spec fn position_of(part: Seq<char>) -> Option<usize> {
    let digits = if part.len() > 0 && part[0] == '+' {
        part.subrange(1, part.len() as int)
    } else {
        part
    };
    if digits.len() > 0 && all_digits(digits) && decimal_value(digits) <= usize::MAX {
        Some(decimal_value(digits) as usize)
    } else {
        None
    }
}

/// The tape that `text` describes. It has three parts, told apart by `;`: the
/// start position, the halt position, and the symbols, one cell each, with
/// nothing between them. The leftmost fault decides the error.
pub open spec fn parse_tape_spec(text: Seq<char>) -> Result<(usize, usize, Seq<char>), TapeError> {
    let first = part_end(text, 0);
    match position_of(text.subrange(0, first)) {
        None => Err(TapeError::InvalidPosition),
        Some(start) => if first >= text.len() {
            Err(TapeError::MissingPart)
        } else {
            let second = part_end(text, first + 1);
            match position_of(text.subrange(first + 1, second)) {
                None => Err(TapeError::InvalidPosition),
                Some(end) => if second >= text.len() {
                    Err(TapeError::MissingPart)
                } else if part_end(text, second + 1) < text.len() {
                    Err(TapeError::SurplusPart)
                } else {
                    Ok((start, end, text.subrange(second + 1, text.len() as int)))
                },
            }
        },
    }
}

/// A part holds no `;`, and ends at one or at the end of the text.
pub proof fn lemma_part_holds_no_separator(text: Seq<char>, from: int)
    requires
        0 <= from <= text.len(),
    ensures
        from <= part_end(text, from) <= text.len(),
        forall|i: int| from <= i < part_end(text, from) ==> text[i] != ';',
        part_end(text, from) < text.len() ==> text[part_end(text, from)] == ';',
    decreases text.len() - from,
{
    if from < text.len() && text[from] != ';' {
        lemma_part_holds_no_separator(text, from + 1);
    }
}

/// A text that describes a tape has three parts and no more: the cells are
/// all that follows the second `;`, and no `;` is among them.
pub proof fn law_tape_has_three_parts(text: Seq<char>)
    requires
        parse_tape_spec(text) is Ok,
    ensures
        ({
            let first = part_end(text, 0);
            let second = part_end(text, first + 1);
            let cells = parse_tape_spec(text)->Ok_0.2;
            &&& 0 <= first < second < text.len()
            &&& text[first] == ';'
            &&& text[second] == ';'
            &&& cells == text.subrange(second + 1, text.len() as int)
            &&& forall|i: int| 0 <= i < text.len() && i != first && i != second ==> text[i] != ';'
        }),
{
    let first = part_end(text, 0);
    lemma_part_holds_no_separator(text, 0);
    let second = part_end(text, first + 1);
    lemma_part_holds_no_separator(text, first + 1);
    lemma_part_holds_no_separator(text, second + 1);
}

/// The index at which the part that starts at `from` ends.
fn find_part_end(chars: &Vec<char>, from: usize) -> (end: usize)
    requires
        from <= chars.len(),
    ensures
        end == part_end(chars@, from as int),
        from <= end <= chars.len(),
{
    let mut end: usize = from;
    while end < chars.len() && chars[end] != ';'
        invariant
            from <= end <= chars.len(),
            part_end(chars@, from as int) == part_end(chars@, end as int),
        decreases chars.len() - end,
    {
        end = end + 1;
    }
    end
}

/// The position written by the characters from `from` up to `to`.
fn read_position(chars: &Vec<char>, from: usize, to: usize) -> (position: Option<usize>)
    requires
        from <= to <= chars.len(),
    ensures
        position == position_of(chars@.subrange(from as int, to as int)),
{
    let ghost part = chars@.subrange(from as int, to as int);
    let first: usize = if from < to && chars[from] == '+' {
        from + 1
    } else {
        from
    };
    let ghost digits = chars@.subrange(first as int, to as int);
    proof {
        if first == from {
            assert(!(part.len() > 0 && part[0] == '+'));
        } else {
            assert(part[0] == '+');
            assert(part.subrange(1, part.len() as int) =~= digits);
        }
    }
    if first == to {
        return None;
    }
    let (end, value) = read_digits(chars, first, to);
    if end < to {
        proof {
            assert(digits[end - first] == chars[end as int]);
            assert(!is_digit(digits[end - first]));
        }
        return None;
    }
    value
}

/// Reads the description of a tape: the start position, the halt position and
/// the cells.
pub fn parse_tape(tape: String) -> (result: Result<(usize, usize, Vec<char>), TapeError>)
    ensures
        match result {
            Ok((start, end, cells)) => parse_tape_spec(tape@) == Ok::<
                (usize, usize, Seq<char>),
                TapeError,
            >((start, end, cells@)),
            Err(error) => parse_tape_spec(tape@) == Err::<(usize, usize, Seq<char>), TapeError>(
                error,
            ),
        },
{
    let chars = to_chars(tape.as_str());
    let first = find_part_end(&chars, 0);
    let start = match read_position(&chars, 0, first) {
        Some(position) => position,
        None => {
            return Err(TapeError::InvalidPosition);
        },
    };
    if first >= chars.len() {
        return Err(TapeError::MissingPart);
    }
    let second = find_part_end(&chars, first + 1);
    let end = match read_position(&chars, first + 1, second) {
        Some(position) => position,
        None => {
            return Err(TapeError::InvalidPosition);
        },
    };
    if second >= chars.len() {
        return Err(TapeError::MissingPart);
    }
    let third = find_part_end(&chars, second + 1);
    if third < chars.len() {
        return Err(TapeError::SurplusPart);
    }
    let mut cells: Vec<char> = Vec::new();
    let mut at: usize = second + 1;
    while at < third
        invariant
            second + 1 <= at <= third <= chars.len(),
            cells@ == chars@.subrange(second + 1, at as int),
        decreases third - at,
    {
        cells.push(chars[at]);
        proof {
            assert(cells@ =~= chars@.subrange(second + 1, at + 1));
        }
        at = at + 1;
    }
    Ok((start, end, cells))
}

} // verus!
