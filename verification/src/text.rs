//! Text as a sequence of characters.

use vstd::prelude::*;

verus! {

/// What a result holds, with the cells of a tape as a sequence.
pub open spec fn cells_of<E>(result: Result<Vec<char>, E>) -> Result<Seq<char>, E> {
    match result {
        Ok(cells) => Ok(cells@),
        Err(error) => Err(error),
    }
}

/// The characters of `text`, in order.
pub fn to_chars(text: &str) -> (chars: Vec<char>)
    ensures
        chars@ == text@,
{
    let mut chars: Vec<char> = Vec::new();
    for c in it: text.chars()
        invariant
            chars@ == it.seq().take(it.index() as int),
    {
        chars.push(c);
    }
    chars
}

} // verus!
