//! What a program declares: its alphabet and its rules.

use vstd::prelude::*;

verus! {

/// One declaration of a program.
#[derive(PartialEq, Eq, Debug)]
pub enum Node {
    /// The symbols that may stand on the tape, in the order they were
    /// declared; a symbol may be declared twice.
    Alphabet(Vec<char>),
    /// A transition. The first pair is the condition: the tape position and
    /// the symbol that must stand there. The second pair is the action: the
    /// position to go to, and the symbol to write at the position left.
    Rule((usize, char), (usize, char)),
}

/// A declaration as a mathematical value.
pub enum NodeView {
    Alphabet(Seq<char>),
    Rule((usize, char), (usize, char)),
}

impl View for Node {
    type V = NodeView;

    open spec fn view(&self) -> NodeView {
        match *self {
            Node::Alphabet(symbols) => NodeView::Alphabet(symbols@),
            Node::Rule(condition, action) => NodeView::Rule(condition, action),
        }
    }
}

impl DeepView for Node {
    type V = NodeView;

    open spec fn deep_view(&self) -> NodeView {
        self@
    }
}

/// Adding a declaration to a program adds its view to the program's view.
pub proof fn lemma_push_deep_view(before: Seq<Node>, node: Node, after: Seq<Node>)
    requires
        after == before.push(node),
    ensures
        Seq::new(after.len(), |i: int| after[i].deep_view()) == Seq::new(
            before.len(),
            |i: int| before[i].deep_view(),
        ).push(node@),
{
    assert(Seq::new(after.len(), |i: int| after[i].deep_view()) =~= Seq::new(
        before.len(),
        |i: int| before[i].deep_view(),
    ).push(node@));
}

} // verus!
