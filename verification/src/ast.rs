//! The syntax tree of an expression.

use crate::number::NumLit;
use vstd::prelude::*;
use vstd::std_specs::cmp::PartialEqSpecImpl;

verus! {

/// A node of the syntax tree.  Every node owns its operands.
#[derive(Debug, Eq)]
pub enum Node {
    Add(Box<Node>, Box<Node>),
    Subtract(Box<Node>, Box<Node>),
    Multiply(Box<Node>, Box<Node>),
    Divide(Box<Node>, Box<Node>),
    /// Exponentiation: the base, then the exponent.
    Caret(Box<Node>, Box<Node>),
    /// Arithmetic negation.
    Negative(Box<Node>),
    /// A number literal.
    Number(NumLit),
}

/// The mathematical value of a [`Node`]: the same tree, with the text of each
/// literal at its leaves.
pub enum NodeView {
    Add(Box<NodeView>, Box<NodeView>),
    Subtract(Box<NodeView>, Box<NodeView>),
    Multiply(Box<NodeView>, Box<NodeView>),
    Divide(Box<NodeView>, Box<NodeView>),
    Caret(Box<NodeView>, Box<NodeView>),
    Negative(Box<NodeView>),
    Number(Seq<char>),
}

impl Node {
    /// The tree with the text of each literal at its leaves.
    pub open spec fn tree(&self) -> NodeView
        decreases self,
    {
        match self {
            Node::Add(l, r) => NodeView::Add(Box::new(l.tree()), Box::new(r.tree())),
            Node::Subtract(l, r) => NodeView::Subtract(Box::new(l.tree()), Box::new(r.tree())),
            Node::Multiply(l, r) => NodeView::Multiply(Box::new(l.tree()), Box::new(r.tree())),
            Node::Divide(l, r) => NodeView::Divide(Box::new(l.tree()), Box::new(r.tree())),
            Node::Caret(l, r) => NodeView::Caret(Box::new(l.tree()), Box::new(r.tree())),
            Node::Negative(e) => NodeView::Negative(Box::new(e.tree())),
            Node::Number(lit) => NodeView::Number(lit@),
        }
    }
}

impl View for Node {
    type V = NodeView;

    open spec fn view(&self) -> NodeView {
        self.tree()
    }
}

impl PartialEq for Node {
    fn eq(&self, other: &Self) -> (r: bool)
        decreases self,
    {
        match (self, other) {
            (Node::Add(a, b), Node::Add(c, d)) => (**a).eq(&**c) && (**b).eq(&**d),
            (Node::Subtract(a, b), Node::Subtract(c, d)) => (**a).eq(&**c) && (**b).eq(&**d),
            (Node::Multiply(a, b), Node::Multiply(c, d)) => (**a).eq(&**c) && (**b).eq(&**d),
            (Node::Divide(a, b), Node::Divide(c, d)) => (**a).eq(&**c) && (**b).eq(&**d),
            (Node::Caret(a, b), Node::Caret(c, d)) => (**a).eq(&**c) && (**b).eq(&**d),
            (Node::Negative(a), Node::Negative(c)) => (**a).eq(&**c),
            (Node::Number(a), Node::Number(c)) => a == c,
            _ => false,
        }
    }
}

/// Two trees are equal when they have the same shape and the same literals.
impl PartialEqSpecImpl for Node {
    open spec fn obeys_eq_spec() -> bool {
        true
    }

    open spec fn eq_spec(&self, other: &Self) -> bool {
        self@ == other@
    }
}

impl Clone for Node {
    fn clone(&self) -> (r: Self)
        ensures
            r@ == self@,
        decreases self,
    {
        match self {
            Node::Add(l, r) => Node::Add(Box::new((**l).clone()), Box::new((**r).clone())),
            Node::Subtract(l, r) => Node::Subtract(
                Box::new((**l).clone()),
                Box::new((**r).clone()),
            ),
            Node::Multiply(l, r) => Node::Multiply(
                Box::new((**l).clone()),
                Box::new((**r).clone()),
            ),
            Node::Divide(l, r) => Node::Divide(Box::new((**l).clone()), Box::new((**r).clone())),
            Node::Caret(l, r) => Node::Caret(Box::new((**l).clone()), Box::new((**r).clone())),
            Node::Negative(e) => Node::Negative(Box::new((**e).clone())),
            Node::Number(lit) => Node::Number(lit.clone()),
        }
    }
}

} // verus!
