//! The abstract syntax tree of one parsed line, together with its
//! specification-level mirror. A line is a `Main` node holding an optional
//! assignment target and an `Expression`: a flat, ordered list of slots that
//! alternate value nodes and operator nodes. During reduction, consumed
//! slots become empty but keep their position.

use vstd::prelude::*;
use crate::bigint::Integer;

verus! {

/// A binary operator of the expression language.
#[derive(Clone, Copy, Debug, PartialEq, Eq, Structural)]
pub enum Operator {
    Addition,
    Subtraction,
    Multiplication,
    Division,
    Exponent,
}

/// One node of a parsed line.
pub enum Node {
    /// The root of one line: an optional assignment target and the body.
    Main(Option<Box<Node>>, Box<Node>),
    /// A reference to a stored value.
    Variable(String),
    /// An assignment target.
    Lhs(String),
    /// A binary operator; never evaluated directly, only consumed by its
    /// neighboring slots.
    Operator(Operator),
    /// A parenthesized sub-expression.
    Parenthetical(Box<Node>),
    /// A unary negation.
    Negation(Box<Node>),
    /// A resolved or source-given integer.
    Literal(Integer),
    /// A flat list of slots alternating value nodes and operator nodes.
    Expression(Vec<Option<Node>>),
}

/// The specification-level mirror of [`Node`], with literals as
/// mathematical integers.
pub enum NodeV {
    Main(Option<Box<NodeV>>, Box<NodeV>),
    Variable(Seq<char>),
    Lhs(Seq<char>),
    Operator(Operator),
    Parenthetical(Box<NodeV>),
    Negation(Box<NodeV>),
    Literal(int),
    Expression(Seq<Option<NodeV>>),
}

impl View for Node {
    type V = NodeV;

    open spec fn view(&self) -> NodeV {
        node_view(*self)
    }
}

/// The specification-level image of a node.
pub open spec fn node_view(n: Node) -> NodeV
    decreases n,
{
    match n {
        Node::Main(t, e) => NodeV::Main(
            match t {
                Some(b) => Some(Box::new(node_view(*b))),
                None => None,
            },
            Box::new(node_view(*e)),
        ),
        Node::Variable(s) => NodeV::Variable(s@),
        Node::Lhs(s) => NodeV::Lhs(s@),
        Node::Operator(op) => NodeV::Operator(op),
        Node::Parenthetical(e) => NodeV::Parenthetical(Box::new(node_view(*e))),
        Node::Negation(e) => NodeV::Negation(Box::new(node_view(*e))),
        Node::Literal(v) => NodeV::Literal(v@),
        Node::Expression(slots) => NodeV::Expression(slots_view(slots@)),
    }
}

/// The specification-level image of a sequence of slots.
pub open spec fn slots_view(s: Seq<Option<Node>>) -> Seq<Option<NodeV>>
    decreases s,
{
    Seq::new(
        s.len(),
        |i: int|
            if 0 <= i < s.len() {
                match s[i] {
                    Some(n) => Some(node_view(n)),
                    None => None,
                }
            } else {
                None
            },
    )
}

} // verus!
