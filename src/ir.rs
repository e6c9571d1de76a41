use vstd::prelude::*;
use crate::isa::{Instruction, encodable};
use crate::syntax::{Label, label_key};

verus! {

/// A compile-time expression. Every binary node `op(a, b)` stands for `b op a`:
/// the top of the stack is its right-hand side.
#[derive(Debug)]
pub enum Node {
    LabelRef(Label),
    Immediate(u8),
    Not(Box<Node>),
    Add(Box<Node>, Box<Node>),
    Sub(Box<Node>, Box<Node>),
    Shf(Box<Node>, Box<Node>),
    Rot(Box<Node>, Box<Node>),
    Orr(Box<Node>, Box<Node>),
    And(Box<Node>, Box<Node>),
    Xor(Box<Node>, Box<Node>),
    Xnd(Box<Node>, Box<Node>),
}

/// An element of the intermediate representation.
#[derive(Debug)]
pub enum Root {
    Instruction(Instruction),
    Node(Node),
    LabelDef(Label),
    Const,
    Dyn(Option<Instruction>),
    Org(Option<Node>),
}

/// Two expressions are the same tree over the same labels.
pub open spec fn same_node(a: Node, b: Node) -> bool
    decreases a,
{
    match (a, b) {
        (Node::LabelRef(x), Node::LabelRef(y)) => label_key(x) == label_key(y),
        (Node::Immediate(x), Node::Immediate(y)) => x == y,
        (Node::Not(x), Node::Not(y)) => same_node(*x, *y),
        (Node::Add(x1, x2), Node::Add(y1, y2)) => same_node(*x1, *y1) && same_node(*x2, *y2),
        (Node::Sub(x1, x2), Node::Sub(y1, y2)) => same_node(*x1, *y1) && same_node(*x2, *y2),
        (Node::Shf(x1, x2), Node::Shf(y1, y2)) => same_node(*x1, *y1) && same_node(*x2, *y2),
        (Node::Rot(x1, x2), Node::Rot(y1, y2)) => same_node(*x1, *y1) && same_node(*x2, *y2),
        (Node::Orr(x1, x2), Node::Orr(y1, y2)) => same_node(*x1, *y1) && same_node(*x2, *y2),
        (Node::And(x1, x2), Node::And(y1, y2)) => same_node(*x1, *y1) && same_node(*x2, *y2),
        (Node::Xor(x1, x2), Node::Xor(y1, y2)) => same_node(*x1, *y1) && same_node(*x2, *y2),
        (Node::Xnd(x1, x2), Node::Xnd(y1, y2)) => same_node(*x1, *y1) && same_node(*x2, *y2),
        _ => false,
    }
}

/// Whether every instruction a root carries has operands that fit their fields.
pub open spec fn root_encodable(r: Root) -> bool {
    match r {
        Root::Instruction(i) => encodable(i),
        Root::Dyn(Some(i)) => encodable(i),
        _ => true,
    }
}

impl Node {
    pub fn copy(&self) -> (r: Node)
        ensures
            r == *self,
        decreases self,
    {
        match self {
            Node::LabelRef(l) => Node::LabelRef(l.copy()),
            Node::Immediate(v) => Node::Immediate(*v),
            Node::Not(a) => Node::Not(Box::new(a.copy())),
            Node::Add(a, b) => Node::Add(Box::new(a.copy()), Box::new(b.copy())),
            Node::Sub(a, b) => Node::Sub(Box::new(a.copy()), Box::new(b.copy())),
            Node::Shf(a, b) => Node::Shf(Box::new(a.copy()), Box::new(b.copy())),
            Node::Rot(a, b) => Node::Rot(Box::new(a.copy()), Box::new(b.copy())),
            Node::Orr(a, b) => Node::Orr(Box::new(a.copy()), Box::new(b.copy())),
            Node::And(a, b) => Node::And(Box::new(a.copy()), Box::new(b.copy())),
            Node::Xor(a, b) => Node::Xor(Box::new(a.copy()), Box::new(b.copy())),
            Node::Xnd(a, b) => Node::Xnd(Box::new(a.copy()), Box::new(b.copy())),
        }
    }

    /// Whether two expressions are the same tree.
    pub fn same(&self, other: &Node) -> (r: bool)
        ensures
            r == same_node(*self, *other),
        decreases self,
    {
        match (self, other) {
            (Node::LabelRef(x), Node::LabelRef(y)) => x.same(y),
            (Node::Immediate(x), Node::Immediate(y)) => *x == *y,
            (Node::Not(x), Node::Not(y)) => x.same(y),
            (Node::Add(x1, x2), Node::Add(y1, y2)) => x1.same(y1) && x2.same(y2),
            (Node::Sub(x1, x2), Node::Sub(y1, y2)) => x1.same(y1) && x2.same(y2),
            (Node::Shf(x1, x2), Node::Shf(y1, y2)) => x1.same(y1) && x2.same(y2),
            (Node::Rot(x1, x2), Node::Rot(y1, y2)) => x1.same(y1) && x2.same(y2),
            (Node::Orr(x1, x2), Node::Orr(y1, y2)) => x1.same(y1) && x2.same(y2),
            (Node::And(x1, x2), Node::And(y1, y2)) => x1.same(y1) && x2.same(y2),
            (Node::Xor(x1, x2), Node::Xor(y1, y2)) => x1.same(y1) && x2.same(y2),
            (Node::Xnd(x1, x2), Node::Xnd(y1, y2)) => x1.same(y1) && x2.same(y2),
            _ => false,
        }
    }
}

impl Root {
    pub fn copy(&self) -> (r: Root)
        ensures
            r == *self,
    {
        match self {
            Root::Instruction(i) => Root::Instruction(*i),
            Root::Node(n) => Root::Node(n.copy()),
            Root::LabelDef(l) => Root::LabelDef(l.copy()),
            Root::Const => Root::Const,
            Root::Dyn(i) => Root::Dyn(*i),
            Root::Org(None) => Root::Org(None),
            Root::Org(Some(n)) => Root::Org(Some(n.copy())),
        }
    }
}

} // verus!
