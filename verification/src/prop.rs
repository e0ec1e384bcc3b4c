//! The expression tree for propositional formulas, together with its
//! mathematical view: a ghost tree in which symbol names are character
//! sequences.

use vstd::prelude::*;

verus! {

/// Mathematical view of a formula: the same tree shape as [`Prop`], with
/// symbol names abstracted to character sequences.
pub enum PropView {
    True,
    False,
    Symbol(Seq<char>),
    Not(Box<PropView>),
    And(Box<PropView>, Box<PropView>),
    Or(Box<PropView>, Box<PropView>),
    Implic(Box<PropView>, Box<PropView>),
    Iff(Box<PropView>, Box<PropView>),
}

/// Builds the view of a negation.
pub open spec fn vnot(a: PropView) -> PropView {
    PropView::Not(Box::new(a))
}

/// Builds the view of a conjunction.
pub open spec fn vand(a: PropView, b: PropView) -> PropView {
    PropView::And(Box::new(a), Box::new(b))
}

/// Builds the view of a disjunction.
pub open spec fn vor(a: PropView, b: PropView) -> PropView {
    PropView::Or(Box::new(a), Box::new(b))
}

/// Builds the view of an implication.
pub open spec fn vimplic(a: PropView, b: PropView) -> PropView {
    PropView::Implic(Box::new(a), Box::new(b))
}

/// Builds the view of a biconditional.
pub open spec fn viff(a: PropView, b: PropView) -> PropView {
    PropView::Iff(Box::new(a), Box::new(b))
}

/// Operand of a unary connective.
#[derive(Debug)]
pub struct UnaryOp {
    pub arg: Prop,
}

impl UnaryOp {
    pub fn new(arg: Prop) -> (r: Self)
        ensures
            r.arg == arg,
    {
        Self { arg }
    }
}

/// Operands of a binary connective.
#[derive(Debug)]
pub struct BinaryOp {
    pub lhs: Prop,
    pub rhs: Prop,
}

impl BinaryOp {
    pub fn new(lhs: Prop, rhs: Prop) -> (r: Self)
        ensures
            r.lhs == lhs,
            r.rhs == rhs,
    {
        Self { lhs, rhs }
    }
}

/// A propositional formula. Every node exclusively owns its children, so
/// the structure is a tree by construction.
#[derive(Debug)]
pub enum Prop {
    True,
    False,
    Symbol(String),
    Not(Box<UnaryOp>),
    And(Box<BinaryOp>),
    Or(Box<BinaryOp>),
    Implic(Box<BinaryOp>),
    Iff(Box<BinaryOp>),
}

impl View for Prop {
    type V = PropView;

    open spec fn view(&self) -> PropView
        decreases self,
    {
        match self {
            Prop::True => PropView::True,
            Prop::False => PropView::False,
            Prop::Symbol(name) => PropView::Symbol(name@),
            Prop::Not(u) => vnot(u.arg@),
            Prop::And(b) => vand(b.lhs@, b.rhs@),
            Prop::Or(b) => vor(b.lhs@, b.rhs@),
            Prop::Implic(b) => vimplic(b.lhs@, b.rhs@),
            Prop::Iff(b) => viff(b.lhs@, b.rhs@),
        }
    }
}

impl Prop {
    /// The constant `True`.
    pub fn true_literal() -> (r: Self)
        ensures
            r@ == PropView::True,
    {
        Prop::True
    }

    /// The constant `False`.
    pub fn false_literal() -> (r: Self)
        ensures
            r@ == PropView::False,
    {
        Prop::False
    }

    /// An atomic proposition with the given name.
    pub fn symbol(name: &str) -> (r: Self)
        ensures
            r@ == PropView::Symbol(name@),
    {
        Prop::Symbol(name.to_owned())
    }

    /// The negation of `p`.
    pub fn not(p: Prop) -> (r: Self)
        ensures
            r@ == vnot(p@),
    {
        Prop::Not(Box::new(UnaryOp::new(p)))
    }

    /// The conjunction of `lhs` and `rhs`.
    pub fn and(lhs: Prop, rhs: Prop) -> (r: Self)
        ensures
            r@ == vand(lhs@, rhs@),
    {
        Prop::And(Box::new(BinaryOp::new(lhs, rhs)))
    }

    /// The disjunction of `lhs` and `rhs`.
    pub fn or(lhs: Prop, rhs: Prop) -> (r: Self)
        ensures
            r@ == vor(lhs@, rhs@),
    {
        Prop::Or(Box::new(BinaryOp::new(lhs, rhs)))
    }

    /// The implication from `lhs` to `rhs`.
    pub fn implic(lhs: Prop, rhs: Prop) -> (r: Self)
        ensures
            r@ == vimplic(lhs@, rhs@),
    {
        Prop::Implic(Box::new(BinaryOp::new(lhs, rhs)))
    }

    /// The biconditional between `lhs` and `rhs`.
    pub fn iff(lhs: Prop, rhs: Prop) -> (r: Self)
        ensures
            r@ == viff(lhs@, rhs@),
    {
        Prop::Iff(Box::new(BinaryOp::new(lhs, rhs)))
    }

    /// Structural equality of two formula trees.
    pub fn equals(&self, other: &Prop) -> (r: bool)
        ensures
            r == (self@ == other@),
        decreases self,
    {
        match (self, other) {
            (Prop::True, Prop::True) => true,
            (Prop::False, Prop::False) => true,
            (Prop::Symbol(a), Prop::Symbol(b)) => a.eq(b),
            (Prop::Not(a), Prop::Not(b)) => a.arg.equals(&b.arg),
            (Prop::And(a), Prop::And(b)) => a.lhs.equals(&b.lhs) && a.rhs.equals(&b.rhs),
            (Prop::Or(a), Prop::Or(b)) => a.lhs.equals(&b.lhs) && a.rhs.equals(&b.rhs),
            (Prop::Implic(a), Prop::Implic(b)) => a.lhs.equals(&b.lhs) && a.rhs.equals(&b.rhs),
            (Prop::Iff(a), Prop::Iff(b)) => a.lhs.equals(&b.lhs) && a.rhs.equals(&b.rhs),
            _ => false,
        }
    }
}

impl Clone for Prop {
    /// A full structural deep copy, needed where a subtree must be
    /// duplicated across two new branches.
    fn clone(&self) -> (r: Self)
        ensures
            r@ == self@,
        decreases self,
    {
        match self {
            Prop::True => Prop::True,
            Prop::False => Prop::False,
            Prop::Symbol(name) => Prop::Symbol(name.clone()),
            Prop::Not(u) => Prop::Not(Box::new(UnaryOp { arg: u.arg.clone() })),
            Prop::And(b) => Prop::And(Box::new(BinaryOp { lhs: b.lhs.clone(), rhs: b.rhs.clone() })),
            Prop::Or(b) => Prop::Or(Box::new(BinaryOp { lhs: b.lhs.clone(), rhs: b.rhs.clone() })),
            Prop::Implic(b) => Prop::Implic(Box::new(BinaryOp { lhs: b.lhs.clone(), rhs: b.rhs.clone() })),
            Prop::Iff(b) => Prop::Iff(Box::new(BinaryOp { lhs: b.lhs.clone(), rhs: b.rhs.clone() })),
        }
    }
}

} // verus!
