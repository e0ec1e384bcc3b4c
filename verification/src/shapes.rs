//! Structural predicates and measures on formula views: semantics under a
//! model, connective-freeness, negation normal form, clause and CNF shape.

use vstd::prelude::*;
use crate::prop::{Prop, PropView};

verus! {

/// Truth value of a formula under a model. Symbols absent from the model
/// are false (closed-world assumption).
pub open spec fn eval_view(p: PropView, m: Map<Seq<char>, bool>) -> bool
    decreases p,
{
    match p {
        PropView::True => true,
        PropView::False => false,
        PropView::Symbol(name) => m.dom().contains(name) && m[name],
        PropView::Not(a) => !eval_view(*a, m),
        PropView::And(a, b) => eval_view(*a, m) && eval_view(*b, m),
        PropView::Or(a, b) => eval_view(*a, m) || eval_view(*b, m),
        PropView::Implic(a, b) => !eval_view(*a, m) || eval_view(*b, m),
        PropView::Iff(a, b) => eval_view(*a, m) == eval_view(*b, m),
    }
}

/// Truth of a whole clause list: the conjunction of its members.
pub open spec fn eval_clauses(cs: Seq<PropView>, m: Map<Seq<char>, bool>) -> bool
    decreases cs.len(),
{
    if cs.len() == 0 {
        true
    } else {
        eval_view(cs.last(), m) && eval_clauses(cs.drop_last(), m)
    }
}

/// Number of nodes in the tree.
pub open spec fn size(p: PropView) -> nat
    decreases p,
{
    match p {
        PropView::True => 1,
        PropView::False => 1,
        PropView::Symbol(_) => 1,
        PropView::Not(a) => size(*a) + 1,
        PropView::And(a, b) => size(*a) + size(*b) + 1,
        PropView::Or(a, b) => size(*a) + size(*b) + 1,
        PropView::Implic(a, b) => size(*a) + size(*b) + 1,
        PropView::Iff(a, b) => size(*a) + size(*b) + 1,
    }
}

/// Number of `And` nodes in the tree.
pub open spec fn and_count(p: PropView) -> nat
    decreases p,
{
    match p {
        PropView::Not(a) => and_count(*a),
        PropView::And(a, b) => and_count(*a) + and_count(*b) + 1,
        PropView::Or(a, b) => and_count(*a) + and_count(*b),
        PropView::Implic(a, b) => and_count(*a) + and_count(*b),
        PropView::Iff(a, b) => and_count(*a) + and_count(*b),
        _ => 0,
    }
}

/// No `Iff` node anywhere in the tree.
pub open spec fn no_iff(p: PropView) -> bool
    decreases p,
{
    match p {
        PropView::Iff(_, _) => false,
        PropView::Not(a) => no_iff(*a),
        PropView::And(a, b) => no_iff(*a) && no_iff(*b),
        PropView::Or(a, b) => no_iff(*a) && no_iff(*b),
        PropView::Implic(a, b) => no_iff(*a) && no_iff(*b),
        _ => true,
    }
}

/// No `Implic` node anywhere in the tree.
pub open spec fn no_implic(p: PropView) -> bool
    decreases p,
{
    match p {
        PropView::Implic(_, _) => false,
        PropView::Not(a) => no_implic(*a),
        PropView::And(a, b) => no_implic(*a) && no_implic(*b),
        PropView::Or(a, b) => no_implic(*a) && no_implic(*b),
        PropView::Iff(a, b) => no_implic(*a) && no_implic(*b),
        _ => true,
    }
}

pub open spec fn is_and(p: PropView) -> bool {
    match p {
        PropView::And(_, _) => true,
        _ => false,
    }
}

pub open spec fn is_symbol(p: PropView) -> bool {
    match p {
        PropView::Symbol(_) => true,
        _ => false,
    }
}

/// Negation normal form: only constants, symbols, `Not` directly over a
/// symbol, and `And`/`Or` over such trees.
pub open spec fn is_nnf(p: PropView) -> bool
    decreases p,
{
    match p {
        PropView::True => true,
        PropView::False => true,
        PropView::Symbol(_) => true,
        PropView::Not(a) => is_symbol(*a),
        PropView::And(a, b) => is_nnf(*a) && is_nnf(*b),
        PropView::Or(a, b) => is_nnf(*a) && is_nnf(*b),
        PropView::Implic(_, _) => false,
        PropView::Iff(_, _) => false,
    }
}

/// A single clause: a constant, a literal, or an `Or`-tree whose leaves
/// are constants or literals.
pub open spec fn is_clause(p: PropView) -> bool
    decreases p,
{
    match p {
        PropView::True => true,
        PropView::False => true,
        PropView::Symbol(_) => true,
        PropView::Not(a) => is_symbol(*a),
        PropView::Or(a, b) => is_clause(*a) && is_clause(*b),
        _ => false,
    }
}

/// Conjunctive normal form: an `And`-tree whose leaves are clauses.
pub open spec fn is_cnf(p: PropView) -> bool
    decreases p,
{
    match p {
        PropView::And(a, b) => is_cnf(*a) && is_cnf(*b),
        _ => is_clause(p),
    }
}

/// No `Or` node anywhere in the tree has an `And` as a direct child.
pub open spec fn no_or_over_and(p: PropView) -> bool
    decreases p,
{
    match p {
        PropView::Not(a) => no_or_over_and(*a),
        PropView::And(a, b) => no_or_over_and(*a) && no_or_over_and(*b),
        PropView::Or(a, b) => !is_and(*a) && !is_and(*b) && no_or_over_and(*a) && no_or_over_and(*b),
        PropView::Implic(a, b) => no_or_over_and(*a) && no_or_over_and(*b),
        PropView::Iff(a, b) => no_or_over_and(*a) && no_or_over_and(*b),
        _ => true,
    }
}

/// The views of a sequence of formulas.
pub open spec fn seq_view(s: Seq<Prop>) -> Seq<PropView> {
    s.map_values(|p: Prop| p@)
}

/// Total number of nodes over a sequence of trees.
pub open spec fn sum_sizes(s: Seq<PropView>) -> nat
    decreases s.len(),
{
    if s.len() == 0 {
        0
    } else {
        sum_sizes(s.drop_last()) + size(s.last())
    }
}

pub proof fn lemma_size_pos(p: PropView)
    ensures
        size(p) >= 1,
{
}

pub proof fn lemma_sum_sizes_push(s: Seq<PropView>, x: PropView)
    ensures
        sum_sizes(s.push(x)) == sum_sizes(s) + size(x),
{
    assert(s.push(x).drop_last() =~= s);
    assert(s.push(x).last() == x);
}

pub proof fn lemma_seq_view_push(s: Seq<Prop>, x: Prop)
    ensures
        seq_view(s.push(x)) == seq_view(s).push(x@),
{
    assert(seq_view(s.push(x)) =~= seq_view(s).push(x@));
}

pub proof fn lemma_seq_view_drop_last(s: Seq<Prop>)
    requires
        s.len() > 0,
    ensures
        seq_view(s.drop_last()) == seq_view(s).drop_last(),
        seq_view(s).last() == s.last()@,
{
    assert(seq_view(s.drop_last()) =~= seq_view(s).drop_last());
}

} // verus!
