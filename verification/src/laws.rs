//! The laws of the pipeline: every pass preserves the truth value of the
//! formula under every model, the distribution pass turns negation
//! normal form into conjunctive normal form, and the whole pipeline
//! yields a list of single clauses.

use vstd::prelude::*;
use crate::prop::{PropView, vnot};
use crate::shapes::{
    size, and_count, is_and, is_symbol, is_nnf, is_clause, is_cnf, no_or_over_and, eval_view,
    eval_clauses, sum_sizes, lemma_size_pos, lemma_sum_sizes_push,
};
use crate::passes::{
    bicon_spec, implic_spec, nni_spec, or_dist, dist_spec, split_loop, cnf_spec,
    lemma_bicon_no_iff, lemma_implic_no_implic, lemma_nni_nnf,
};

verus! {

/// Biconditional elimination preserves the truth value under every model.
pub proof fn lemma_bicon_eval(p: PropView, m: Map<Seq<char>, bool>)
    ensures
        eval_view(bicon_spec(p), m) == eval_view(p, m),
    decreases p,
{
    reveal_with_fuel(eval_view, 4);
    reveal_with_fuel(bicon_spec, 2);
    match p {
        PropView::Not(a) => lemma_bicon_eval(*a, m),
        PropView::And(a, b) => {
            lemma_bicon_eval(*a, m);
            lemma_bicon_eval(*b, m);
        },
        PropView::Or(a, b) => {
            lemma_bicon_eval(*a, m);
            lemma_bicon_eval(*b, m);
        },
        PropView::Implic(a, b) => {
            lemma_bicon_eval(*a, m);
            lemma_bicon_eval(*b, m);
        },
        PropView::Iff(a, b) => {
            lemma_bicon_eval(*a, m);
            lemma_bicon_eval(*b, m);
        },
        _ => {},
    }
}

/// Implication elimination preserves the truth value under every model.
pub proof fn lemma_implic_eval(p: PropView, m: Map<Seq<char>, bool>)
    ensures
        eval_view(implic_spec(p), m) == eval_view(p, m),
    decreases p,
{
    reveal_with_fuel(eval_view, 4);
    reveal_with_fuel(implic_spec, 2);
    match p {
        PropView::Not(a) => lemma_implic_eval(*a, m),
        PropView::And(a, b) => {
            lemma_implic_eval(*a, m);
            lemma_implic_eval(*b, m);
        },
        PropView::Or(a, b) => {
            lemma_implic_eval(*a, m);
            lemma_implic_eval(*b, m);
        },
        PropView::Implic(a, b) => {
            lemma_implic_eval(*a, m);
            lemma_implic_eval(*b, m);
        },
        PropView::Iff(a, b) => {
            lemma_implic_eval(*a, m);
            lemma_implic_eval(*b, m);
        },
        _ => {},
    }
}

/// The negation-normal-form pass preserves the truth value under every
/// model.
pub proof fn lemma_nni_eval(p: PropView, m: Map<Seq<char>, bool>)
    ensures
        eval_view(nni_spec(p), m) == eval_view(p, m),
    decreases size(p),
{
    reveal_with_fuel(eval_view, 4);
    reveal_with_fuel(nni_spec, 2);
    reveal_with_fuel(size, 3);
    match p {
        PropView::Not(q) => match *q {
            PropView::Not(r) => lemma_nni_eval(*r, m),
            PropView::And(a, b) => {
                lemma_size_pos(*a);
                lemma_size_pos(*b);
                lemma_nni_eval(vnot(*a), m);
                lemma_nni_eval(vnot(*b), m);
            },
            PropView::Or(a, b) => {
                lemma_size_pos(*a);
                lemma_size_pos(*b);
                lemma_nni_eval(vnot(*a), m);
                lemma_nni_eval(vnot(*b), m);
            },
            _ => {},
        },
        PropView::And(a, b) => {
            lemma_nni_eval(*a, m);
            lemma_nni_eval(*b, m);
        },
        PropView::Or(a, b) => {
            lemma_nni_eval(*a, m);
            lemma_nni_eval(*b, m);
        },
        _ => {},
    }
}

/// Pushing a disjunction through the `And` spines of its operands
/// preserves its truth value under every model.
pub proof fn lemma_or_dist_eval(x: PropView, y: PropView, m: Map<Seq<char>, bool>)
    ensures
        eval_view(or_dist(x, y), m) == (eval_view(x, m) || eval_view(y, m)),
    decreases and_count(x) + and_count(y),
{
    reveal_with_fuel(eval_view, 3);
    reveal_with_fuel(or_dist, 2);
    reveal_with_fuel(and_count, 2);
    match x {
        PropView::And(x1, x2) => {
            assert(and_count(x) == and_count(*x1) + and_count(*x2) + 1);
            lemma_or_dist_eval(*x1, y, m);
            lemma_or_dist_eval(*x2, y, m);
        },
        _ => match y {
            PropView::And(y1, y2) => {
                assert(and_count(y) == and_count(*y1) + and_count(*y2) + 1);
                lemma_or_dist_eval(x, *y1, m);
                lemma_or_dist_eval(x, *y2, m);
            },
            _ => {},
        },
    }
}

/// Distribution of `Or` over `And` preserves the truth value under every
/// model.
pub proof fn lemma_dist_eval(p: PropView, m: Map<Seq<char>, bool>)
    ensures
        eval_view(dist_spec(p), m) == eval_view(p, m),
    decreases p,
{
    reveal_with_fuel(eval_view, 3);
    reveal_with_fuel(dist_spec, 2);
    match p {
        PropView::Or(l, r) => {
            lemma_dist_eval(*l, m);
            lemma_dist_eval(*r, m);
            lemma_or_dist_eval(dist_spec(*l), dist_spec(*r), m);
        },
        PropView::And(a, b) => {
            lemma_dist_eval(*a, m);
            lemma_dist_eval(*b, m);
        },
        PropView::Not(a) => {
            lemma_dist_eval(*a, m);
        },
        _ => {},
    }
}

/// A pushed clause joins the conjunction.
pub proof fn lemma_eval_clauses_push(s: Seq<PropView>, x: PropView, m: Map<Seq<char>, bool>)
    ensures
        eval_clauses(s.push(x), m) == (eval_clauses(s, m) && eval_view(x, m)),
{
    assert(s.push(x).drop_last() =~= s);
    assert(s.push(x).last() == x);
}

/// Clause splitting turns the conjunction of the stacked trees and the
/// collected clauses into the conjunction of the collected output.
pub proof fn lemma_split_loop_eval(stack: Seq<PropView>, acc: Seq<PropView>, m: Map<Seq<char>, bool>)
    ensures
        eval_clauses(split_loop(stack, acc), m) == (eval_clauses(stack, m) && eval_clauses(
            acc,
            m,
        )),
    decreases sum_sizes(stack),
{
    reveal_with_fuel(eval_view, 3);
    if stack.len() == 0 {
    } else {
        let p = stack.last();
        let rest = stack.drop_last();
        assert(sum_sizes(stack) == sum_sizes(rest) + size(p));
        lemma_size_pos(p);
        match p {
            PropView::And(a, b) => {
                let stack1 = if is_and(*a) { rest.push(*a) } else { rest };
                let acc1 = if is_and(*a) { acc } else { acc.push(*a) };
                let stack2 = if is_and(*b) { stack1.push(*b) } else { stack1 };
                let acc2 = if is_and(*b) { acc1 } else { acc1.push(*b) };
                lemma_size_pos(*a);
                lemma_size_pos(*b);
                if is_and(*a) {
                    lemma_sum_sizes_push(rest, *a);
                } else {
                    lemma_eval_clauses_push(acc, *a, m);
                }
                if is_and(*b) {
                    lemma_sum_sizes_push(stack1, *b);
                } else {
                    lemma_eval_clauses_push(acc1, *b, m);
                }
                if is_and(*a) {
                    lemma_eval_clauses_push(rest, *a, m);
                }
                if is_and(*b) {
                    lemma_eval_clauses_push(stack1, *b, m);
                }
                lemma_split_loop_eval(stack2, acc2, m);
            },
            _ => {
                lemma_eval_clauses_push(acc, p, m);
                lemma_split_loop_eval(rest, acc.push(p), m);
            },
        }
    }
}

/// The conjunction of the clauses that `cnf` produces has, under every
/// model, exactly the truth value of the original formula.
pub proof fn lemma_cnf_preserves_eval(p: PropView, m: Map<Seq<char>, bool>)
    ensures
        eval_clauses(cnf_spec(p), m) == eval_view(p, m),
{
    let b = bicon_spec(p);
    let i = implic_spec(b);
    let n = nni_spec(i);
    let d = dist_spec(n);
    lemma_bicon_eval(p, m);
    lemma_implic_eval(b, m);
    lemma_nni_eval(i, m);
    lemma_dist_eval(n, m);
    lemma_split_loop_eval(seq![d], Seq::<PropView>::empty(), m);
    assert(seq![d].drop_last() =~= Seq::<PropView>::empty());
    assert(seq![d].last() == d);
    assert(eval_clauses(Seq::<PropView>::empty(), m));
    assert(eval_clauses(seq![d], m) == eval_view(d, m));
}

/// The disjunction of two trees in conjunctive normal form, pushed
/// through their `And` spines, is in conjunctive normal form.
pub proof fn lemma_or_dist_cnf(x: PropView, y: PropView)
    requires
        is_cnf(x),
        is_cnf(y),
    ensures
        is_cnf(or_dist(x, y)),
    decreases and_count(x) + and_count(y),
{
    reveal_with_fuel(or_dist, 2);
    reveal_with_fuel(is_cnf, 3);
    reveal_with_fuel(is_clause, 3);
    reveal_with_fuel(and_count, 2);
    match x {
        PropView::And(x1, x2) => {
            assert(and_count(x) == and_count(*x1) + and_count(*x2) + 1);
            assert(is_cnf(*x1) && is_cnf(*x2));
            lemma_or_dist_cnf(*x1, y);
            lemma_or_dist_cnf(*x2, y);
        },
        _ => match y {
            PropView::And(y1, y2) => {
                assert(and_count(y) == and_count(*y1) + and_count(*y2) + 1);
                assert(is_cnf(*y1) && is_cnf(*y2));
                lemma_or_dist_cnf(x, *y1);
                lemma_or_dist_cnf(x, *y2);
            },
            _ => {
                assert(is_clause(x));
                assert(is_clause(y));
            },
        },
    }
}

/// On a tree in negation normal form the distribution pass yields
/// conjunctive normal form: an `And`-tree of clauses.
pub proof fn lemma_dist_cnf(p: PropView)
    requires
        is_nnf(p),
    ensures
        is_cnf(dist_spec(p)),
    decreases p,
{
    reveal_with_fuel(dist_spec, 2);
    reveal_with_fuel(is_nnf, 2);
    reveal_with_fuel(is_cnf, 3);
    reveal_with_fuel(is_clause, 3);
    match p {
        PropView::Or(l, r) => {
            lemma_dist_cnf(*l);
            lemma_dist_cnf(*r);
            lemma_or_dist_cnf(dist_spec(*l), dist_spec(*r));
        },
        PropView::And(a, b) => {
            lemma_dist_cnf(*a);
            lemma_dist_cnf(*b);
        },
        PropView::Not(a) => {
            assert(is_symbol(*a));
            assert(dist_spec(*a) == *a);
        },
        _ => {},
    }
}

/// On a tree in negation normal form, after the distribution pass no
/// `Or` node anywhere has an `And` as a direct child.
pub proof fn lemma_dist_no_or_over_and(p: PropView)
    requires
        is_nnf(p),
    ensures
        no_or_over_and(dist_spec(p)),
{
    lemma_dist_cnf(p);
    lemma_cnf_no_or_over_and(dist_spec(p));
}

/// In a clause no `Or` has an `And` as a direct child.
pub proof fn lemma_clause_no_or_over_and(p: PropView)
    requires
        is_clause(p),
    ensures
        no_or_over_and(p),
    decreases p,
{
    match p {
        PropView::Or(a, b) => {
            assert(is_clause(*a) && is_clause(*b));
            assert(!is_and(*a));
            assert(!is_and(*b));
            lemma_clause_no_or_over_and(*a);
            lemma_clause_no_or_over_and(*b);
        },
        PropView::Not(a) => {
            assert(is_symbol(*a));
            assert(no_or_over_and(*a));
        },
        _ => {},
    }
}

/// In conjunctive normal form no `Or` has an `And` as a direct child.
pub proof fn lemma_cnf_no_or_over_and(p: PropView)
    requires
        is_cnf(p),
    ensures
        no_or_over_and(p),
    decreases p,
{
    match p {
        PropView::And(a, b) => {
            lemma_cnf_no_or_over_and(*a);
            lemma_cnf_no_or_over_and(*b);
        },
        _ => lemma_clause_no_or_over_and(p),
    }
}

/// Clause splitting never emits an `And`: every collected element has
/// had its `And` spine taken apart.
pub proof fn lemma_split_loop_no_and(stack: Seq<PropView>, acc: Seq<PropView>)
    requires
        forall|i: int| 0 <= i < acc.len() ==> !is_and(#[trigger] acc[i]),
    ensures
        forall|i: int|
            0 <= i < split_loop(stack, acc).len() ==> !is_and(#[trigger] split_loop(stack, acc)[i]),
    decreases sum_sizes(stack),
{
    if stack.len() == 0 {
    } else {
        let p = stack.last();
        let rest = stack.drop_last();
        assert(sum_sizes(stack) == sum_sizes(rest) + size(p));
        lemma_size_pos(p);
        match p {
            PropView::And(a, b) => {
                let stack1 = if is_and(*a) { rest.push(*a) } else { rest };
                let acc1 = if is_and(*a) { acc } else { acc.push(*a) };
                let stack2 = if is_and(*b) { stack1.push(*b) } else { stack1 };
                let acc2 = if is_and(*b) { acc1 } else { acc1.push(*b) };
                lemma_size_pos(*a);
                lemma_size_pos(*b);
                if is_and(*a) {
                    lemma_sum_sizes_push(rest, *a);
                }
                if is_and(*b) {
                    lemma_sum_sizes_push(stack1, *b);
                }
                assert(forall|i: int| 0 <= i < acc2.len() ==> !is_and(#[trigger] acc2[i]));
                lemma_split_loop_no_and(stack2, acc2);
                assert(split_loop(stack, acc) == split_loop(stack2, acc2));
            },
            _ => {
                assert(forall|i: int|
                    0 <= i < acc.push(p).len() ==> !is_and(#[trigger] acc.push(p)[i]));
                lemma_split_loop_no_and(rest, acc.push(p));
                assert(split_loop(stack, acc) == split_loop(rest, acc.push(p)));
            },
        }
    }
}

/// When every stacked tree is in conjunctive normal form and every
/// collected element is a clause, everything that clause splitting
/// emits is a clause.
pub proof fn lemma_split_loop_clauses(stack: Seq<PropView>, acc: Seq<PropView>)
    requires
        forall|i: int| 0 <= i < stack.len() ==> is_cnf(#[trigger] stack[i]),
        forall|i: int| 0 <= i < acc.len() ==> is_clause(#[trigger] acc[i]),
    ensures
        forall|i: int|
            0 <= i < split_loop(stack, acc).len() ==> is_clause(
                #[trigger] split_loop(stack, acc)[i],
            ),
    decreases sum_sizes(stack),
{
    if stack.len() == 0 {
    } else {
        let p = stack.last();
        let rest = stack.drop_last();
        assert(sum_sizes(stack) == sum_sizes(rest) + size(p));
        lemma_size_pos(p);
        assert(is_cnf(p));
        match p {
            PropView::And(a, b) => {
                let stack1 = if is_and(*a) { rest.push(*a) } else { rest };
                let acc1 = if is_and(*a) { acc } else { acc.push(*a) };
                let stack2 = if is_and(*b) { stack1.push(*b) } else { stack1 };
                let acc2 = if is_and(*b) { acc1 } else { acc1.push(*b) };
                lemma_size_pos(*a);
                lemma_size_pos(*b);
                assert(is_cnf(*a) && is_cnf(*b));
                if is_and(*a) {
                    lemma_sum_sizes_push(rest, *a);
                }
                if is_and(*b) {
                    lemma_sum_sizes_push(stack1, *b);
                }
                assert(forall|i: int| 0 <= i < stack2.len() ==> is_cnf(#[trigger] stack2[i]));
                assert(forall|i: int| 0 <= i < acc2.len() ==> is_clause(#[trigger] acc2[i]));
                lemma_split_loop_clauses(stack2, acc2);
                assert(split_loop(stack, acc) == split_loop(stack2, acc2));
            },
            _ => {
                assert(is_clause(p));
                assert(forall|i: int| 0 <= i < rest.len() ==> is_cnf(#[trigger] rest[i]));
                assert(forall|i: int|
                    0 <= i < acc.push(p).len() ==> is_clause(#[trigger] acc.push(p)[i]));
                lemma_split_loop_clauses(rest, acc.push(p));
                assert(split_loop(stack, acc) == split_loop(rest, acc.push(p)));
            },
        }
    }
}

/// The pipeline never stores an `And`: no element of the clause list
/// that `cnf` returns is a conjunction.
pub proof fn lemma_cnf_clauses_never_and(p: PropView)
    ensures
        forall|i: int| 0 <= i < cnf_spec(p).len() ==> !is_and(#[trigger] cnf_spec(p)[i]),
{
    let d = dist_spec(nni_spec(implic_spec(bicon_spec(p))));
    lemma_split_loop_no_and(seq![d], Seq::<PropView>::empty());
}

/// Every element of the clause list that `cnf` returns is a single
/// clause: a constant, a literal, or an `Or`-tree of such leaves.
pub proof fn lemma_cnf_clauses_are_clauses(p: PropView)
    ensures
        forall|i: int| 0 <= i < cnf_spec(p).len() ==> is_clause(#[trigger] cnf_spec(p)[i]),
{
    let b = bicon_spec(p);
    let im = implic_spec(b);
    let n = nni_spec(im);
    let d = dist_spec(n);
    lemma_bicon_no_iff(p);
    lemma_implic_no_implic(b);
    lemma_nni_nnf(im);
    lemma_dist_cnf(n);
    lemma_split_loop_clauses(seq![d], Seq::<PropView>::empty());
}

} // verus!
