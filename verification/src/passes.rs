//! The normalization pipeline: biconditional elimination, implication
//! elimination, negation normal form, distribution of `Or` over `And`,
//! and clause splitting, each specified by a ghost rewrite function.

use vstd::prelude::*;
use core::mem;
use crate::prop::{Prop, PropView, vnot, vand, vor, vimplic};
use crate::shapes::{
    size, and_count, no_iff, no_implic, is_and, is_nnf, is_clause, is_cnf, seq_view,
    sum_sizes, eval_view,
    eval_clauses, lemma_size_pos, lemma_sum_sizes_push, lemma_seq_view_push,
    lemma_seq_view_drop_last,
};

verus! {

/// Biconditional elimination: rewrites every `Iff(a, b)`, children first,
/// into `And(Implic(a, b), Implic(b, a))`.
pub open spec fn bicon_spec(p: PropView) -> PropView
    decreases p,
{
    match p {
        PropView::Not(a) => vnot(bicon_spec(*a)),
        PropView::And(a, b) => vand(bicon_spec(*a), bicon_spec(*b)),
        PropView::Or(a, b) => vor(bicon_spec(*a), bicon_spec(*b)),
        PropView::Implic(a, b) => vimplic(bicon_spec(*a), bicon_spec(*b)),
        PropView::Iff(a, b) => {
            let l = bicon_spec(*a);
            let r = bicon_spec(*b);
            vand(vimplic(l, r), vimplic(r, l))
        },
        _ => p,
    }
}

/// Implication elimination: rewrites every `Implic(a, b)`, children
/// first, into `Or(Not(a), b)`.
pub open spec fn implic_spec(p: PropView) -> PropView
    decreases p,
{
    match p {
        PropView::Not(a) => vnot(implic_spec(*a)),
        PropView::And(a, b) => vand(implic_spec(*a), implic_spec(*b)),
        PropView::Or(a, b) => vor(implic_spec(*a), implic_spec(*b)),
        PropView::Implic(a, b) => {
            let l = implic_spec(*a);
            let r = implic_spec(*b);
            vor(vnot(l), r)
        },
        PropView::Iff(a, b) => PropView::Iff(Box::new(implic_spec(*a)), Box::new(implic_spec(*b))),
        _ => p,
    }
}

/// Negation normal form: pushes every `Not` down to a symbol or
/// eliminates it against a constant or a double negation. `Implic` and
/// `Iff` nodes are left in place here; the executable pass refuses them.
pub open spec fn nni_spec(p: PropView) -> PropView
    decreases size(p),
{
    match p {
        PropView::Not(q) => match *q {
            PropView::Not(r) => {
                proof {
                    assert(size(p) == size(*q) + 1);
                    assert(size(*q) == size(*r) + 1);
                }
                nni_spec(*r)
            },
            PropView::And(a, b) => {
                proof {
                    lemma_size_pos(*a);
                    lemma_size_pos(*b);
                    assert(size(p) == size(*q) + 1);
                    assert(size(*q) == size(*a) + size(*b) + 1);
                    assert(size(vnot(*a)) == size(*a) + 1);
                    assert(size(vnot(*b)) == size(*b) + 1);
                }
                vor(nni_spec(vnot(*a)), nni_spec(vnot(*b)))
            },
            PropView::Or(a, b) => {
                proof {
                    lemma_size_pos(*a);
                    lemma_size_pos(*b);
                    assert(size(p) == size(*q) + 1);
                    assert(size(*q) == size(*a) + size(*b) + 1);
                    assert(size(vnot(*a)) == size(*a) + 1);
                    assert(size(vnot(*b)) == size(*b) + 1);
                }
                vand(nni_spec(vnot(*a)), nni_spec(vnot(*b)))
            },
            PropView::True => PropView::False,
            PropView::False => PropView::True,
            _ => p,
        },
        PropView::And(a, b) => vand(nni_spec(*a), nni_spec(*b)),
        PropView::Or(a, b) => vor(nni_spec(*a), nni_spec(*b)),
        _ => p,
    }
}

/// Disjunction of two already-distributed trees: while either side is a
/// conjunction, the disjunction is pushed into its conjuncts, the left
/// side taking precedence.
pub open spec fn or_dist(x: PropView, y: PropView) -> PropView
    decreases and_count(x) + and_count(y),
{
    match x {
        PropView::And(x1, x2) => {
            proof {
                assert(and_count(x) == and_count(*x1) + and_count(*x2) + 1);
            }
            vand(or_dist(*x1, y), or_dist(*x2, y))
        },
        _ => match y {
            PropView::And(y1, y2) => {
                proof {
                    assert(and_count(y) == and_count(*y1) + and_count(*y2) + 1);
                }
                vand(or_dist(x, *y1), or_dist(x, *y2))
            },
            _ => vor(x, y),
        },
    }
}

/// Distribution of `Or` over `And`: children first, then the disjunction
/// of the two distributed children is pushed through their `And` spines,
/// the left operand checked first. On a tree in negation normal form the
/// result is in conjunctive normal form.
pub open spec fn dist_spec(p: PropView) -> PropView
    decreases p,
{
    match p {
        PropView::Or(l, r) => or_dist(dist_spec(*l), dist_spec(*r)),
        PropView::And(a, b) => vand(dist_spec(*a), dist_spec(*b)),
        PropView::Not(a) => vnot(dist_spec(*a)),
        _ => p,
    }
}

/// Clause splitting: flattens the top-level `And` spine of each stacked
/// tree, popping from the end of `stack` and collecting non-`And` nodes
/// in order into `acc`.
pub open spec fn split_loop(stack: Seq<PropView>, acc: Seq<PropView>) -> Seq<PropView>
    decreases sum_sizes(stack),
{
    if stack.len() == 0 {
        acc
    } else {
        let p = stack.last();
        let rest = stack.drop_last();
        match p {
            PropView::And(a, b) => {
                let stack1 = if is_and(*a) { rest.push(*a) } else { rest };
                let acc1 = if is_and(*a) { acc } else { acc.push(*a) };
                let stack2 = if is_and(*b) { stack1.push(*b) } else { stack1 };
                let acc2 = if is_and(*b) { acc1 } else { acc1.push(*b) };
                proof {
                    lemma_size_pos(*a);
                    lemma_size_pos(*b);
                    if is_and(*a) {
                        lemma_sum_sizes_push(rest, *a);
                    }
                    if is_and(*b) {
                        lemma_sum_sizes_push(stack1, *b);
                    }
                }
                split_loop(stack2, acc2)
            },
            _ => {
                proof {
                    lemma_size_pos(p);
                }
                split_loop(rest, acc.push(p))
            },
        }
    }
}

/// The clause sequence a single tree splits into.
pub open spec fn split_spec(p: PropView) -> Seq<PropView> {
    split_loop(seq![p], seq![])
}

/// The whole pipeline: the clause sequence that `cnf` returns.
pub open spec fn cnf_spec(p: PropView) -> Seq<PropView> {
    split_spec(dist_spec(nni_spec(implic_spec(bicon_spec(p)))))
}

/// After biconditional elimination no `Iff` node remains.
pub proof fn lemma_bicon_no_iff(p: PropView)
    ensures
        no_iff(bicon_spec(p)),
    decreases p,
{
    reveal_with_fuel(no_iff, 4);
    reveal_with_fuel(bicon_spec, 2);
    match p {
        PropView::Not(a) => lemma_bicon_no_iff(*a),
        PropView::And(a, b) => {
            lemma_bicon_no_iff(*a);
            lemma_bicon_no_iff(*b);
        },
        PropView::Or(a, b) => {
            lemma_bicon_no_iff(*a);
            lemma_bicon_no_iff(*b);
        },
        PropView::Implic(a, b) => {
            lemma_bicon_no_iff(*a);
            lemma_bicon_no_iff(*b);
        },
        PropView::Iff(a, b) => {
            lemma_bicon_no_iff(*a);
            lemma_bicon_no_iff(*b);
        },
        _ => {},
    }
}

/// After implication elimination no `Implic` node remains, and no `Iff`
/// is introduced: a tree free of them comes out free of them.
pub proof fn lemma_implic_no_implic(p: PropView)
    ensures
        no_implic(implic_spec(p)),
        no_iff(p) ==> no_iff(implic_spec(p)),
    decreases p,
{
    reveal_with_fuel(no_implic, 4);
    reveal_with_fuel(no_iff, 4);
    reveal_with_fuel(implic_spec, 2);
    match p {
        PropView::Not(a) => lemma_implic_no_implic(*a),
        PropView::And(a, b) => {
            lemma_implic_no_implic(*a);
            lemma_implic_no_implic(*b);
        },
        PropView::Or(a, b) => {
            lemma_implic_no_implic(*a);
            lemma_implic_no_implic(*b);
        },
        PropView::Implic(a, b) => {
            lemma_implic_no_implic(*a);
            lemma_implic_no_implic(*b);
        },
        PropView::Iff(a, b) => {
            lemma_implic_no_implic(*a);
            lemma_implic_no_implic(*b);
        },
        _ => {},
    }
}

/// After the negation-normal-form pass, on a tree free of `Implic` and
/// `Iff`, every `Not` stands directly over a symbol.
pub proof fn lemma_nni_nnf(p: PropView)
    requires
        no_implic(p),
        no_iff(p),
    ensures
        is_nnf(nni_spec(p)),
    decreases size(p),
{
    reveal_with_fuel(is_nnf, 4);
    reveal_with_fuel(no_implic, 3);
    reveal_with_fuel(no_iff, 3);
    reveal_with_fuel(nni_spec, 2);
    reveal_with_fuel(size, 3);
    match p {
        PropView::Not(q) => match *q {
            PropView::Not(r) => lemma_nni_nnf(*r),
            PropView::And(a, b) => {
                lemma_size_pos(*a);
                lemma_size_pos(*b);
                lemma_nni_nnf(vnot(*a));
                lemma_nni_nnf(vnot(*b));
            },
            PropView::Or(a, b) => {
                lemma_size_pos(*a);
                lemma_size_pos(*b);
                lemma_nni_nnf(vnot(*a));
                lemma_nni_nnf(vnot(*b));
            },
            _ => {},
        },
        PropView::And(a, b) => {
            lemma_nni_nnf(*a);
            lemma_nni_nnf(*b);
        },
        PropView::Or(a, b) => {
            lemma_nni_nnf(*a);
            lemma_nni_nnf(*b);
        },
        _ => {},
    }
}

/// A tree in negation normal form holds no `Implic` and no `Iff`.
pub proof fn lemma_nnf_no_connectives(p: PropView)
    requires
        is_nnf(p),
    ensures
        no_implic(p),
        no_iff(p),
    decreases p,
{
    reveal_with_fuel(no_implic, 3);
    reveal_with_fuel(no_iff, 3);
    reveal_with_fuel(is_nnf, 2);
    match p {
        PropView::Not(a) => {},
        PropView::And(a, b) => {
            lemma_nnf_no_connectives(*a);
            lemma_nnf_no_connectives(*b);
        },
        PropView::Or(a, b) => {
            lemma_nnf_no_connectives(*a);
            lemma_nnf_no_connectives(*b);
        },
        _ => {},
    }
}


impl Prop {
    /// Rewrites every biconditional `Iff(a, b)`, children first, into
    /// `And(Implic(a, b), Implic(b, a))`; afterwards no `Iff` remains.
    pub fn bicon_elim(&mut self)
        ensures
            final(self)@ == bicon_spec(old(self)@),
            no_iff(final(self)@),
        decreases old(self)@,
    {
        proof {
            lemma_bicon_no_iff(old(self)@);
        }
        match self {
            Prop::True | Prop::False | Prop::Symbol(_) => {},
            Prop::Not(p) => p.arg.bicon_elim(),
            Prop::And(p) => {
                p.lhs.bicon_elim();
                p.rhs.bicon_elim();
            },
            Prop::Or(p) => {
                p.lhs.bicon_elim();
                p.rhs.bicon_elim();
            },
            Prop::Implic(p) => {
                p.lhs.bicon_elim();
                p.rhs.bicon_elim();
            },
            Prop::Iff(p) => {
                p.lhs.bicon_elim();
                p.rhs.bicon_elim();
            },
        }
        if let Prop::Iff(p) = self {
            let mut lhs = Prop::True;
            let mut rhs = Prop::True;
            mem::swap(&mut lhs, &mut p.lhs);
            mem::swap(&mut rhs, &mut p.rhs);
            *self = Prop::and(
                Prop::implic(lhs.clone(), rhs.clone()),
                Prop::implic(rhs, lhs),
            );
        }
    }

    /// Rewrites every implication `Implic(a, b)`, children first, into
    /// `Or(Not(a), b)`; afterwards no `Implic` remains.
    pub fn implic_elim(&mut self)
        ensures
            final(self)@ == implic_spec(old(self)@),
            no_implic(final(self)@),
            no_iff(old(self)@) ==> no_iff(final(self)@),
        decreases old(self)@,
    {
        proof {
            lemma_implic_no_implic(old(self)@);
        }
        match self {
            Prop::True | Prop::False | Prop::Symbol(_) => {},
            Prop::Not(p) => p.arg.implic_elim(),
            Prop::And(p) => {
                p.lhs.implic_elim();
                p.rhs.implic_elim();
            },
            Prop::Or(p) => {
                p.lhs.implic_elim();
                p.rhs.implic_elim();
            },
            Prop::Implic(p) => {
                p.lhs.implic_elim();
                p.rhs.implic_elim();
            },
            Prop::Iff(p) => {
                p.lhs.implic_elim();
                p.rhs.implic_elim();
            },
        }
        if let Prop::Implic(p) = self {
            let mut lhs = Prop::True;
            let mut rhs = Prop::True;
            mem::swap(&mut lhs, &mut p.lhs);
            mem::swap(&mut rhs, &mut p.rhs);
            *self = Prop::or(Prop::not(lhs), rhs);
        }
    }

    /// Pushes every `Not` inward until it stands directly over a symbol,
    /// using double-negation elimination, De Morgan's laws and constant
    /// negation. The tree must already be free of `Implic` and `Iff`.
    pub fn move_not_inward(&mut self)
        requires
            no_implic(old(self)@),
            no_iff(old(self)@),
        ensures
            final(self)@ == nni_spec(old(self)@),
            is_nnf(final(self)@),
    {
        proof {
            lemma_nni_nnf(old(self)@);
        }
        let mut tmp = Prop::True;
        mem::swap(self, &mut tmp);
        *self = tmp.not_inward_rec();
    }

    /// Recursive worker for [`Prop::move_not_inward`], rebuilding the
    /// tree by move-construction.
    fn not_inward_rec(self) -> (r: Prop)
        requires
            no_implic(self@),
            no_iff(self@),
        ensures
            r@ == nni_spec(self@),
        decreases size(self@),
    {
        match self {
            Prop::Not(u) => {
                let arg = u.arg;
                proof {
                    assert(self@ == vnot(arg@));
                    assert(size(self@) == size(arg@) + 1);
                    assert(no_implic(arg@));
                    assert(no_iff(arg@));
                }
                match arg {
                    Prop::Not(u2) => {
                        let inner = u2.arg;
                        proof {
                            assert(arg@ == vnot(inner@));
                            assert(size(arg@) == size(inner@) + 1);
                            assert(no_implic(inner@));
                            assert(no_iff(inner@));
                            assert(nni_spec(self@) == nni_spec(inner@));
                        }
                        inner.not_inward_rec()
                    },
                    Prop::And(b) => {
                        let bb = *b;
                        let lhs = bb.lhs;
                        let rhs = bb.rhs;
                        proof {
                            assert(arg@ == vand(lhs@, rhs@));
                            assert(size(arg@) == size(lhs@) + size(rhs@) + 1);
                            lemma_size_pos(lhs@);
                            lemma_size_pos(rhs@);
                            assert(no_implic(lhs@) && no_iff(lhs@));
                            assert(no_implic(rhs@) && no_iff(rhs@));
                            assert(nni_spec(self@) == vor(nni_spec(vnot(lhs@)), nni_spec(vnot(rhs@))));
                        }
                        let nl = Prop::not(lhs).not_inward_rec();
                        let nr = Prop::not(rhs).not_inward_rec();
                        Prop::or(nl, nr)
                    },
                    Prop::Or(b) => {
                        let bb = *b;
                        let lhs = bb.lhs;
                        let rhs = bb.rhs;
                        proof {
                            assert(arg@ == vor(lhs@, rhs@));
                            assert(size(arg@) == size(lhs@) + size(rhs@) + 1);
                            lemma_size_pos(lhs@);
                            lemma_size_pos(rhs@);
                            assert(no_implic(lhs@) && no_iff(lhs@));
                            assert(no_implic(rhs@) && no_iff(rhs@));
                            assert(nni_spec(self@) == vand(nni_spec(vnot(lhs@)), nni_spec(vnot(rhs@))));
                        }
                        let nl = Prop::not(lhs).not_inward_rec();
                        let nr = Prop::not(rhs).not_inward_rec();
                        Prop::and(nl, nr)
                    },
                    Prop::True => Prop::False,
                    Prop::False => Prop::True,
                    Prop::Symbol(name) => Prop::not(Prop::Symbol(name)),
                    Prop::Implic(_) => {
                        proof {
                            assert(false);
                        }
                        Prop::True
                    },
                    Prop::Iff(_) => {
                        proof {
                            assert(false);
                        }
                        Prop::True
                    },
                }
            },
            Prop::And(b) => {
                let bb = *b;
                let lhs = bb.lhs;
                let rhs = bb.rhs;
                proof {
                    assert(self@ == vand(lhs@, rhs@));
                    assert(size(self@) == size(lhs@) + size(rhs@) + 1);
                    assert(no_implic(lhs@) && no_iff(lhs@));
                    assert(no_implic(rhs@) && no_iff(rhs@));
                }
                Prop::and(lhs.not_inward_rec(), rhs.not_inward_rec())
            },
            Prop::Or(b) => {
                let bb = *b;
                let lhs = bb.lhs;
                let rhs = bb.rhs;
                proof {
                    assert(self@ == vor(lhs@, rhs@));
                    assert(size(self@) == size(lhs@) + size(rhs@) + 1);
                    assert(no_implic(lhs@) && no_iff(lhs@));
                    assert(no_implic(rhs@) && no_iff(rhs@));
                }
                Prop::or(lhs.not_inward_rec(), rhs.not_inward_rec())
            },
            Prop::True => Prop::True,
            Prop::False => Prop::False,
            Prop::Symbol(name) => Prop::Symbol(name),
            Prop::Implic(_) => {
                proof {
                    assert(false);
                }
                Prop::True
            },
            Prop::Iff(_) => {
                proof {
                    assert(false);
                }
                Prop::True
            },
        }
    }

    /// Distributes `Or` over `And` until no disjunction has a conjunction
    /// beneath it: both operands of an `Or` are distributed first, then
    /// their disjunction is pushed through the `And` spines, the left
    /// operand taking precedence. The tree must already be free of
    /// `Implic` and `Iff`; in negation normal form it comes out in
    /// conjunctive normal form.
    pub fn distribute_or_over_and(&mut self)
        requires
            no_implic(old(self)@),
            no_iff(old(self)@),
        ensures
            final(self)@ == dist_spec(old(self)@),
            is_nnf(old(self)@) ==> is_cnf(final(self)@),
    {
        proof {
            if is_nnf(old(self)@) {
                crate::laws::lemma_dist_cnf(old(self)@);
            }
        }
        let mut tmp = Prop::True;
        mem::swap(self, &mut tmp);
        *self = tmp.distribute_rec();
    }

    /// Recursive worker for [`Prop::distribute_or_over_and`], rebuilding
    /// the tree by move-construction.
    fn distribute_rec(self) -> (r: Prop)
        requires
            no_implic(self@),
            no_iff(self@),
        ensures
            r@ == dist_spec(self@),
        decreases size(self@),
    {
        match self {
            Prop::Or(b) => {
                let bb = *b;
                let lhs = bb.lhs;
                let rhs = bb.rhs;
                proof {
                    assert(self@ == vor(lhs@, rhs@));
                    assert(size(self@) == size(lhs@) + size(rhs@) + 1);
                    assert(no_implic(lhs@) && no_iff(lhs@));
                    assert(no_implic(rhs@) && no_iff(rhs@));
                }
                let da = lhs.distribute_rec();
                let db = rhs.distribute_rec();
                or_distribute(da, db)
            },
            Prop::And(b) => {
                let bb = *b;
                let lhs = bb.lhs;
                let rhs = bb.rhs;
                proof {
                    assert(self@ == vand(lhs@, rhs@));
                    assert(size(self@) == size(lhs@) + size(rhs@) + 1);
                    assert(no_implic(lhs@) && no_iff(lhs@));
                    assert(no_implic(rhs@) && no_iff(rhs@));
                }
                Prop::and(lhs.distribute_rec(), rhs.distribute_rec())
            },
            Prop::Not(u) => {
                let arg = u.arg;
                proof {
                    assert(self@ == vnot(arg@));
                    assert(size(self@) == size(arg@) + 1);
                    assert(no_implic(arg@) && no_iff(arg@));
                }
                Prop::not(arg.distribute_rec())
            },
            Prop::True => Prop::True,
            Prop::False => Prop::False,
            Prop::Symbol(name) => Prop::Symbol(name),
            Prop::Implic(_) => {
                proof {
                    assert(false);
                }
                Prop::True
            },
            Prop::Iff(_) => {
                proof {
                    assert(false);
                }
                Prop::True
            },
        }
    }

    /// Flattens the top-level `And` spine into separate clauses with an
    /// explicit work stack; non-`And` nodes come out in pop order.
    pub fn split_clause(self) -> (r: Vec<Prop>)
        ensures
            seq_view(r@) == split_spec(self@),
    {
        let ghost orig = self@;
        let mut stack: Vec<Prop> = Vec::new();
        stack.push(self);
        proof {
            assert(seq_view(stack@) =~= seq![orig]);
        }
        split_stack(stack)
    }

    /// Runs the five passes in order and returns the clause list of the
    /// conjunctive normal form of the formula: every element is a single
    /// clause, and the conjunction of the elements keeps the formula's
    /// truth value under every model.
    pub fn cnf(self) -> (r: Vec<Prop>)
        ensures
            seq_view(r@) == cnf_spec(self@),
            forall|m: Map<Seq<char>, bool>|
                #[trigger] eval_clauses(seq_view(r@), m) == eval_view(self@, m),
            forall|i: int| 0 <= i < r@.len() ==> is_clause(#[trigger] seq_view(r@)[i]),
            forall|i: int| 0 <= i < r@.len() ==> !is_and(#[trigger] seq_view(r@)[i]),
    {
        let mut p = self;
        p.bicon_elim();
        proof {
            lemma_bicon_no_iff(self@);
        }
        p.implic_elim();
        proof {
            lemma_implic_no_implic(bicon_spec(self@));
        }
        p.move_not_inward();
        proof {
            lemma_nni_nnf(implic_spec(bicon_spec(self@)));
            lemma_nnf_no_connectives(nni_spec(implic_spec(bicon_spec(self@))));
        }
        p.distribute_or_over_and();
        let r = p.split_clause();
        proof {
            assert forall|m: Map<Seq<char>, bool>|
                #[trigger] eval_clauses(seq_view(r@), m) == eval_view(self@, m) by {
                crate::laws::lemma_cnf_preserves_eval(self@, m);
            }
            crate::laws::lemma_cnf_clauses_never_and(self@);
            crate::laws::lemma_cnf_clauses_are_clauses(self@);
            assert forall|i: int| 0 <= i < r@.len() implies is_clause(#[trigger] seq_view(r@)[i])
                && !is_and(seq_view(r@)[i]) by {
                assert(seq_view(r@)[i] == cnf_spec(self@)[i]);
            }
        }
        r
    }
}


/// Work-stack flattening shared by [`Prop::split_clause`] and
/// [`crate::kb::KB::split_clauses`]: pops trees from the end of `stack`
/// and collects every non-`And` node reached through `And` spines.
pub(crate) fn split_stack(stack: Vec<Prop>) -> (r: Vec<Prop>)
    ensures
        seq_view(r@) == split_loop(seq_view(stack@), Seq::<PropView>::empty()),
{
    let ghost orig_stack = seq_view(stack@);
    let mut stack = stack;
    let mut new_clauses: Vec<Prop> = Vec::new();
    proof {
        assert(seq_view(new_clauses@) =~= Seq::<PropView>::empty());
    }
    while stack.len() != 0
        invariant
            split_loop(seq_view(stack@), seq_view(new_clauses@)) == split_loop(
                orig_stack,
                Seq::<PropView>::empty(),
            ),
        decreases sum_sizes(seq_view(stack@)),
    {
        let ghost vec0 = stack@;
        let ghost stack0 = seq_view(vec0);
        let ghost acc0 = seq_view(new_clauses@);
        proof {
            lemma_seq_view_drop_last(vec0);
        }
        let prop = stack.pop().unwrap();
        let ghost pv = prop@;
        let ghost rest = stack0.drop_last();
        proof {
            assert(stack@ =~= vec0.drop_last());
            assert(seq_view(stack@) == rest);
            assert(pv == stack0.last());
            assert(sum_sizes(stack0) == sum_sizes(rest) + size(pv));
            lemma_size_pos(pv);
        }
        if let Prop::And(p) = prop {
            let bp = *p;
            let lhs = bp.lhs;
            let rhs = bp.rhs;
            let ghost lv = lhs@;
            let ghost rv = rhs@;
            proof {
                assert(pv == vand(lv, rv));
                assert(size(pv) == size(lv) + size(rv) + 1);
                lemma_size_pos(lv);
                lemma_size_pos(rv);
            }
            let ghost stack1 = if is_and(lv) { rest.push(lv) } else { rest };
            let ghost acc1 = if is_and(lv) { acc0 } else { acc0.push(lv) };
            if let Prop::And(_) = &lhs {
                let ghost pre = stack@;
                stack.push(lhs);
                proof {
                    assert(is_and(lv));
                    lemma_seq_view_push(pre, lhs);
                    lemma_sum_sizes_push(rest, lv);
                    assert(seq_view(stack@) == stack1);
                    assert(seq_view(new_clauses@) == acc1);
                }
            } else {
                let ghost pre = new_clauses@;
                new_clauses.push(lhs);
                proof {
                    assert(!is_and(lv));
                    lemma_seq_view_push(pre, lhs);
                    assert(seq_view(stack@) == stack1);
                    assert(seq_view(new_clauses@) == acc1);
                }
            }
            let ghost stack2 = if is_and(rv) { stack1.push(rv) } else { stack1 };
            let ghost acc2 = if is_and(rv) { acc1 } else { acc1.push(rv) };
            if let Prop::And(_) = &rhs {
                let ghost pre = stack@;
                stack.push(rhs);
                proof {
                    assert(is_and(rv));
                    lemma_seq_view_push(pre, rhs);
                    lemma_sum_sizes_push(stack1, rv);
                    assert(seq_view(stack@) == stack2);
                    assert(seq_view(new_clauses@) == acc2);
                }
            } else {
                let ghost pre = new_clauses@;
                new_clauses.push(rhs);
                proof {
                    assert(!is_and(rv));
                    lemma_seq_view_push(pre, rhs);
                    assert(seq_view(stack@) == stack2);
                    assert(seq_view(new_clauses@) == acc2);
                }
            }
            proof {
                assert(sum_sizes(stack2) < sum_sizes(stack0));
                assert(split_loop(stack0, acc0) == split_loop(stack2, acc2));
            }
        } else {
            let ghost pre = new_clauses@;
            new_clauses.push(prop);
            proof {
                assert(!is_and(pv));
                lemma_seq_view_push(pre, prop);
                assert(seq_view(new_clauses@) == acc0.push(pv));
                assert(split_loop(stack0, acc0) == split_loop(rest, acc0.push(pv)));
            }
        }
    }
    proof {
        assert(seq_view(stack@).len() == 0);
        assert(split_loop(seq_view(stack@), seq_view(new_clauses@)) == seq_view(new_clauses@));
    }
    new_clauses
}


/// Disjunction of two already-distributed trees, pushed through their
/// `And` spines, the left side taking precedence.
fn or_distribute(x: Prop, y: Prop) -> (r: Prop)
    ensures
        r@ == or_dist(x@, y@),
    decreases and_count(x@) + and_count(y@),
{
    match x {
        Prop::And(b) => {
            let bb = *b;
            let x1 = bb.lhs;
            let x2 = bb.rhs;
            proof {
                assert(x@ == vand(x1@, x2@));
                assert(and_count(x@) == and_count(x1@) + and_count(x2@) + 1);
            }
            let r1 = or_distribute(x1, y.clone());
            let r2 = or_distribute(x2, y);
            Prop::and(r1, r2)
        },
        x_other => {
            proof {
                assert(!is_and(x_other@));
            }
            match y {
                Prop::And(b) => {
                    let bb = *b;
                    let y1 = bb.lhs;
                    let y2 = bb.rhs;
                    proof {
                        assert(y@ == vand(y1@, y2@));
                        assert(and_count(y@) == and_count(y1@) + and_count(y2@) + 1);
                    }
                    let r1 = or_distribute(x_other.clone(), y1);
                    let r2 = or_distribute(x_other, y2);
                    Prop::and(r1, r2)
                },
                y_other => {
                    proof {
                        assert(!is_and(y_other@));
                    }
                    Prop::or(x_other, y_other)
                },
            }
        },
    }
}

} // verus!
