//! The knowledge base: an ordered sequence of stored formulas, each a
//! single CNF clause once it has passed through `tell`.

use vstd::prelude::*;
use core::mem;
use crate::prop::{Prop, PropView};
use crate::shapes::{seq_view, is_and, is_clause};
use crate::passes::{split_loop, cnf_spec, split_stack};

verus! {

/// A growing collection of clauses; `tell` normalizes a formula and
/// appends every clause of its conjunctive normal form.
pub struct KB {
    pub sentences: Vec<Prop>,
}

impl KB {
    /// A knowledge base holding no sentence.
    pub fn empty() -> (r: Self)
        ensures
            r.sentences@ == Seq::<Prop>::empty(),
    {
        Self { sentences: Vec::new() }
    }

    /// Splits any top-level conjunction still stored in the base into
    /// separate clauses, with the same work-stack flattening that the
    /// pipeline's final pass uses.
    pub fn split_clauses(&mut self)
        ensures
            seq_view(final(self).sentences@) == split_loop(
                seq_view(old(self).sentences@),
                Seq::<PropView>::empty(),
            ),
    {
        let mut stack: Vec<Prop> = Vec::new();
        mem::swap(&mut stack, &mut self.sentences);
        self.sentences = split_stack(stack);
    }

    /// Normalizes `prop` into conjunctive normal form and appends every
    /// resulting clause; succeeds on every formula, and everything it
    /// appends is a single clause, never a conjunction.
    pub fn tell(&mut self, prop: Prop) -> (r: Result<(), &'static str>)
        ensures
            r is Ok,
            seq_view(final(self).sentences@) == seq_view(old(self).sentences@) + cnf_spec(prop@),
            forall|i: int|
                old(self).sentences@.len() <= i < final(self).sentences@.len() ==> is_clause(
                    #[trigger] seq_view(final(self).sentences@)[i],
                ),
            forall|i: int|
                old(self).sentences@.len() <= i < final(self).sentences@.len() ==> !is_and(
                    #[trigger] seq_view(final(self).sentences@)[i],
                ),
    {
        let ghost pv = prop@;
        let mut clauses = prop.cnf();
        let ghost pre = self.sentences@;
        let ghost cl = clauses@;
        self.sentences.append(&mut clauses);
        proof {
            assert(self.sentences@ == pre + cl);
            assert(seq_view(pre + cl) =~= seq_view(pre) + seq_view(cl));
            assert forall|i: int|
                pre.len() <= i < self.sentences@.len() implies is_clause(
                #[trigger] seq_view(self.sentences@)[i],
            ) && !is_and(seq_view(self.sentences@)[i]) by {
                assert(seq_view(self.sentences@)[i] == seq_view(cl)[i - pre.len()]);
                assert(seq_view(cl)[i - pre.len()] == cnf_spec(pv)[i - pre.len()]);
            }
        }
        Ok(())
    }
}

} // verus!
