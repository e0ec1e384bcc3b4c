//! A model: an assignment of truth values to symbol names. Symbols absent
//! from the model count as false, and evaluation of a formula under a
//! model.

use vstd::prelude::*;
use vstd::hash_map::StringHashMap;
use crate::prop::Prop;
use crate::shapes::eval_view;

verus! {

/// A mapping from symbol name to truth value.
pub struct Model {
    pub map: StringHashMap<bool>,
}

impl View for Model {
    type V = Map<Seq<char>, bool>;

    open spec fn view(&self) -> Map<Seq<char>, bool> {
        self.map@
    }
}

impl Model {
    /// The empty model: every symbol is false under it.
    pub fn new() -> (r: Self)
        ensures
            r@ == Map::<Seq<char>, bool>::empty(),
    {
        Model { map: StringHashMap::new() }
    }

    /// Assigns a truth value to a symbol name, replacing any earlier one.
    pub fn insert(&mut self, name: &str, value: bool)
        ensures
            final(self)@ == old(self)@.insert(name@, value),
    {
        self.map.insert(name.to_owned(), value);
    }
}

impl Prop {
    /// Truth value of the formula under `model`; a symbol the model does
    /// not mention is false.
    pub fn eval(&self, model: &Model) -> (r: bool)
        ensures
            r == eval_view(self@, model@),
        decreases self,
    {
        match self {
            Prop::True => true,
            Prop::False => false,
            Prop::Symbol(name) => match model.map.get(name.as_str()) {
                Some(b) => *b,
                None => false,
            },
            Prop::Not(p) => !p.arg.eval(model),
            Prop::And(p) => p.lhs.eval(model) && p.rhs.eval(model),
            Prop::Or(p) => p.lhs.eval(model) || p.rhs.eval(model),
            Prop::Implic(p) => !p.lhs.eval(model) || p.rhs.eval(model),
            Prop::Iff(p) => p.lhs.eval(model) == p.rhs.eval(model),
        }
    }
}

} // verus!
