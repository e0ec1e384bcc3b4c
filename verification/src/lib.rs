//! Propositional-logic formulas, their normalization into conjunctive
//! normal form (CNF), an infix parser, and a knowledge base that stores
//! the resulting clauses.

pub mod kb;
pub mod laws;
pub mod model;
pub mod parser;
pub mod passes;
pub mod prop;
pub mod render;
pub mod shapes;
