//! A proof oracle: a stateful front end over incremental satisfiability
//! backends, used to decide whether formulas are valid and, when they are
//! not, to extract and inspect a concrete counterexample.

pub mod dispatch;
pub mod exprs;
pub mod extract;
pub mod model;
pub mod numbers;
pub mod prover;
pub mod term;
pub mod text;
