//! A small legacy solving surface kept for callers that predate the richer
//! `SatSolver` trait: one status type and one clause-in / model-out trait.

use vstd::prelude::*;

verus! {

/// The legacy solve outcome.
#[allow(non_camel_case_types)]
#[derive(Debug, Clone, PartialEq, Eq)]
pub enum Status {
    SATISFIABLE(Vec<i32>),
    UNSATISFIABLE,
    UNKNOWN,
}

impl Default for Status {
    fn default() -> (r: Self)
        ensures
            r == Status::UNKNOWN,
    {
        Status::UNKNOWN
    }
}

/// The legacy solver capability: accept clauses, then solve and report a
/// model when one exists.
pub trait Solver {
    fn add_clause(&mut self, clause: &Vec<i32>);

    fn solve_model(&mut self) -> Status;
}

} // verus!
