//! The uniform solver surface: status types and the `SatSolver` / `MusSolver`
//! trait contracts, together with the engines that implement them.

pub mod base;
pub mod logic;
pub mod minisat;
pub mod picosat;
pub mod search;

pub use minisat::MinisatSolver;
pub use picosat::PicoSATSolver;

use crate::errors::SolverError;
use vstd::prelude::*;

verus! {

/// The raw tri-state outcome of one solver run. `Unknown` arises from
/// resource or decision limits, never from an error.
#[derive(Debug, Clone, Copy, PartialEq, Eq, Structural)]
pub enum RawStatus {
    Satisfiable,
    Unsatisfiable,
    Unknown,
}

impl Default for RawStatus {
    fn default() -> (r: Self)
        ensures
            r == RawStatus::Unknown,
    {
        RawStatus::Unknown
    }
}

/// The status encoded by a conventional native exit code: 10 is
/// satisfiable, 20 is unsatisfiable, anything else is unknown.
pub open spec fn status_of_code(value: i32) -> RawStatus {
    if value == 10 {
        RawStatus::Satisfiable
    } else if value == 20 {
        RawStatus::Unsatisfiable
    } else {
        RawStatus::Unknown
    }
}

impl vstd::std_specs::convert::FromSpecImpl<i32> for RawStatus {
    open spec fn obeys_from_spec() -> bool {
        true
    }

    open spec fn from_spec(value: i32) -> Self {
        status_of_code(value)
    }
}

impl From<i32> for RawStatus {
    /// Decodes the conventional native exit codes.
    fn from(value: i32) -> (r: Self)
        ensures
            r == status_of_code(value),
    {
        match value {
            10 => RawStatus::Satisfiable,
            20 => RawStatus::Unsatisfiable,
            _ => RawStatus::Unknown,
        }
    }
}

/// A solve outcome enriched with the satisfying assignment, when there is one.
#[derive(Debug, Clone, PartialEq, Eq)]
pub enum SatStatus {
    Satisfiable(Vec<i32>),
    Unsatisfiable,
    Unknown,
}

impl Default for SatStatus {
    fn default() -> (r: Self)
        ensures
            r == SatStatus::Unknown,
    {
        SatStatus::Unknown
    }
}

/// The outcome of minimal-unsatisfiable-subset extraction: either the formula
/// is satisfiable after all, or a set of clause indices whose conjunction is
/// unsatisfiable and locally minimal, or the answer is unknown.
#[derive(Debug, Clone, PartialEq, Eq)]
pub enum MusStatus {
    Satisfiable,
    Unsatisfiable(Vec<usize>),
    Unknown,
}

impl Default for MusStatus {
    fn default() -> (r: Self)
        ensures
            r == MusStatus::Unknown,
    {
        MusStatus::Unknown
    }
}

/// The uniform satisfiability-solving capability. Clauses go in one at a
/// time; `solve_sat` decides the accumulated formula; `model` hands out the
/// assignment of the last satisfiable solve.
///
/// The contracts are stated against the abstract clause store `cls` and the
/// propositional model of [`logic`]: a `Satisfiable` answer always comes
/// with a genuine model of every pushed clause, and an `Unsatisfiable`
/// answer means no assignment at all satisfies them.
pub trait SatSolver: Sized {
    /// The clauses pushed so far, in push order.
    spec fn cls(&self) -> Seq<Seq<i32>>;

    /// The variable high-water mark: the largest variable any pushed clause
    /// mentions.
    spec fn num_vars(&self) -> int;

    /// The model stored by the last solve, when still valid.
    spec fn stored_model(&self) -> Option<Seq<i32>>;

    /// The solver's internal invariant.
    spec fn wf(&self) -> bool;

    /// States on which no call of this solver reports an engine error.
    spec fn infallible(&self) -> bool;

    /// States on which `solve_sat` never answers `Unknown`.
    spec fn solve_decisive(&self) -> bool;

    /// Appends one clause to the solver's database. The reserved literal 0
    /// is rejected; any other clause is accepted and may grow the variable
    /// count.
    fn push_clause(&mut self, clause: &[i32]) -> (r: Result<(), SolverError>)
        requires
            old(self).wf(),
        ensures
            final(self).wf(),
            r is Ok <==> (forall|k: int| 0 <= k < clause@.len() ==> #[trigger] clause@[k] != 0),
            r is Ok ==> final(self).cls() == old(self).cls().push(clause@) && final(self).num_vars() == vstd::math::max(old(self).num_vars(), logic::max_var(clause@)) && final(self).stored_model() is None,
            r is Err ==> final(self).cls() == old(self).cls() && final(self).num_vars() == old(self).num_vars() && final(self).stored_model() == old(self).stored_model(),
            final(self).infallible() == old(self).infallible(),
    ;

    /// Runs the engine's search on the accumulated clauses and reports the
    /// tri-state outcome.
    fn solve_sat(&mut self) -> (r: Result<RawStatus, SolverError>)
        requires
            old(self).wf(),
        ensures
            final(self).wf(),
            final(self).cls() == old(self).cls(),
            final(self).num_vars() == old(self).num_vars(),
            final(self).infallible() == old(self).infallible(),
            old(self).infallible() ==> r is Ok,
            r == Ok::<RawStatus, SolverError>(RawStatus::Satisfiable) ==> (final(self).stored_model() matches Some(m) && logic::is_model_of(
                m,
                old(self).cls(),
                old(self).num_vars(),
            ) && logic::satisfiable(old(self).cls())),
            r == Ok::<RawStatus, SolverError>(RawStatus::Unsatisfiable) ==> !logic::satisfiable(
                old(self).cls(),
            ),
            r == Ok::<RawStatus, SolverError>(RawStatus::Unknown) ==> !old(self).solve_decisive(),
    ;

    /// Hands out the model of the last solve. It is an error to ask for a
    /// model when the last solve did not end satisfiable, or after a clause
    /// has been pushed since; the solver's state is never changed by asking.
    fn model(&mut self) -> (r: Result<Vec<i32>, SolverError>)
        requires
            old(self).wf(),
        ensures
            final(self).wf(),
            final(self).cls() == old(self).cls(),
            final(self).num_vars() == old(self).num_vars(),
            final(self).stored_model() == old(self).stored_model(),
            final(self).infallible() == old(self).infallible(),
            r is Ok <==> old(self).stored_model() is Some,
            r matches Ok(m) ==> old(self).stored_model() == Some(m@),
    ;

    /// Solves and, when the outcome is satisfiable, immediately reads the
    /// model off the engine: the convenience composition of `solve_sat` and
    /// `model`.
    fn solve_model(&mut self) -> (r: Result<SatStatus, SolverError>)
        requires
            old(self).wf(),
        ensures
            final(self).wf(),
            final(self).cls() == old(self).cls(),
            final(self).num_vars() == old(self).num_vars(),
            final(self).infallible() == old(self).infallible(),
            old(self).infallible() ==> r is Ok,
            r matches Ok(SatStatus::Satisfiable(m)) ==> logic::is_model_of(
                m@,
                old(self).cls(),
                old(self).num_vars(),
            ),
            r == Ok::<SatStatus, SolverError>(SatStatus::Unsatisfiable) ==> !logic::satisfiable(
                old(self).cls(),
            ),
            r == Ok::<SatStatus, SolverError>(SatStatus::Unknown) ==> !old(self).solve_decisive(),
    {
        let status = match self.solve_sat() {
            Ok(s) => s,
            Err(e) => {
                return Err(e);
            },
        };
        match status {
            RawStatus::Satisfiable => {
                match self.model() {
                    Ok(m) => Ok(SatStatus::Satisfiable(m)),
                    Err(e) => Err(e),
                }
            },
            RawStatus::Unsatisfiable => Ok(SatStatus::Unsatisfiable),
            RawStatus::Unknown => Ok(SatStatus::Unknown),
        }
    }
}

/// The minimal-unsatisfiable-subset capability: push clauses, then ask for
/// a locally minimal subset of them that is already contradictory.
///
/// An `Unsatisfiable(indices)` answer is proved exact: the indices are
/// ascending positions into the push order, the sub-formula they select is
/// unsatisfiable, and dropping any single one of them makes the remainder
/// satisfiable.
pub trait MusSolver: Sized {
    /// The clauses pushed so far, in push order.
    spec fn mus_cls(&self) -> Seq<Seq<i32>>;

    /// The variable high-water mark of the pushed clauses.
    spec fn mus_num_vars(&self) -> int;

    /// The solver's internal invariant.
    spec fn mus_wf(&self) -> bool;

    /// States on which no call of this solver reports an engine error.
    spec fn mus_infallible(&self) -> bool;

    /// States on which `solve_mus` never answers `Unknown`.
    spec fn mus_decisive(&self) -> bool;

    /// Appends one clause to the store the extraction will run on. The
    /// reserved literal 0 is rejected.
    fn push_clause(&mut self, clause: &[i32]) -> (r: Result<(), SolverError>)
        requires
            old(self).mus_wf(),
        ensures
            final(self).mus_wf(),
            r is Ok <==> (forall|k: int| 0 <= k < clause@.len() ==> #[trigger] clause@[k] != 0),
            r is Ok ==> final(self).mus_cls() == old(self).mus_cls().push(clause@) && final(self).mus_num_vars() == vstd::math::max(old(self).mus_num_vars(), logic::max_var(clause@)),
            r is Err ==> final(self).mus_cls() == old(self).mus_cls() && final(self).mus_num_vars()
                == old(self).mus_num_vars(),
            final(self).mus_infallible() == old(self).mus_infallible(),
    ;

    /// Decides the pushed formula and, when it is unsatisfiable, extracts a
    /// locally minimal unsatisfiable subset of the pushed clauses, reported
    /// as ascending indices into the push order.
    fn solve_mus(&mut self) -> (r: Result<MusStatus, SolverError>)
        requires
            old(self).mus_wf(),
        ensures
            final(self).mus_wf(),
            final(self).mus_cls() == old(self).mus_cls(),
            final(self).mus_num_vars() == old(self).mus_num_vars(),
            final(self).mus_infallible() == old(self).mus_infallible(),
            old(self).mus_infallible() ==> r is Ok,
            r == Ok::<MusStatus, SolverError>(MusStatus::Satisfiable) ==> logic::satisfiable(
                old(self).mus_cls(),
            ),
            r matches Ok(MusStatus::Unsatisfiable(idx)) ==> logic::mus_result_ok(
                idx@,
                old(self).mus_cls(),
            ),
            r == Ok::<MusStatus, SolverError>(MusStatus::Unknown) ==> !old(self).mus_decisive(),
    ;
}

} // verus!
