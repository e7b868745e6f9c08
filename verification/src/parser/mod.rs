//! Clause ingestion: the [`AsDimacs`] consumer trait, the [`Problem`]
//! record, and the DIMACS CNF text parser.

pub mod dimacs;

pub use dimacs::parse_dimacs_cnf;

use crate::errors::ParserError;
use crate::solver::logic::max_var;
use crate::solver::logic::cls_view;
use crate::solver::logic::lit_var;
use crate::solver::MinisatSolver;
use crate::solver::PicoSATSolver;
use crate::solver::SatSolver;
use vstd::prelude::*;

verus! {

/// A problem to be solved: the clauses in arrival order, with the derived
/// variable and clause counts.
#[derive(Debug)]
pub struct Problem {
    pub clauses: Vec<Vec<i32>>,
    pub num_vars: usize,
    pub num_clauses: usize,
}

impl Problem {
    /// An empty problem.
    pub fn new() -> (r: Self)
        ensures
            r.dwf(),
            r.store() == Seq::<Seq<i32>>::empty(),
            r.num_vars == 0,
            r.num_clauses == 0,
    {
        let r = Problem { clauses: vec![], num_vars: 0, num_clauses: 0 };
        proof {
            assert(r.store() =~= Seq::<Seq<i32>>::empty());
        }
        r
    }
}

impl Default for Problem {
    fn default() -> (r: Self)
        ensures
            r.dwf(),
            r.store() == Seq::<Seq<i32>>::empty(),
            r.num_vars == 0,
            r.num_clauses == 0,
    {
        Problem::new()
    }
}

/// The capability of accepting clauses one at a time, optionally with
/// comments: implemented by plain clause collections, by [`Problem`], and
/// by the solvers, so one parsing or generation routine can feed any of
/// them.
pub trait AsDimacs: Sized {
    /// The clauses accepted so far, in arrival order.
    spec fn store(&self) -> Seq<Seq<i32>>;

    /// The consumer's internal invariant.
    spec fn dwf(&self) -> bool;

    /// Which clauses this consumer accepts; the rest are rejected with an
    /// error and leave the consumer unchanged.
    spec fn accepts(clause: Seq<i32>) -> bool;

    /// Adds a clause to the underlying structure.
    fn push_clause(&mut self, clause: Vec<i32>) -> (r: Result<(), ParserError>)
        requires
            old(self).dwf(),
        ensures
            final(self).dwf(),
            r is Ok <==> Self::accepts(clause@),
            r is Ok ==> final(self).store() == old(self).store().push(clause@),
            r is Err ==> final(self).store() == old(self).store(),
    ;

    /// Adds a comment line. Implementations can choose to store or ignore
    /// comments; either way the clause store is untouched.
    fn add_comment(&mut self, comment: String)
        requires
            old(self).dwf(),
        ensures
            final(self).dwf(),
            final(self).store() == old(self).store(),
    ;
}

/// The largest variable magnitude a clause mentions, 0 for the empty
/// clause. Unlike the solvers' clause scan this accepts any literal.
fn clause_max_mag(clause: &Vec<i32>) -> (mv: usize)
    ensures
        mv as int == max_var(clause@),
{
    let mut mv: usize = 0;
    let mut k: usize = 0;
    while k < clause.len()
        invariant
            k <= clause@.len(),
            mv as int == max_var(clause@.take(k as int)),
            mv <= 0x8000_0000,
        decreases clause@.len() - k,
    {
        let lit = clause[k];
        let v64: i64 = if lit >= 0 {
            lit as i64
        } else {
            -(lit as i64)
        };
        proof {
            assert(v64 as int == lit_var(clause@[k as int]));
        }
        let v = v64 as usize;
        if v > mv {
            mv = v;
        }
        proof {
            assert(clause@.take(k + 1).drop_last() =~= clause@.take(k as int));
            assert(clause@.take(k + 1).last() == clause@[k as int]);
        }
        k += 1;
    }
    proof {
        assert(clause@.take(clause@.len() as int) =~= clause@);
    }
    mv
}

impl AsDimacs for Vec<Vec<i32>> {
    open spec fn store(&self) -> Seq<Seq<i32>> {
        cls_view(self@)
    }

    open spec fn dwf(&self) -> bool {
        true
    }

    open spec fn accepts(clause: Seq<i32>) -> bool {
        true
    }

    fn push_clause(&mut self, clause: Vec<i32>) -> (r: Result<(), ParserError>) {
        let ghost old_store = cls_view(self@);
        let ghost c = clause@;
        self.push(clause);
        proof {
            assert(cls_view(self@) =~= old_store.push(c));
        }
        Ok(())
    }

    fn add_comment(&mut self, _comment: String) {
    }
}

impl AsDimacs for Problem {
    open spec fn store(&self) -> Seq<Seq<i32>> {
        cls_view(self.clauses@)
    }

    open spec fn dwf(&self) -> bool {
        self.num_clauses == self.clauses@.len()
    }

    open spec fn accepts(clause: Seq<i32>) -> bool {
        true
    }

    /// Accepts the clause, growing the derived variable count to the
    /// largest magnitude the clause mentions.
    fn push_clause(&mut self, clause: Vec<i32>) -> (r: Result<(), ParserError>)
        ensures
            final(self).num_vars == vstd::math::max(old(self).num_vars as int, max_var(clause@)),
            final(self).num_clauses == old(self).num_clauses + 1,
    {
        let ghost old_store = cls_view(self.clauses@);
        let ghost c = clause@;
        let mv = clause_max_mag(&clause);
        if mv > self.num_vars {
            self.num_vars = mv;
        }
        self.clauses.push(clause);
        self.num_clauses = self.clauses.len();
        proof {
            assert(cls_view(self.clauses@) =~= old_store.push(c));
        }
        Ok(())
    }

    fn add_comment(&mut self, _comment: String) {
    }
}

impl AsDimacs for MinisatSolver {
    open spec fn store(&self) -> Seq<Seq<i32>> {
        SatSolver::cls(self)
    }

    open spec fn dwf(&self) -> bool {
        SatSolver::wf(self)
    }

    open spec fn accepts(clause: Seq<i32>) -> bool {
        forall|k: int| 0 <= k < clause.len() ==> #[trigger] clause[k] != 0
    }

    /// Forwards the clause straight into the solver.
    fn push_clause(&mut self, clause: Vec<i32>) -> (r: Result<(), ParserError>) {
        match SatSolver::push_clause(self, clause.as_slice()) {
            Ok(()) => Ok(()),
            Err(e) => Err(ParserError::ClauseRejected(e.0)),
        }
    }

    fn add_comment(&mut self, _comment: String) {
    }
}

impl AsDimacs for PicoSATSolver {
    open spec fn store(&self) -> Seq<Seq<i32>> {
        SatSolver::cls(self)
    }

    open spec fn dwf(&self) -> bool {
        SatSolver::wf(self)
    }

    open spec fn accepts(clause: Seq<i32>) -> bool {
        forall|k: int| 0 <= k < clause.len() ==> #[trigger] clause[k] != 0
    }

    /// Forwards the clause straight into the solver.
    fn push_clause(&mut self, clause: Vec<i32>) -> (r: Result<(), ParserError>) {
        match SatSolver::push_clause(self, clause.as_slice()) {
            Ok(()) => Ok(()),
            Err(e) => Err(ParserError::ClauseRejected(e.0)),
        }
    }

    fn add_comment(&mut self, _comment: String) {
    }
}

} // verus!
