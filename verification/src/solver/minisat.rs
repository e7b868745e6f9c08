//! `MinisatSolver`: an incremental clause store over the complete bounded
//! search engine, presenting the uniform [`SatSolver`] surface.

use super::logic::assumps_sat;
use super::logic::asn_of;
use super::logic::clause_ok;
use super::logic::clause_sat;
use super::logic::clauses_ok;
use super::logic::cls_view;
use super::logic::formula_sat;
use super::logic::full_sel;
use super::logic::is_model_of;
use super::logic::lemma_clause_ok_of_max_var;
use super::logic::lemma_full_sel;
use super::logic::lemma_max_var_bounds;
use super::logic::lit_sat;
use super::logic::max_var;
use super::logic::satisfiable;
use super::logic::satisfiable_with;
use super::logic::sel_set;
use super::search::mk_fill;
use super::search::search;
use super::search::scan_clause;
use super::search::solve_store;
use super::search::SolveOutcome;
use super::search::MAX_SEARCH_VARS;
use super::RawStatus;
use super::SatSolver;
use crate::errors::SolverError;
use vstd::prelude::*;

verus! {

/// A solver in the MiniSat tradition: clauses are added one at a time and
/// the accumulated formula is re-decided on every solve call. The search is
/// complete up to [`MAX_SEARCH_VARS`] variables; beyond that budget a solve
/// reports `Unknown`.
#[derive(Debug)]
pub struct MinisatSolver {
    clauses: Vec<Vec<i32>>,
    num_vars: usize,
    last_model: Option<Vec<i32>>,
}

impl MinisatSolver {
    /// Creates an empty solver.
    pub fn new() -> (r: Self)
        ensures
            r.wf(),
            r.cls() == Seq::<Seq<i32>>::empty(),
            r.num_vars() == 0,
            r.stored_model() is None,
            r.infallible(),
    {
        let r = MinisatSolver { clauses: Vec::new(), num_vars: 0, last_model: None };
        proof {
            assert(r.cls() =~= Seq::<Seq<i32>>::empty());
        }
        r
    }
}

/// The clause store extended with one unit clause per assumption literal.
spec fn with_assumps(cls: Seq<Seq<i32>>, a: Seq<i32>) -> Seq<Seq<i32>> {
    cls + Seq::new(a.len(), |k: int| seq![a[k]])
}

/// A model of the extended store is a model of the clauses that also makes
/// every assumption true, and conversely.
proof fn lemma_with_assumps(f: spec_fn(int) -> bool, cls: Seq<Seq<i32>>, a: Seq<i32>)
    ensures
        formula_sat(f, with_assumps(cls, a)) == (formula_sat(f, cls) && assumps_sat(f, a)),
{
    let ext = with_assumps(cls, a);
    if formula_sat(f, ext) {
        assert forall|j: int| 0 <= j < cls.len() implies clause_sat(f, #[trigger] cls[j]) by {
            assert(ext[j] == cls[j]);
        }
        assert forall|k: int| 0 <= k < a.len() implies lit_sat(f, #[trigger] a[k]) by {
            assert(ext[cls.len() + k] =~= seq![a[k]]);
            assert(clause_sat(f, ext[cls.len() + k]));
            let k0 = choose|k0: int| 0 <= k0 < ext[cls.len() + k].len() && lit_sat(
                f,
                #[trigger] ext[cls.len() + k][k0],
            );
            assert(k0 == 0);
        }
    }
    if formula_sat(f, cls) && assumps_sat(f, a) {
        assert forall|j: int| 0 <= j < ext.len() implies clause_sat(f, #[trigger] ext[j]) by {
            if j < cls.len() {
                assert(ext[j] == cls[j]);
            } else {
                assert(ext[j] =~= seq![a[j - cls.len()]]);
                assert(lit_sat(f, ext[j][0]));
            }
        }
    }
}

impl MinisatSolver {
    /// The variable high-water mark: how many variables the engine knows.
    pub fn vars(&self) -> (r: usize)
        ensures
            r as int == self.num_vars(),
    {
        self.num_vars
    }

    /// Solves the accumulated clauses under assumption literals that hold
    /// for this call only, reporting the tri-state outcome. The two flags
    /// choose native simplification modes in engines that separate
    /// simplification from search; this complete engine needs no separate
    /// pass, so they have no effect. Assignments found under assumptions
    /// are not retained: `model` is for full solves.
    pub fn solve_limited(
        &mut self,
        assumps: &[i32],
        do_simp: bool,
        turn_off_simp: bool,
    ) -> (r: RawStatus)
        requires
            old(self).wf(),
            forall|k: int| 0 <= k < assumps@.len() ==> #[trigger] assumps@[k] != 0,
        ensures
            final(self).wf(),
            final(self).cls() == old(self).cls(),
            final(self).num_vars() == old(self).num_vars(),
            final(self).stored_model() is None,
            r == RawStatus::Satisfiable ==> satisfiable_with(old(self).cls(), assumps@),
            r == RawStatus::Unsatisfiable ==> !satisfiable_with(old(self).cls(), assumps@),
            r == RawStatus::Unknown ==> old(self).num_vars() > MAX_SEARCH_VARS || max_var(assumps@)
                > MAX_SEARCH_VARS,
    {
        let ghost cls = cls_view(self.clauses@);
        self.last_model = None;
        let mv = match scan_clause(assumps) {
            Some(mv) => mv,
            None => {
                return RawStatus::Unknown;
            },
        };
        let n_eff = if mv > self.num_vars {
            mv
        } else {
            self.num_vars
        };
        if n_eff > MAX_SEARCH_VARS {
            return RawStatus::Unknown;
        }
        // The assumptions become unit clauses of a throwaway extension of
        // the store, solved over the joint variable range.
        let mut ext: Vec<Vec<i32>> = Vec::new();
        let mut j: usize = 0;
        while j < self.clauses.len()
            invariant
                cls == cls_view(self.clauses@),
                j <= self.clauses@.len(),
                ext@.len() == j,
                forall|j2: int| 0 <= j2 < j ==> #[trigger] ext@[j2]@ == self.clauses@[j2]@,
            decreases self.clauses@.len() - j,
        {
            ext.push(vstd::slice::slice_to_vec(self.clauses[j].as_slice()));
            j += 1;
        }
        let total = self.clauses.len();
        let mut k: usize = 0;
        while k < assumps.len()
            invariant
                cls == cls_view(self.clauses@),
                k <= assumps@.len(),
                ext@.len() == total + k,
                total == self.clauses@.len(),
                forall|j2: int| 0 <= j2 < total ==> #[trigger] ext@[j2]@ == self.clauses@[j2]@,
                forall|k2: int|
                    0 <= k2 < k ==> #[trigger] ext@[total + k2]@ == seq![assumps@[k2]],
            decreases assumps@.len() - k,
        {
            let mut u: Vec<i32> = Vec::new();
            u.push(assumps[k]);
            proof {
                assert(u@ =~= seq![assumps@[k as int]]);
            }
            ext.push(u);
            k += 1;
        }
        proof {
            assert forall|j2: int|
                0 <= j2 < ext@.len() implies #[trigger] cls_view(ext@)[j2] == with_assumps(
                cls,
                assumps@,
            )[j2] by {
                if j2 < total {
                    assert(ext@[j2]@ == self.clauses@[j2]@);
                } else {
                    let k2 = j2 - total;
                    assert(ext@[total + k2]@ == seq![assumps@[k2]]);
                }
            }
            assert(cls_view(ext@) =~= with_assumps(cls, assumps@));
            lemma_max_var_bounds(assumps@);
            assert(clauses_ok(cls_view(ext@), n_eff as int)) by {
                assert forall|j2: int|
                    0 <= j2 < cls_view(ext@).len() implies clause_ok(
                    #[trigger] cls_view(ext@)[j2],
                    n_eff as int,
                ) by {
                    if j2 < total {
                        assert(clause_ok(cls[j2], self.num_vars as int));
                    } else {
                        assert(cls_view(ext@)[j2] =~= seq![assumps@[j2 - total]]);
                    }
                }
            }
        }
        let sel = mk_fill(ext.len(), true);
        proof {
            assert(sel_set(sel@) =~= full_sel(cls_view(ext@).len() as int));
        }
        match search(&ext, &sel, n_eff) {
            Some(a) => {
                proof {
                    let f = asn_of(a@);
                    assert(formula_sat(f, cls_view(ext@))) by {
                        assert forall|j2: int|
                            0 <= j2 < cls_view(ext@).len() implies clause_sat(
                            f,
                            #[trigger] cls_view(ext@)[j2],
                        ) by {
                            assert(full_sel(cls_view(ext@).len() as int).contains(j2));
                        }
                    }
                    lemma_with_assumps(f, cls, assumps@);
                }
                RawStatus::Satisfiable
            },
            None => {
                proof {
                    lemma_full_sel(cls_view(ext@));
                    if satisfiable_with(cls, assumps@) {
                        let f = choose|f: spec_fn(int) -> bool|
                            formula_sat(f, cls) && assumps_sat(f, assumps@);
                        lemma_with_assumps(f, cls, assumps@);
                        assert(satisfiable(cls_view(ext@)));
                    }
                }
                RawStatus::Unsatisfiable
            },
        }
    }

    /// Solves under assumptions and reports plain satisfiability; within
    /// the search budget, `false` means unsatisfiable under the
    /// assumptions.
    pub fn solve_assumps(
        &mut self,
        assumps: &[i32],
        do_simp: bool,
        turn_off_simp: bool,
    ) -> (r: bool)
        requires
            old(self).wf(),
            forall|k: int| 0 <= k < assumps@.len() ==> #[trigger] assumps@[k] != 0,
        ensures
            final(self).wf(),
            final(self).cls() == old(self).cls(),
            final(self).num_vars() == old(self).num_vars(),
            r ==> satisfiable_with(old(self).cls(), assumps@),
            !r && old(self).num_vars() <= MAX_SEARCH_VARS && max_var(assumps@) <= MAX_SEARCH_VARS
                ==> !satisfiable_with(old(self).cls(), assumps@),
    {
        let status = self.solve_limited(assumps, do_simp, turn_off_simp);
        status == RawStatus::Satisfiable
    }
}

impl Default for MinisatSolver {
    fn default() -> (r: Self)
        ensures
            r.wf(),
            r.cls() == Seq::<Seq<i32>>::empty(),
            r.num_vars() == 0,
            r.stored_model() is None,
            r.infallible(),
    {
        MinisatSolver::new()
    }
}

impl SatSolver for MinisatSolver {
    closed spec fn cls(&self) -> Seq<Seq<i32>> {
        cls_view(self.clauses@)
    }

    closed spec fn num_vars(&self) -> int {
        self.num_vars as int
    }

    closed spec fn stored_model(&self) -> Option<Seq<i32>> {
        match self.last_model {
            Some(m) => Some(m@),
            None => None,
        }
    }

    closed spec fn wf(&self) -> bool {
        &&& clauses_ok(cls_view(self.clauses@), self.num_vars as int)
        &&& self.num_vars <= 0x8000_0000
        &&& match self.last_model {
            Some(m) => is_model_of(m@, cls_view(self.clauses@), self.num_vars as int),
            None => true,
        }
    }

    open spec fn infallible(&self) -> bool {
        true
    }

    open spec fn solve_decisive(&self) -> bool {
        self.num_vars() <= MAX_SEARCH_VARS
    }

    fn push_clause(&mut self, clause: &[i32]) -> (r: Result<(), SolverError>) {
        let ghost old_cls = cls_view(self.clauses@);
        match scan_clause(clause) {
            None => Err(SolverError("clause contains the reserved literal 0")),
            Some(mv) => {
                if mv > self.num_vars {
                    self.num_vars = mv;
                }
                self.clauses.push(vstd::slice::slice_to_vec(clause));
                self.last_model = None;
                proof {
                    assert(cls_view(self.clauses@) =~= old_cls.push(clause@));
                    lemma_clause_ok_of_max_var(clause@, self.num_vars as int);
                    assert(clauses_ok(cls_view(self.clauses@), self.num_vars as int));
                }
                Ok(())
            },
        }
    }

    fn solve_sat(&mut self) -> (r: Result<RawStatus, SolverError>)
        ensures
            r == Ok::<RawStatus, SolverError>(RawStatus::Unknown) <==> !old(self).solve_decisive(),
    {
        let ghost cls = cls_view(self.clauses@);
        match solve_store(&self.clauses, self.num_vars) {
            SolveOutcome::Sat(m) => {
                self.last_model = Some(m);
                proof {
                    assert(self.stored_model() matches Some(sm) && is_model_of(
                        sm,
                        cls,
                        self.num_vars as int,
                    ));
                }
                Ok(RawStatus::Satisfiable)
            },
            SolveOutcome::Unsat => {
                self.last_model = None;
                Ok(RawStatus::Unsatisfiable)
            },
            SolveOutcome::Unknown => {
                self.last_model = None;
                Ok(RawStatus::Unknown)
            },
        }
    }

    fn model(&mut self) -> (r: Result<Vec<i32>, SolverError>) {
        match self.last_model.as_ref() {
            Some(m) => {
                assert(self.stored_model() == Some(m@));
                Ok(vstd::slice::slice_to_vec(m.as_slice()))
            },
            None => {
                assert(self.stored_model() is None);
                Err(SolverError("no model is available"))
            },
        }
    }
}

} // verus!
