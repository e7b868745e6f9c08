//! `PicoSATSolver`: the MUS-capable engine. Besides the uniform
//! [`SatSolver`] surface it implements [`MusSolver`]: a two-phase
//! minimal-unsatisfiable-subset extraction over the pushed clauses.
//!
//! Phase A approximates the core by repeated re-solving with
//! redundant-clause elision; phase B refines the survivors through
//! selector literals: every clause is guarded by a fresh variable, the
//! guards of the survivors are assumed, and the assumption set is
//! minimised. The bridge lemma [`lemma_selector_bridge`] ties satisfiability
//! of the guarded formula under assumptions back to satisfiability of the
//! selected original clauses, which is what makes the reported indices
//! provably minimal.

use super::logic::clause_ok;
use super::logic::clause_sat;
use super::logic::clauses_ok;
use super::logic::cls_view;
use super::logic::count_true;
use super::logic::formula_sat_sel;
use super::logic::idx_set;
use super::logic::is_model_of;
use super::logic::lemma_clause_ok_of_max_var;
use super::logic::lemma_clause_sat_agree;
use super::logic::lemma_count_flip;
use super::logic::lemma_count_true_bounds;
use super::logic::lemma_count_true_zero;
use super::logic::full_sel;
use super::logic::lemma_count_true_le;
use super::logic::lemma_full_sel;
use super::logic::lit_sat;
use super::logic::lit_var;
use super::logic::mus_result_ok;
use super::logic::satisfiable;
use super::logic::sel_set;
use super::logic::strictly_sorted;
use super::logic::sub_satisfiable;
use super::logic::unsel_set;
use super::search::count_true_vec;
use super::search::mk_fill;
use super::search::flip_vec;
use super::search::scan_clause;
use super::search::search;
use super::search::shrink_unsat_sel;
use super::search::solve_store;
use super::search::SolveOutcome;
use super::search::MAX_SEARCH_VARS;
use super::MusSolver;
use super::MusStatus;
use super::RawStatus;
use super::SatSolver;
use crate::errors::SolverError;
use vstd::prelude::*;

verus! {

/// The clause `c` guarded by the selector variable `svar`: it is enforced
/// only where the selector is true.
spec fn guard_clause(c: Seq<i32>, svar: int) -> Seq<i32> {
    seq![(-svar) as i32] + c
}

/// The selector formula of phase B over clause store `cls`: one guarded
/// clause per original clause, with selector variables numbered from
/// `base`, followed by one positive selector unit per clause.
spec fn phase_b_formula(cls: Seq<Seq<i32>>, base: int) -> Seq<Seq<i32>> {
    Seq::new(cls.len(), |i: int| guard_clause(cls[i], base + i)) + Seq::new(
        cls.len(),
        |i: int| seq![(base + i) as i32],
    )
}

/// The selection over the selector formula that enables every guarded
/// clause and exactly the assumption units marked in `s`.
spec fn phase_b_sel(s: Seq<bool>) -> Set<int> {
    Set::new(|i: int| 0 <= i < 2 * s.len() && (i < s.len() || s[i - s.len()]))
}

/// The selector formula is well formed up to the last selector variable.
proof fn lemma_phase_b_ok(cls: Seq<Seq<i32>>, base: int, n: int)
    requires
        clauses_ok(cls, n),
        0 <= n < base,
        base + cls.len() <= 0x7FFF_FFFF,
    ensures
        clauses_ok(phase_b_formula(cls, base), base + cls.len() - 1),
{
    let fb = phase_b_formula(cls, base);
    let len = cls.len() as int;
    let bound = base + len - 1;
    assert forall|j: int| 0 <= j < fb.len() implies clause_ok(#[trigger] fb[j], bound) by {
        if j < len {
            assert(fb[j] =~= guard_clause(cls[j], base + j));
            assert forall|k: int| 0 <= k < fb[j].len() implies #[trigger] fb[j][k] != 0 && lit_var(
                fb[j][k],
            ) <= bound by {
                if k == 0 {
                    assert(fb[j][0] == (-(base + j)) as i32);
                    assert(1 <= base + j <= 0x7FFF_FFFF);
                } else {
                    assert(fb[j][k] == cls[j][k - 1]);
                    assert(clause_ok(cls[j], n));
                }
            }
        } else {
            let i = j - len;
            assert(fb[j] =~= seq![(base + i) as i32]);
            assert(fb[j][0] == (base + i) as i32);
            assert(1 <= base + i <= 0x7FFF_FFFF);
        }
    }
}

/// The bridge between the two views of phase B: the selector formula with
/// the assumptions `s` is satisfiable exactly when the sub-formula of the
/// original clauses selected by `s` is.
proof fn lemma_selector_bridge(cls: Seq<Seq<i32>>, s: Seq<bool>, base: int, n: int)
    requires
        clauses_ok(cls, n),
        s.len() == cls.len(),
        0 <= n < base,
        base + cls.len() <= 0x7FFF_FFFF,
    ensures
        sub_satisfiable(phase_b_formula(cls, base), phase_b_sel(s)) == sub_satisfiable(
            cls,
            sel_set(s),
        ),
{
    let fb = phase_b_formula(cls, base);
    let len = cls.len() as int;
    if sub_satisfiable(cls, sel_set(s)) {
        let f = choose|f: spec_fn(int) -> bool| formula_sat_sel(f, cls, sel_set(s));
        let g = (|v: int|
            if v <= n {
                f(v)
            } else {
                base <= v < base + len && s[v - base]
            });
        assert forall|j: int| 0 <= j < fb.len() && phase_b_sel(s).contains(j) implies clause_sat(
            g,
            #[trigger] fb[j],
        ) by {
            if j < len {
                let svar = base + j;
                assert(fb[j] =~= guard_clause(cls[j], svar));
                if s[j] {
                    assert(sel_set(s).contains(j));
                    assert(clause_sat(f, cls[j]));
                    lemma_clause_sat_agree(f, g, cls[j], n);
                    let k = choose|k: int| 0 <= k < cls[j].len() && lit_sat(g, #[trigger] cls[j][k]);
                    assert(fb[j][k + 1] == cls[j][k]);
                    assert(lit_sat(g, fb[j][k + 1]));
                    assert(clause_sat(g, fb[j]));
                } else {
                    let glit = (-svar) as i32;
                    assert(fb[j][0] == glit);
                    assert(glit as int == -svar);
                    assert(!g(svar));
                    assert(lit_sat(g, fb[j][0]));
                    assert(clause_sat(g, fb[j]));
                }
            } else {
                let i = j - len;
                assert(s[i]);
                assert(fb[j] =~= seq![(base + i) as i32]);
                let ulit = (base + i) as i32;
                assert(ulit as int == base + i);
                assert(g(base + i));
                assert(lit_sat(g, fb[j][0]));
                assert(clause_sat(g, fb[j]));
            }
        }
        assert(formula_sat_sel(g, fb, phase_b_sel(s)));
        assert(sub_satisfiable(fb, phase_b_sel(s)));
    }
    if sub_satisfiable(fb, phase_b_sel(s)) {
        let g = choose|g: spec_fn(int) -> bool| formula_sat_sel(g, fb, phase_b_sel(s));
        assert forall|j: int| 0 <= j < cls.len() && sel_set(s).contains(j) implies clause_sat(
            g,
            #[trigger] cls[j],
        ) by {
            let u = len + j;
            assert(phase_b_sel(s).contains(u));
            assert(clause_sat(g, fb[u]));
            assert(fb[u] =~= seq![(base + j) as i32]);
            let k = choose|k: int| 0 <= k < fb[u].len() && lit_sat(g, #[trigger] fb[u][k]);
            assert(k == 0);
            assert((base + j) as i32 as int == base + j);
            assert(g(base + j));
            assert(phase_b_sel(s).contains(j));
            assert(clause_sat(g, fb[j]));
            assert(fb[j] =~= guard_clause(cls[j], base + j));
            let p = choose|p: int| 0 <= p < fb[j].len() && lit_sat(g, #[trigger] fb[j][p]);
            if p == 0 {
                assert(fb[j][0] == (-(base + j)) as i32);
                assert((-(base + j)) as i32 as int == -(base + j));
                assert(!g(base + j));
                assert(false);
            } else {
                assert(fb[j][p] == cls[j][p - 1]);
                assert(lit_sat(g, cls[j][p - 1]));
                assert(clause_sat(g, cls[j]));
            }
        }
        assert(formula_sat_sel(g, cls, sel_set(s)));
        assert(sub_satisfiable(cls, sel_set(s)));
    }
}

/// Builds the selector formula of phase B as an executable clause store.
fn build_phase_b(cs: &Vec<Vec<i32>>, base: usize) -> (fb: Vec<Vec<i32>>)
    requires
        base >= 1,
        base + cs@.len() <= 0x7FFF_FFFF,
    ensures
        cls_view(fb@) == phase_b_formula(cls_view(cs@), base as int),
        fb@.len() == 2 * cs@.len(),
{
    let len = cs.len();
    let mut fb: Vec<Vec<i32>> = Vec::new();
    let mut i: usize = 0;
    while i < len
        invariant
            i <= len,
            len == cs@.len(),
            base >= 1,
            base + len <= 0x7FFF_FFFF,
            fb@.len() == i,
            forall|j: int|
                0 <= j < i ==> #[trigger] fb@[j]@ == guard_clause(
                    cls_view(cs@)[j],
                    base + j,
                ),
        decreases len - i,
    {
        let svar = (base + i) as i32;
        let mut g: Vec<i32> = Vec::new();
        g.push(-svar);
        let mut k: usize = 0;
        while k < cs[i].len()
            invariant
                i < len,
                len == cs@.len(),
                base >= 1,
                base + len <= 0x7FFF_FFFF,
                svar as int == base + i,
                k <= cs@[i as int]@.len(),
                g@ == seq![(-(base + i)) as i32] + cs@[i as int]@.take(k as int),
            decreases cs@[i as int]@.len() - k,
        {
            let lit = cs[i][k];
            g.push(lit);
            proof {
                assert(g@ =~= seq![(-(base + i)) as i32] + cs@[i as int]@.take(k + 1));
            }
            k += 1;
        }
        proof {
            assert(cs@[i as int]@.take(cs@[i as int]@.len() as int) =~= cs@[i as int]@);
            assert(g@ =~= guard_clause(cls_view(cs@)[i as int], base + i));
        }
        fb.push(g);
        i += 1;
    }
    let mut i2: usize = 0;
    while i2 < len
        invariant
            i2 <= len,
            len == cs@.len(),
            base >= 1,
            base + len <= 0x7FFF_FFFF,
            fb@.len() == len + i2,
            forall|j: int|
                0 <= j < len ==> #[trigger] fb@[j]@ == guard_clause(
                    cls_view(cs@)[j],
                    base + j,
                ),
            forall|j: int|
                len <= j < len + i2 ==> #[trigger] fb@[j]@ == seq![((base + j - len) as int) as i32],
        decreases len - i2,
    {
        let ulit = (base + i2) as i32;
        let mut u: Vec<i32> = Vec::new();
        u.push(ulit);
        proof {
            assert(u@ =~= seq![((base + i2) as int) as i32]);
        }
        fb.push(u);
        i2 += 1;
    }
    proof {
        let spec_fb = phase_b_formula(cls_view(cs@), base as int);
        assert forall|j: int| 0 <= j < fb@.len() implies #[trigger] cls_view(fb@)[j] == spec_fb[j] by {
            if j < len {
                assert(spec_fb[j] == guard_clause(cls_view(cs@)[j], base + j));
            } else {
                assert(spec_fb[j] == seq![((base as int) + (j - len)) as i32]);
                assert(fb@[j]@ == seq![((base + j - len) as int) as i32]);
            }
        }
        assert(cls_view(fb@) =~= spec_fb);
    }
    fb
}

/// A MUS-capable solver in the PicoSAT tradition: an incremental clause
/// store, the uniform solving surface, and native core-extraction
/// facilities built on the complete bounded search.
#[derive(Debug)]
pub struct PicoSATSolver {
    clauses: Vec<Vec<i32>>,
    vars: usize,
    last_model: Option<Vec<i32>>,
}

impl PicoSATSolver {
    /// Creates an empty solver.
    pub fn new() -> (r: Self)
        ensures
            r.wf(),
            r.mus_wf(),
            r.cls() == Seq::<Seq<i32>>::empty(),
            r.mus_cls() == Seq::<Seq<i32>>::empty(),
            r.num_vars() == 0,
            r.mus_num_vars() == 0,
            r.stored_model() is None,
            r.infallible(),
            r.mus_infallible(),
    {
        let r = PicoSATSolver { clauses: Vec::new(), vars: 0, last_model: None };
        proof {
            assert(r.cls() =~= Seq::<Seq<i32>>::empty());
        }
        r
    }

    /// Phase A of the extraction: iterative core approximation. Each round
    /// re-solves the clauses not yet marked redundant — the search engine
    /// starts clean on every call, which plays the role of the per-round
    /// engine reinitialisation — and, when the answer is unsatisfiable,
    /// asks for each surviving clause whether it belongs to a core of the
    /// round's formula, marking the rest redundant. Rounds stop early once
    /// `max_non_red_rounds` consecutive rounds past `min_rounds` shrank the
    /// survivor set by less than 10 clauses and less than two percent.
    fn core_extraction(
        &self,
        max_rounds: usize,
        min_rounds: usize,
        max_non_red_rounds: usize,
        redundant: &mut Vec<bool>,
    ) -> (r: RawStatus)
        requires
            clauses_ok(cls_view(self.clauses@), self.vars as int),
            self.vars <= MAX_SEARCH_VARS,
            self.clauses@.len() <= MAX_SEARCH_VARS,
            old(redundant)@.len() == self.clauses@.len(),
            forall|i: int| 0 <= i < old(redundant)@.len() ==> !old(redundant)@[i],
            1 <= max_rounds <= 0xFFFF,
        ensures
            final(redundant)@.len() == self.clauses@.len(),
            r != RawStatus::Unknown,
            r == RawStatus::Satisfiable ==> satisfiable(cls_view(self.clauses@)),
            r == RawStatus::Unsatisfiable ==> !sub_satisfiable(
                cls_view(self.clauses@),
                unsel_set(final(redundant)@),
            ),
    {
        let ghost cls = cls_view(self.clauses@);
        let len = self.clauses.len();
        let mut non_red_count: usize = 0;
        let mut n_rem: usize = len;
        let mut round: usize = 1;
        let mut stop: bool = false;
        let ghost mut proven: bool = false;
        proof {
            lemma_count_true_zero(redundant@);
        }
        while round <= max_rounds && !stop
            invariant
                cls == cls_view(self.clauses@),
                clauses_ok(cls, self.vars as int),
                self.vars <= MAX_SEARCH_VARS,
                len == self.clauses@.len(),
                len <= MAX_SEARCH_VARS,
                redundant@.len() == len,
                1 <= round <= max_rounds + 1,
                max_rounds <= 0xFFFF,
                non_red_count <= round,
                proven ==> !sub_satisfiable(cls, unsel_set(redundant@)),
                !proven ==> (forall|i: int| 0 <= i < len ==> !redundant@[i]),
                round > 1 ==> proven,
                stop ==> proven,
                n_rem as int == len - count_true(redundant@),
            decreases max_rounds + 1 - round,
        {
            let sel = flip_vec(redundant);
            let ghost sel0 = sel@;
            proof {
                assert(sel_set(sel0) =~= unsel_set(redundant@));
            }
            match search(&self.clauses, &sel, self.vars) {
                Some(_) => {
                    // Satisfiable is possible only before anything was
                    // marked redundant, so the whole formula is satisfiable.
                    proof {
                        if !proven {
                            assert(sel_set(sel0) =~= full_sel(cls.len() as int));
                            lemma_full_sel(cls);
                        }
                    }
                    return RawStatus::Satisfiable;
                },
                None => {},
            }
            // The core query: a locally minimal unsatisfiable subset of the
            // clauses solved this round. Everything outside it is redundant.
            let core = shrink_unsat_sel(&self.clauses, sel, 0, self.vars);
            let new_red = flip_vec(&core);
            proof {
                lemma_count_flip(redundant@, sel0);
                lemma_count_true_le(sel0, core@);
                lemma_count_flip(core@, new_red@);
                lemma_count_true_bounds(core@);
            }
            *redundant = new_red;
            proof {
                proven = true;
                assert(unsel_set(redundant@) =~= sel_set(core@));
            }
            let old_n = n_rem;
            let new_rem = count_true_vec(&core);
            n_rem = new_rem;
            // Convergence bookkeeping: count consecutive rounds with only a
            // small reduction; an empty previous round counts as one.
            if round >= min_rounds {
                let red = old_n - new_rem;
                let small: bool = if old_n == 0 {
                    true
                } else {
                    red < 10 && (100 * red + 99) / old_n < 2
                };
                if small {
                    non_red_count += 1;
                    if non_red_count > max_non_red_rounds {
                        stop = true;
                    }
                } else {
                    non_red_count = 0;
                }
            }
            round += 1;
        }
        RawStatus::Unsatisfiable
    }
}

impl Default for PicoSATSolver {
    fn default() -> (r: Self)
        ensures
            r.wf(),
            r.mus_wf(),
            r.cls() == Seq::<Seq<i32>>::empty(),
            r.mus_cls() == Seq::<Seq<i32>>::empty(),
            r.num_vars() == 0,
            r.mus_num_vars() == 0,
            r.stored_model() is None,
            r.infallible(),
            r.mus_infallible(),
    {
        PicoSATSolver::new()
    }
}

impl SatSolver for PicoSATSolver {
    closed spec fn cls(&self) -> Seq<Seq<i32>> {
        cls_view(self.clauses@)
    }

    closed spec fn num_vars(&self) -> int {
        self.vars as int
    }

    closed spec fn stored_model(&self) -> Option<Seq<i32>> {
        match self.last_model {
            Some(m) => Some(m@),
            None => None,
        }
    }

    closed spec fn wf(&self) -> bool {
        &&& clauses_ok(cls_view(self.clauses@), self.vars as int)
        &&& self.vars <= 0x8000_0000
        &&& match self.last_model {
            Some(m) => is_model_of(m@, cls_view(self.clauses@), self.vars as int),
            None => true,
        }
    }

    open spec fn infallible(&self) -> bool {
        true
    }

    open spec fn solve_decisive(&self) -> bool {
        self.num_vars() <= MAX_SEARCH_VARS
    }

    fn push_clause(&mut self, clause: &[i32]) -> (r: Result<(), SolverError>) {
        let ghost old_cls = cls_view(self.clauses@);
        match scan_clause(clause) {
            None => Err(SolverError("clause contains the reserved literal 0")),
            Some(mv) => {
                if mv > self.vars {
                    self.vars = mv;
                }
                self.clauses.push(vstd::slice::slice_to_vec(clause));
                self.last_model = None;
                proof {
                    assert(cls_view(self.clauses@) =~= old_cls.push(clause@));
                    lemma_clause_ok_of_max_var(clause@, self.vars as int);
                    assert(clauses_ok(cls_view(self.clauses@), self.vars as int));
                }
                Ok(())
            },
        }
    }

    fn solve_sat(&mut self) -> (r: Result<RawStatus, SolverError>)
        ensures
            r == Ok::<RawStatus, SolverError>(RawStatus::Unknown) <==> !old(self).solve_decisive(),
    {
        let ghost cls = cls_view(self.clauses@);
        match solve_store(&self.clauses, self.vars) {
            SolveOutcome::Sat(m) => {
                self.last_model = Some(m);
                proof {
                    assert(self.stored_model() matches Some(sm) && is_model_of(
                        sm,
                        cls,
                        self.vars as int,
                    ));
                }
                Ok(RawStatus::Satisfiable)
            },
            SolveOutcome::Unsat => {
                self.last_model = None;
                Ok(RawStatus::Unsatisfiable)
            },
            SolveOutcome::Unknown => {
                self.last_model = None;
                Ok(RawStatus::Unknown)
            },
        }
    }

    fn model(&mut self) -> (r: Result<Vec<i32>, SolverError>) {
        match self.last_model.as_ref() {
            Some(m) => {
                assert(self.stored_model() == Some(m@));
                Ok(vstd::slice::slice_to_vec(m.as_slice()))
            },
            None => {
                assert(self.stored_model() is None);
                Err(SolverError("no model is available"))
            },
        }
    }
}

impl MusSolver for PicoSATSolver {
    closed spec fn mus_cls(&self) -> Seq<Seq<i32>> {
        cls_view(self.clauses@)
    }

    closed spec fn mus_num_vars(&self) -> int {
        self.vars as int
    }

    closed spec fn mus_wf(&self) -> bool {
        self.wf()
    }

    open spec fn mus_infallible(&self) -> bool {
        true
    }

    open spec fn mus_decisive(&self) -> bool {
        self.mus_num_vars() + self.mus_cls().len() <= MAX_SEARCH_VARS
    }

    fn push_clause(&mut self, clause: &[i32]) -> (r: Result<(), SolverError>) {
        SatSolver::push_clause(self, clause)
    }

    fn solve_mus(&mut self) -> (r: Result<MusStatus, SolverError>)
        ensures
            r == Ok::<MusStatus, SolverError>(MusStatus::Unknown) <==> !old(self).mus_decisive(),
    {
        let ghost cls = cls_view(self.clauses@);
        let len = self.clauses.len();
        let n = self.vars;
        // The extraction solves over the original variables plus one
        // selector per clause; beyond the search budget the answer is
        // unknown.
        if n > MAX_SEARCH_VARS || len > MAX_SEARCH_VARS || n + len > MAX_SEARCH_VARS {
            return Ok(MusStatus::Unknown);
        }
        // Phase A: iterative core approximation.
        let mut redundant: Vec<bool> = mk_fill(len, false);
        let status = self.core_extraction(100, 3, 3, &mut redundant);
        if status == RawStatus::Satisfiable {
            return Ok(MusStatus::Satisfiable);
        }
        let ghost surv = unsel_set(redundant@);
        proof {
            assert(!sub_satisfiable(cls, surv));
        }
        // Phase B: selector-literal refinement of the surviving clauses.
        // Selector variables are numbered from just above the variable
        // high-water mark, one per clause at its own index.
        let base = n + 1;
        let fb = build_phase_b(&self.clauses, base);
        let nb = n + len;
        let survivors = flip_vec(&redundant);
        let ghost s0 = survivors@;
        let mut sel: Vec<bool> = mk_fill(len, true);
        let mut i: usize = 0;
        while i < len
            invariant
                i <= len,
                survivors@.len() == len,
                sel@.len() == len + i,
                forall|j: int| 0 <= j < len ==> #[trigger] sel@[j],
                forall|j: int| len <= j < len + i ==> #[trigger] sel@[j] == survivors@[j - len],
            decreases len - i,
        {
            sel.push(survivors[i]);
            i += 1;
        }
        proof {
            assert(sel_set(sel@) =~= phase_b_sel(s0));
            assert(sel_set(s0) =~= surv);
            lemma_phase_b_ok(cls, base as int, n as int);
            assert(clauses_ok(cls_view(fb@), nb as int));
            lemma_selector_bridge(cls, s0, base as int, n as int);
            assert(!sub_satisfiable(cls_view(fb@), sel_set(sel@)));
        }
        // Phase A proved the survivors jointly contradictory, and the
        // bridge lemma carries that over to the selector formula, so the
        // assumption solve of this phase can never answer satisfiable; the
        // extraction therefore moves straight to minimising the assumption
        // set. Only the assumption units are up for removal: the guarded
        // clauses stay enforced throughout.
        let min_sel = shrink_unsat_sel(&fb, sel, len, nb);
        let ghost sfin = min_sel@.subrange(len as int, 2 * len as int);
        // Collect the retained original indices, in ascending order.
        let mut idx: Vec<usize> = Vec::new();
        let mut i2: usize = 0;
        while i2 < len
            invariant
                i2 <= len,
                len <= MAX_SEARCH_VARS,
                min_sel@.len() == 2 * len,
                forall|k: int| 0 <= k < idx@.len() ==> #[trigger] idx@[k] < i2,
                strictly_sorted(idx@),
                forall|j: int|
                    0 <= j < i2 ==> ((exists|k: int|
                        0 <= k < idx@.len() && #[trigger] idx@[k] == j) <==> #[trigger] min_sel@[
                        len + j
                    ]),
            decreases len - i2,
        {
            let ghost idx0 = idx@;
            if min_sel[len + i2] {
                idx.push(i2);
                proof {
                    assert(idx@[idx@.len() - 1] == i2);
                    assert forall|j: int|
                        0 <= j < i2 + 1 implies ((exists|k: int|
                        0 <= k < idx@.len() && #[trigger] idx@[k] == j) <==> #[trigger] min_sel@[
                        len + j
                    ]) by {
                        if j < i2 {
                            assert forall|k: int|
                                0 <= k < idx@.len() && #[trigger] idx@[k] == j implies k
                                < idx0.len() by {
                                if k == idx@.len() - 1 {
                                    assert(idx@[k] == i2);
                                }
                            }
                            assert forall|k: int|
                                0 <= k < idx0.len() && #[trigger] idx0[k] == j implies idx@[k]
                                == j by {}
                        } else {
                            assert(idx@[idx@.len() - 1] == j);
                        }
                    }
                }
            } else {
                proof {
                    assert forall|j: int|
                        0 <= j < i2 + 1 implies ((exists|k: int|
                        0 <= k < idx@.len() && #[trigger] idx@[k] == j) <==> #[trigger] min_sel@[
                        len + j
                    ]) by {
                        if j == i2 {
                            assert forall|k: int|
                                0 <= k < idx@.len() implies #[trigger] idx@[k] != j by {}
                        }
                    }
                }
            }
            i2 += 1;
        }
        proof {
            assert(sel_set(min_sel@) =~= phase_b_sel(sfin));
            lemma_selector_bridge(cls, sfin, base as int, n as int);
            assert forall|v: int|
                idx_set(idx@).contains(v) == sel_set(sfin).contains(v) by {
                if 0 <= v < len {
                    assert(sfin[v] == min_sel@[len + v]);
                } else {
                    if idx_set(idx@).contains(v) {
                        let k = choose|k: int| 0 <= k < idx@.len() && #[trigger] idx@[k] == v;
                        assert(idx@[k] < len);
                    }
                }
            }
            assert(idx_set(idx@) =~= sel_set(sfin));
            assert(!sub_satisfiable(cls, idx_set(idx@)));
            assert forall|k: int| 0 <= k < idx@.len() implies sub_satisfiable(
                cls,
                idx_set(idx@).remove(#[trigger] idx@[k] as int),
            ) by {
                let j = idx@[k] as int;
                assert(min_sel@[len + j]);
                assert(sub_satisfiable(cls_view(fb@), sel_set(min_sel@).remove(len + j)));
                let s2 = sfin.update(j, false);
                assert(sel_set(min_sel@).remove(len + j) =~= phase_b_sel(s2));
                lemma_selector_bridge(cls, s2, base as int, n as int);
                assert(sel_set(s2) =~= idx_set(idx@).remove(j));
            }
            assert(mus_result_ok(idx@, cls));
        }
        Ok(MusStatus::Unsatisfiable(idx))
    }
}

} // verus!
