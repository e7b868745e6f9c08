//! A complete bounded search engine over clause selections.
//!
//! `search` decides satisfiability of the sub-formula picked out by a
//! selection vector, by exhausting every assignment of the variables
//! `1..=n`. It is the decision procedure that every solver in this crate and
//! the MUS extractor are built on; its contracts tie the answers to the
//! propositional model of [`crate::solver::logic`].

use super::logic::agree_below;
use super::logic::asn_of;
use super::logic::clause_sat;
use super::logic::clauses_ok;
use super::logic::cls_view;
use super::logic::count_true;
use super::logic::formula_sat;
use super::logic::formula_sat_sel;
use super::logic::full_sel;
use super::logic::is_model_of;
use super::logic::lemma_count_true_bounds;
use super::logic::lemma_full_sel;
use super::logic::model_asn;
use super::logic::satisfiable;
use super::logic::lemma_formula_sat_agree;
use super::logic::lemma_no_ext_empty;
use super::logic::lemma_sub_sat_subset;
use super::logic::lit_sat;
use super::logic::lemma_max_var_bounds;
use super::logic::lit_var;
use super::logic::max_var;
use super::logic::model_form;
use super::logic::no_ext_model;
use super::logic::sel_set;
use super::logic::sub_satisfiable;
use vstd::prelude::*;

verus! {

/// Whether the assignment in `a` makes some literal of `c` true.
pub(crate) fn clause_check(a: &Vec<bool>, c: &Vec<i32>) -> (r: bool)
    requires
        a@.len() <= 0x7FFF_FFFF,
    ensures
        r == clause_sat(asn_of(a@), c@),
{
    let mut k: usize = 0;
    while k < c.len()
        invariant
            k <= c.len(),
            a@.len() <= 0x7FFF_FFFF,
            forall|k2: int| 0 <= k2 < k ==> !lit_sat(asn_of(a@), #[trigger] c@[k2]),
        decreases c.len() - k,
    {
        let lit = c[k];
        let hit: bool = if lit > 0 {
            let v = lit as usize;
            v <= a.len() && a[v - 1]
        } else {
            let v64: i64 = -(lit as i64);
            proof {
                assert(v64 as int == lit_var(lit));
            }
            if 1 <= v64 && v64 <= a.len() as i64 {
                let v = v64 as usize;
                !a[v - 1]
            } else {
                true
            }
        };
        assert(hit == lit_sat(asn_of(a@), c@[k as int]));
        if hit {
            return true;
        }
        k += 1;
    }
    false
}

/// Whether the assignment in `a` satisfies every selected clause.
pub(crate) fn formula_check(cs: &Vec<Vec<i32>>, sel: &Vec<bool>, a: &Vec<bool>) -> (r: bool)
    requires
        sel@.len() == cs@.len(),
        a@.len() <= 0x7FFF_FFFF,
    ensures
        r == formula_sat_sel(asn_of(a@), cls_view(cs@), sel_set(sel@)),
{
    let mut j: usize = 0;
    while j < cs.len()
        invariant
            j <= cs.len(),
            sel@.len() == cs@.len(),
            a@.len() <= 0x7FFF_FFFF,
            forall|j2: int|
                0 <= j2 < j && sel_set(sel@).contains(j2) ==> clause_sat(
                    asn_of(a@),
                    #[trigger] cls_view(cs@)[j2],
                ),
        decreases cs.len() - j,
    {
        if sel[j] {
            if !clause_check(a, &cs[j]) {
                assert(!clause_sat(asn_of(a@), cls_view(cs@)[j as int]));
                return false;
            }
        }
        j += 1;
    }
    true
}

/// The variable budget of the exhaustive engine: a solve call over more
/// variables than this answers `Unknown` instead of searching.
pub const MAX_SEARCH_VARS: usize = 20;

/// Scans a clause: rejects it when it contains the reserved literal 0,
/// otherwise reports the largest variable the clause mentions.
pub(crate) fn scan_clause(clause: &[i32]) -> (r: Option<usize>)
    ensures
        r is Some <==> (forall|k: int| 0 <= k < clause@.len() ==> #[trigger] clause@[k] != 0),
        r matches Some(mv) ==> mv as int == max_var(clause@) && mv <= 0x8000_0000,
{
    let mut mv: usize = 0;
    let mut k: usize = 0;
    proof {
        lemma_max_var_bounds(clause@);
    }
    while k < clause.len()
        invariant
            k <= clause@.len(),
            mv as int == max_var(clause@.take(k as int)),
            mv <= 0x8000_0000,
            forall|k2: int| 0 <= k2 < k ==> #[trigger] clause@[k2] != 0,
        decreases clause@.len() - k,
    {
        let lit = clause[k];
        if lit == 0 {
            return None;
        }
        let v64: i64 = if lit > 0 {
            lit as i64
        } else {
            -(lit as i64)
        };
        proof {
            assert(v64 as int == lit_var(clause@[k as int]));
        }
        let v = v64 as usize;
        if v > mv {
            mv = v;
        }
        proof {
            assert(clause@.take(k + 1).drop_last() =~= clause@.take(k as int));
            assert(clause@.take(k + 1).last() == clause@[k as int]);
        }
        k += 1;
    }
    proof {
        assert(clause@.take(clause@.len() as int) =~= clause@);
    }
    Some(mv)
}

/// A selection vector of `len` copies of `val`.
pub(crate) fn mk_fill(len: usize, val: bool) -> (r: Vec<bool>)
    ensures
        r@.len() == len,
        forall|i: int| 0 <= i < len ==> #[trigger] r@[i] == val,
{
    let mut r: Vec<bool> = Vec::new();
    let mut k: usize = 0;
    while k < len
        invariant
            k <= len,
            r@.len() == k,
            forall|i: int| 0 <= i < k ==> #[trigger] r@[i] == val,
        decreases len - k,
    {
        r.push(val);
        k += 1;
    }
    r
}

/// Turns a satisfying boolean assignment into a model of signed literals,
/// one entry per variable in order.
pub(crate) fn model_from_assignment(a: &Vec<bool>) -> (m: Vec<i32>)
    requires
        a@.len() < 0x7FFF_FFFF,
    ensures
        model_form(m@, a@.len() as int),
        forall|i: int| 0 <= i < a@.len() ==> (#[trigger] m@[i] > 0 <==> a@[i]),
{
    let mut m: Vec<i32> = Vec::new();
    let mut v: usize = 0;
    while v < a.len()
        invariant
            v <= a@.len(),
            a@.len() < 0x7FFF_FFFF,
            m@.len() == v,
            forall|i: int|
                0 <= i < v ==> (#[trigger] m@[i] == i + 1 || m@[i] == -(i + 1)) && (m@[i] > 0
                    <==> a@[i]),
        decreases a@.len() - v,
    {
        let lit = (v + 1) as i32;
        if a[v] {
            m.push(lit);
        } else {
            m.push(-lit);
        }
        v += 1;
    }
    m
}

/// The outcome of one full solve over a clause store.
pub(crate) enum SolveOutcome {
    Sat(Vec<i32>),
    Unsat,
    Unknown,
}

/// Decides the whole clause store over `num_vars` variables: a complete
/// search within the [`MAX_SEARCH_VARS`] budget, `Unknown` beyond it. A
/// satisfiable answer comes with a well-formed model of every clause.
pub(crate) fn solve_store(cs: &Vec<Vec<i32>>, num_vars: usize) -> (r: SolveOutcome)
    requires
        clauses_ok(cls_view(cs@), num_vars as int),
    ensures
        r matches SolveOutcome::Sat(m) ==> is_model_of(m@, cls_view(cs@), num_vars as int)
            && satisfiable(cls_view(cs@)),
        r is Unsat ==> !satisfiable(cls_view(cs@)),
        r is Unknown <==> num_vars > MAX_SEARCH_VARS,
{
    let ghost cls = cls_view(cs@);
    if num_vars > MAX_SEARCH_VARS {
        return SolveOutcome::Unknown;
    }
    let sel = mk_fill(cs.len(), true);
    proof {
        assert(sel_set(sel@) =~= full_sel(cls.len() as int));
    }
    match search(cs, &sel, num_vars) {
        Some(a) => {
            let m = model_from_assignment(&a);
            proof {
                assert(agree_below(model_asn(m@), asn_of(a@), num_vars as int));
                lemma_formula_sat_agree(
                    model_asn(m@),
                    asn_of(a@),
                    cls,
                    full_sel(cls.len() as int),
                    num_vars as int,
                );
                assert(formula_sat(model_asn(m@), cls)) by {
                    assert(formula_sat_sel(model_asn(m@), cls, full_sel(cls.len() as int)));
                    assert forall|j: int| 0 <= j < cls.len() implies clause_sat(
                        model_asn(m@),
                        #[trigger] cls[j],
                    ) by {
                        assert(full_sel(cls.len() as int).contains(j));
                    }
                }
                assert(formula_sat(asn_of(a@), cls)) by {
                    assert forall|j: int| 0 <= j < cls.len() implies clause_sat(
                        asn_of(a@),
                        #[trigger] cls[j],
                    ) by {
                        assert(full_sel(cls.len() as int).contains(j));
                    }
                }
                assert(satisfiable(cls));
            }
            SolveOutcome::Sat(m)
        },
        None => {
            proof {
                lemma_full_sel(cls);
            }
            SolveOutcome::Unsat
        },
    }
}

/// The pointwise complement of a selection vector.
pub(crate) fn flip_vec(v: &Vec<bool>) -> (r: Vec<bool>)
    ensures
        r@.len() == v@.len(),
        forall|i: int| 0 <= i < v@.len() ==> #[trigger] r@[i] == !v@[i],
{
    let mut r: Vec<bool> = Vec::new();
    let mut k: usize = 0;
    while k < v.len()
        invariant
            k <= v@.len(),
            r@.len() == k,
            forall|i: int| 0 <= i < k ==> #[trigger] r@[i] == !v@[i],
        decreases v@.len() - k,
    {
        r.push(!v[k]);
        k += 1;
    }
    r
}

/// Counts the true entries of a selection vector.
pub(crate) fn count_true_vec(v: &Vec<bool>) -> (r: usize)
    ensures
        r as int == count_true(v@),
{
    let mut cnt: usize = 0;
    let mut k: usize = 0;
    proof {
        lemma_count_true_bounds(v@);
    }
    while k < v.len()
        invariant
            k <= v@.len(),
            cnt as int == count_true(v@.take(k as int)),
            cnt <= k,
        decreases v@.len() - k,
    {
        proof {
            assert(v@.take(k + 1).drop_last() =~= v@.take(k as int));
            assert(v@.take(k + 1).last() == v@[k as int]);
            lemma_count_true_bounds(v@.take(k as int));
        }
        if v[k] {
            cnt += 1;
        }
        k += 1;
    }
    proof {
        assert(v@.take(v@.len() as int) =~= v@);
    }
    cnt
}


/// Exhausts every extension of the partial assignment `a` to `n` variables,
/// looking for one that satisfies the selected sub-formula.
fn search_rec(cs: &Vec<Vec<i32>>, sel: &Vec<bool>, a: &mut Vec<bool>, n: usize) -> (r: Option<
    Vec<bool>,
>)
    requires
        sel@.len() == cs@.len(),
        n <= 0x7FFF_FFFF,
        old(a)@.len() <= n,
        clauses_ok(cls_view(cs@), n as int),
    ensures
        final(a)@ == old(a)@,
        match r {
            Some(m) => m@.len() == n && formula_sat_sel(
                asn_of(m@),
                cls_view(cs@),
                sel_set(sel@),
            ),
            None => no_ext_model(cls_view(cs@), sel_set(sel@), old(a)@),
        },
    decreases n - a.len(),
{
    let ghost cls = cls_view(cs@);
    let ghost s = sel_set(sel@);
    if a.len() == n {
        if formula_check(cs, sel, a) {
            Some(a.clone())
        } else {
            proof {
                assert forall|f: spec_fn(int) -> bool|
                    agree_below(f, asn_of(a@), a@.len() as int) implies !formula_sat_sel(
                    f,
                    cls,
                    s,
                ) by {
                    lemma_formula_sat_agree(f, asn_of(a@), cls, s, n as int);
                }
            }
            None
        }
    } else {
        let ghost a0 = a@;
        a.push(false);
        let r0 = search_rec(cs, sel, a, n);
        match r0 {
            Some(m) => {
                a.pop();
                assert(a@ == a0);
                Some(m)
            },
            None => {
                let ghost low = a@;
                a.pop();
                assert(a@ == a0);
                a.push(true);
                let r1 = search_rec(cs, sel, a, n);
                match r1 {
                    Some(m) => {
                        a.pop();
                        assert(a@ == a0);
                        Some(m)
                    },
                    None => {
                        let ghost high = a@;
                        a.pop();
                        assert(a@ == a0);
                        proof {
                            assert forall|f: spec_fn(int) -> bool|
                                agree_below(f, asn_of(a0), a0.len() as int)
                                implies !formula_sat_sel(f, cls, s) by {
                                let k = a0.len() as int;
                                if f(k + 1) {
                                    assert(high =~= a0.push(true));
                                    assert(agree_below(f, asn_of(high), k + 1)) by {
                                        assert forall|v: int| 1 <= v <= k + 1 implies #[trigger] f(
                                            v,
                                        ) == asn_of(high)(v) by {
                                            if v <= k {
                                                assert(f(v) == asn_of(a0)(v));
                                                assert(high[v - 1] == a0[v - 1]);
                                            } else {
                                                assert(high[k] == true);
                                            }
                                        }
                                    };
                                    assert(!formula_sat_sel(f, cls, s));
                                } else {
                                    assert(low =~= a0.push(false));
                                    assert(agree_below(f, asn_of(low), k + 1)) by {
                                        assert forall|v: int| 1 <= v <= k + 1 implies #[trigger] f(
                                            v,
                                        ) == asn_of(low)(v) by {
                                            if v <= k {
                                                assert(f(v) == asn_of(a0)(v));
                                                assert(low[v - 1] == a0[v - 1]);
                                            } else {
                                                assert(low[k] == false);
                                            }
                                        }
                                    };
                                    assert(!formula_sat_sel(f, cls, s));
                                }
                            }
                        }
                        None
                    },
                }
            },
        }
    }
}

/// Decides whether the sub-formula of `cs` selected by `sel` is satisfiable
/// over the variables `1..=n`, returning a satisfying assignment when it is.
pub(crate) fn search(cs: &Vec<Vec<i32>>, sel: &Vec<bool>, n: usize) -> (r: Option<Vec<bool>>)
    requires
        sel@.len() == cs@.len(),
        n <= 0x7FFF_FFFF,
        clauses_ok(cls_view(cs@), n as int),
    ensures
        match r {
            Some(m) => m@.len() == n && formula_sat_sel(
                asn_of(m@),
                cls_view(cs@),
                sel_set(sel@),
            ) && sub_satisfiable(cls_view(cs@), sel_set(sel@)),
            None => !sub_satisfiable(cls_view(cs@), sel_set(sel@)),
        },
{
    let mut a: Vec<bool> = Vec::new();
    let r = search_rec(cs, sel, &mut a, n);
    proof {
        if r is None {
            assert(a@ =~= Seq::<bool>::empty());
            lemma_no_ext_empty(cls_view(cs@), sel_set(sel@));
        }
    }
    r
}

/// Shrinks an unsatisfiable selection to one that is locally minimal over
/// the positions from `frozen` on: the result still selects an
/// unsatisfiable sub-formula, and dropping any single retained position at
/// or beyond `frozen` makes the rest satisfiable. Positions before `frozen`
/// are kept as they are.
pub(crate) fn shrink_unsat_sel(cs: &Vec<Vec<i32>>, sel: Vec<bool>, frozen: usize, n: usize) -> (r:
    Vec<bool>)
    requires
        sel@.len() == cs@.len(),
        n <= 0x7FFF_FFFF,
        frozen <= sel@.len(),
        clauses_ok(cls_view(cs@), n as int),
        !sub_satisfiable(cls_view(cs@), sel_set(sel@)),
    ensures
        r@.len() == sel@.len(),
        forall|i: int| 0 <= i < r@.len() ==> (#[trigger] r@[i] ==> sel@[i]),
        forall|i: int| 0 <= i < frozen ==> #[trigger] r@[i] == sel@[i],
        !sub_satisfiable(cls_view(cs@), sel_set(r@)),
        forall|i: int|
            frozen <= i < r@.len() && #[trigger] r@[i] ==> sub_satisfiable(
                cls_view(cs@),
                sel_set(r@).remove(i),
            ),
{
    let ghost cls = cls_view(cs@);
    let ghost sel0 = sel@;
    let mut cur = sel;
    let mut i: usize = frozen;
    while i < cur.len()
        invariant
            cur@.len() == sel0.len(),
            sel0.len() == cs@.len(),
            n <= 0x7FFF_FFFF,
            frozen <= i <= cur@.len(),
            cls == cls_view(cs@),
            clauses_ok(cls, n as int),
            forall|i2: int| 0 <= i2 < cur@.len() ==> (#[trigger] cur@[i2] ==> sel0[i2]),
            forall|i2: int| 0 <= i2 < frozen ==> #[trigger] cur@[i2] == sel0[i2],
            !sub_satisfiable(cls, sel_set(cur@)),
            forall|i2: int|
                frozen <= i2 < i && #[trigger] cur@[i2] ==> sub_satisfiable(
                    cls,
                    sel_set(cur@).remove(i2),
                ),
        decreases cur.len() - i,
    {
        if cur[i] {
            let ghost before = cur@;
            cur.set(i, false);
            proof {
                assert(sel_set(cur@) =~= sel_set(before).remove(i as int));
            }
            match search(cs, &cur, n) {
                Some(_) => {
                    // Dropping clause i restores satisfiability, so it is
                    // essential: keep it.
                    cur.set(i, true);
                    proof {
                        assert(cur@ =~= before);
                        assert(sub_satisfiable(cls, sel_set(cur@).remove(i as int)));
                    }
                },
                None => {
                    // Still unsatisfiable without clause i: leave it out.
                    proof {
                        assert forall|i2: int|
                            frozen <= i2 < i + 1 && #[trigger] cur@[i2] implies sub_satisfiable(
                            cls,
                            sel_set(cur@).remove(i2),
                        ) by {
                            assert(i2 < i);
                            assert(before[i2]);
                            assert(sub_satisfiable(cls, sel_set(before).remove(i2)));
                            assert(sel_set(cur@).remove(i2).subset_of(
                                sel_set(before).remove(i2),
                            ));
                            lemma_sub_sat_subset(
                                cls,
                                sel_set(before).remove(i2),
                                sel_set(cur@).remove(i2),
                            );
                        }
                    }
                },
            }
        }
        i += 1;
    }
    cur
}

} // verus!
