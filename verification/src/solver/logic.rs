//! The propositional model: what an assignment is, when it satisfies a
//! clause, a formula, or a selected sub-formula, and the basic laws that the
//! engines and the MUS extractor are proved against.
//!
//! A literal is a non-zero `i32`; its magnitude is a 1-based variable index
//! and its sign is the polarity. An assignment is a total map from variable
//! indices to truth values, modelled as a `spec_fn(int) -> bool`.

use vstd::prelude::*;

verus! {

/// The variable index of a literal.
pub open spec fn lit_var(lit: i32) -> int {
    if lit >= 0 {
        lit as int
    } else {
        -(lit as int)
    }
}

/// Whether assignment `f` makes literal `lit` true.
pub open spec fn lit_sat(f: spec_fn(int) -> bool, lit: i32) -> bool {
    if lit > 0 {
        f(lit as int)
    } else {
        !f(-(lit as int))
    }
}

/// Whether assignment `f` makes at least one literal of clause `c` true.
pub open spec fn clause_sat(f: spec_fn(int) -> bool, c: Seq<i32>) -> bool {
    exists|k: int| 0 <= k < c.len() && lit_sat(f, #[trigger] c[k])
}

/// Whether assignment `f` satisfies every clause of `cls` whose index is in
/// the selection `sel`. Clauses outside `sel` are ignored.
pub open spec fn formula_sat_sel(f: spec_fn(int) -> bool, cls: Seq<Seq<i32>>, sel: Set<int>) -> bool {
    forall|j: int| 0 <= j < cls.len() && sel.contains(j) ==> clause_sat(f, #[trigger] cls[j])
}

/// Whether assignment `f` satisfies every clause of `cls`.
pub open spec fn formula_sat(f: spec_fn(int) -> bool, cls: Seq<Seq<i32>>) -> bool {
    forall|j: int| 0 <= j < cls.len() ==> clause_sat(f, #[trigger] cls[j])
}

/// Whether the sub-formula of `cls` selected by `sel` has a model.
pub open spec fn sub_satisfiable(cls: Seq<Seq<i32>>, sel: Set<int>) -> bool {
    exists|f: spec_fn(int) -> bool| formula_sat_sel(f, cls, sel)
}

/// Whether the whole formula `cls` has a model.
pub open spec fn satisfiable(cls: Seq<Seq<i32>>) -> bool {
    exists|f: spec_fn(int) -> bool| formula_sat(f, cls)
}

/// The set of indices at which `s` is true.
pub open spec fn sel_set(s: Seq<bool>) -> Set<int> {
    Set::new(|i: int| 0 <= i < s.len() && s[i])
}

/// The full selection over `len` clauses.
pub open spec fn full_sel(len: int) -> Set<int> {
    Set::new(|i: int| 0 <= i < len)
}

/// The clause sequence held by a vector of clause vectors.
pub open spec fn cls_view(cs: Seq<Vec<i32>>) -> Seq<Seq<i32>> {
    Seq::new(cs.len(), |i: int| cs[i]@)
}

/// Every literal of `c` is non-zero and mentions a variable at most `n`.
pub open spec fn clause_ok(c: Seq<i32>, n: int) -> bool {
    forall|k: int| 0 <= k < c.len() ==> #[trigger] c[k] != 0 && lit_var(c[k]) <= n
}

/// Every clause of `cls` is well formed with variables at most `n`.
pub open spec fn clauses_ok(cls: Seq<Seq<i32>>, n: int) -> bool {
    forall|j: int| 0 <= j < cls.len() ==> clause_ok(#[trigger] cls[j], n)
}

/// The assignment read off a boolean vector: variable `v` is true exactly
/// when `1 <= v <= a.len()` and `a[v - 1]` holds; variables beyond the
/// vector are false.
pub open spec fn asn_of(a: Seq<bool>) -> spec_fn(int) -> bool {
    |v: int| 1 <= v <= a.len() && a[v - 1]
}

/// The assignment read off a model of signed literals: variable `v` is true
/// exactly when the model has a positive entry at position `v - 1`.
pub open spec fn model_asn(m: Seq<i32>) -> spec_fn(int) -> bool {
    |v: int| 1 <= v <= m.len() && m[v - 1] > 0
}

/// A well-formed model over `n` variables: entry `i` is the signed literal
/// of variable `i + 1`.
pub open spec fn model_form(m: Seq<i32>, n: int) -> bool {
    m.len() == n && forall|i: int| 0 <= i < m.len() ==> #[trigger] m[i] == i + 1 || m[i] == -(i + 1)
}

/// `f` and `g` agree on every variable from 1 through `n`.
pub open spec fn agree_below(f: spec_fn(int) -> bool, g: spec_fn(int) -> bool, n: int) -> bool {
    forall|v: int| 1 <= v <= n ==> #[trigger] f(v) == #[trigger] g(v)
}

/// No assignment that extends the partial assignment `prefix` satisfies the
/// selected sub-formula.
pub open spec fn no_ext_model(cls: Seq<Seq<i32>>, sel: Set<int>, prefix: Seq<bool>) -> bool {
    forall|f: spec_fn(int) -> bool|
        agree_below(f, asn_of(prefix), prefix.len() as int) ==> !#[trigger] formula_sat_sel(
            f,
            cls,
            sel,
        )
}

/// Whether assignment `f` makes every assumption literal true.
pub open spec fn assumps_sat(f: spec_fn(int) -> bool, a: Seq<i32>) -> bool {
    forall|k: int| 0 <= k < a.len() ==> lit_sat(f, #[trigger] a[k])
}

/// Whether the formula has a model that also makes every assumption true:
/// what a solve under assumptions decides.
pub open spec fn satisfiable_with(cls: Seq<Seq<i32>>, a: Seq<i32>) -> bool {
    exists|f: spec_fn(int) -> bool| formula_sat(f, cls) && assumps_sat(f, a)
}

/// The largest variable index a clause mentions, 0 for the empty clause.
pub open spec fn max_var(c: Seq<i32>) -> int
    decreases c.len(),
{
    if c.len() == 0 {
        0
    } else if lit_var(c.last()) >= max_var(c.drop_last()) {
        lit_var(c.last())
    } else {
        max_var(c.drop_last())
    }
}

/// A well-formed model over `n` variables that satisfies every clause.
pub open spec fn is_model_of(m: Seq<i32>, cls: Seq<Seq<i32>>, n: int) -> bool {
    model_form(m, n) && formula_sat(model_asn(m), cls)
}

/// The set of indices at which `s` is false: with `s` read as redundancy
/// marks, the clauses still under consideration.
pub open spec fn unsel_set(s: Seq<bool>) -> Set<int> {
    Set::new(|i: int| 0 <= i < s.len() && !s[i])
}

/// How many entries of `s` are true.
pub open spec fn count_true(s: Seq<bool>) -> int
    decreases s.len(),
{
    if s.len() == 0 {
        0
    } else {
        count_true(s.drop_last()) + if s.last() {
            1int
        } else {
            0int
        }
    }
}

/// `count_true` lies between 0 and the length.
pub proof fn lemma_count_true_bounds(s: Seq<bool>)
    ensures
        0 <= count_true(s) <= s.len(),
    decreases s.len(),
{
    if s.len() > 0 {
        lemma_count_true_bounds(s.drop_last());
    }
}

/// Pointwise implication between selection vectors bounds their counts.
pub proof fn lemma_count_true_le(s1: Seq<bool>, s2: Seq<bool>)
    requires
        s1.len() == s2.len(),
        forall|i: int| 0 <= i < s2.len() ==> (#[trigger] s2[i] ==> s1[i]),
    ensures
        count_true(s2) <= count_true(s1),
    decreases s1.len(),
{
    if s1.len() > 0 {
        assert forall|i: int| 0 <= i < s2.drop_last().len() implies (#[trigger] s2.drop_last()[i]
            ==> s1.drop_last()[i]) by {
            assert(s2.drop_last()[i] == s2[i]);
            assert(s1.drop_last()[i] == s1[i]);
        }
        lemma_count_true_le(s1.drop_last(), s2.drop_last());
    }
}

/// Flipping every entry complements the count.
pub proof fn lemma_count_flip(s: Seq<bool>, t: Seq<bool>)
    requires
        s.len() == t.len(),
        forall|i: int| 0 <= i < s.len() ==> #[trigger] t[i] == !s[i],
    ensures
        count_true(t) == s.len() - count_true(s),
    decreases s.len(),
{
    if s.len() > 0 {
        assert forall|i: int| 0 <= i < s.drop_last().len() implies #[trigger] t.drop_last()[i]
            == !s.drop_last()[i] by {
            assert(t.drop_last()[i] == t[i]);
            assert(s.drop_last()[i] == s[i]);
        }
        lemma_count_flip(s.drop_last(), t.drop_last());
        assert(t.last() == !s.last());
    }
}

/// An all-false vector counts zero.
pub proof fn lemma_count_true_zero(s: Seq<bool>)
    requires
        forall|i: int| 0 <= i < s.len() ==> !s[i],
    ensures
        count_true(s) == 0,
    decreases s.len(),
{
    if s.len() > 0 {
        assert forall|i: int| 0 <= i < s.drop_last().len() implies !s.drop_last()[i] by {
            assert(s.drop_last()[i] == s[i]);
        }
        lemma_count_true_zero(s.drop_last());
    }
}

/// The set of clause indices named by an index sequence.
pub open spec fn idx_set(idx: Seq<usize>) -> Set<int> {
    Set::new(|i: int| exists|k: int| 0 <= k < idx.len() && #[trigger] idx[k] == i)
}

/// The entries of `idx` are strictly increasing.
pub open spec fn strictly_sorted(idx: Seq<usize>) -> bool {
    forall|a: int, b: int| 0 <= a < b < idx.len() ==> #[trigger] idx[a] < #[trigger] idx[b]
}

/// What a correct `MusStatus::Unsatisfiable(idx)` answer states about the
/// clause store `cls`: the indices are ascending positions into the push
/// order, the sub-formula they select is unsatisfiable, and dropping any
/// single index from the selection makes the rest satisfiable.
pub open spec fn mus_result_ok(idx: Seq<usize>, cls: Seq<Seq<i32>>) -> bool {
    &&& strictly_sorted(idx)
    &&& forall|k: int| 0 <= k < idx.len() ==> #[trigger] idx[k] < cls.len()
    &&& !sub_satisfiable(cls, idx_set(idx))
    &&& forall|k: int|
        0 <= k < idx.len() ==> sub_satisfiable(cls, idx_set(idx).remove(#[trigger] idx[k] as int))
}

/// A correct minimal-unsatisfiable-subset answer refutes the whole
/// formula: the sub-formula it selects is already contradictory, and a
/// formula with even more clauses can only be harder to satisfy.
pub proof fn lemma_mus_refutes_formula(idx: Seq<usize>, cls: Seq<Seq<i32>>)
    requires
        mus_result_ok(idx, cls),
    ensures
        !satisfiable(cls),
{
    if satisfiable(cls) {
        lemma_full_sel(cls);
        lemma_sub_sat_subset(cls, full_sel(cls.len() as int), idx_set(idx));
    }
}

/// Bounds on `max_var`: it dominates every literal of the clause and stays
/// within the magnitude range of an `i32`.
pub proof fn lemma_max_var_bounds(c: Seq<i32>)
    ensures
        0 <= max_var(c) <= 0x8000_0000,
        forall|k: int| 0 <= k < c.len() ==> lit_var(#[trigger] c[k]) <= max_var(c),
    decreases c.len(),
{
    if c.len() > 0 {
        lemma_max_var_bounds(c.drop_last());
        assert forall|k: int| 0 <= k < c.len() implies lit_var(#[trigger] c[k]) <= max_var(c) by {
            if k < c.len() - 1 {
                assert(c.drop_last()[k] == c[k]);
            }
        }
    }
}

/// A clause with no zero literal is well formed at any bound that dominates
/// its `max_var`.
pub proof fn lemma_clause_ok_of_max_var(c: Seq<i32>, n: int)
    requires
        max_var(c) <= n,
        forall|k: int| 0 <= k < c.len() ==> #[trigger] c[k] != 0,
    ensures
        clause_ok(c, n),
{
    lemma_max_var_bounds(c);
}

/// Clause satisfaction depends only on the variables the clause mentions.
pub proof fn lemma_clause_sat_agree(
    f: spec_fn(int) -> bool,
    g: spec_fn(int) -> bool,
    c: Seq<i32>,
    n: int,
)
    requires
        clause_ok(c, n),
        agree_below(f, g, n),
    ensures
        clause_sat(f, c) == clause_sat(g, c),
{
    assert forall|k: int| 0 <= k < c.len() implies lit_sat(f, #[trigger] c[k]) == lit_sat(g, c[k]) by {
        assert(c[k] != 0 && lit_var(c[k]) <= n);
        if c[k] > 0 {
            assert(1 <= c[k] as int <= n);
        } else {
            assert(1 <= -(c[k] as int) <= n);
        }
    }
    if clause_sat(f, c) {
        let k = choose|k: int| 0 <= k < c.len() && lit_sat(f, #[trigger] c[k]);
        assert(lit_sat(g, c[k]));
    }
    if clause_sat(g, c) {
        let k = choose|k: int| 0 <= k < c.len() && lit_sat(g, #[trigger] c[k]);
        assert(lit_sat(f, c[k]));
    }
}

/// Satisfaction of a selected sub-formula depends only on variables up to
/// the bound of its clauses.
pub proof fn lemma_formula_sat_agree(
    f: spec_fn(int) -> bool,
    g: spec_fn(int) -> bool,
    cls: Seq<Seq<i32>>,
    sel: Set<int>,
    n: int,
)
    requires
        clauses_ok(cls, n),
        agree_below(f, g, n),
    ensures
        formula_sat_sel(f, cls, sel) == formula_sat_sel(g, cls, sel),
{
    assert forall|j: int| 0 <= j < cls.len() implies clause_sat(f, #[trigger] cls[j]) == clause_sat(
        g,
        cls[j],
    ) by {
        lemma_clause_sat_agree(f, g, cls[j], n);
    }
}

/// Satisfying the full selection is satisfying the whole formula.
pub proof fn lemma_full_sel(cls: Seq<Seq<i32>>)
    ensures
        sub_satisfiable(cls, full_sel(cls.len() as int)) == satisfiable(cls),
{
    if sub_satisfiable(cls, full_sel(cls.len() as int)) {
        let f = choose|f: spec_fn(int) -> bool| formula_sat_sel(f, cls, full_sel(cls.len() as int));
        assert(formula_sat(f, cls));
    }
    if satisfiable(cls) {
        let f = choose|f: spec_fn(int) -> bool| formula_sat(f, cls);
        assert(formula_sat_sel(f, cls, full_sel(cls.len() as int)));
    }
}

/// Dropping clauses from a selection preserves satisfiability: a model of a
/// sub-formula is a model of every smaller sub-formula.
pub proof fn lemma_sub_sat_subset(cls: Seq<Seq<i32>>, big: Set<int>, small: Set<int>)
    requires
        small.subset_of(big),
        sub_satisfiable(cls, big),
    ensures
        sub_satisfiable(cls, small),
{
    let f = choose|f: spec_fn(int) -> bool| formula_sat_sel(f, cls, big);
    assert(formula_sat_sel(f, cls, small));
}

/// If no extension of the empty prefix satisfies the selection, the selected
/// sub-formula is unsatisfiable.
pub proof fn lemma_no_ext_empty(cls: Seq<Seq<i32>>, sel: Set<int>)
    requires
        no_ext_model(cls, sel, Seq::<bool>::empty()),
    ensures
        !sub_satisfiable(cls, sel),
{
    if sub_satisfiable(cls, sel) {
        let f = choose|f: spec_fn(int) -> bool| formula_sat_sel(f, cls, sel);
        assert(agree_below(f, asn_of(Seq::<bool>::empty()), 0));
        assert(!formula_sat_sel(f, cls, sel));
    }
}

/// For a clause store holding a unit clause and its negation, any answer
/// that is consistent with the solve contract and is not `Unknown` must be
/// `Unsatisfiable` — whichever engine produced it.
pub proof fn lemma_unit_contradiction_forces_unsat(
    cls: Seq<Seq<i32>>,
    i: int,
    j: int,
    lit: i32,
    neg: i32,
    r: super::RawStatus,
)
    requires
        0 <= i < cls.len(),
        0 <= j < cls.len(),
        cls[i] =~= seq![lit],
        cls[j] =~= seq![neg],
        lit != 0,
        (lit as int) + (neg as int) == 0,
        r == super::RawStatus::Satisfiable ==> satisfiable(cls),
        r != super::RawStatus::Unknown,
    ensures
        r == super::RawStatus::Unsatisfiable,
{
    lemma_unit_contradiction_unsat(cls, i, j, lit, neg);
}

/// A clause set that contains the two unit clauses of one variable, in both
/// polarities, is unsatisfiable.
pub proof fn lemma_unit_contradiction_unsat(cls: Seq<Seq<i32>>, i: int, j: int, lit: i32, neg: i32)
    requires
        0 <= i < cls.len(),
        0 <= j < cls.len(),
        cls[i] =~= seq![lit],
        cls[j] =~= seq![neg],
        lit != 0,
        (lit as int) + (neg as int) == 0,
    ensures
        !satisfiable(cls),
{
    assert forall|f: spec_fn(int) -> bool| !formula_sat(f, cls) by {
        if formula_sat(f, cls) {
            assert(clause_sat(f, cls[i]));
            assert(clause_sat(f, cls[j]));
            let ki = choose|k: int| 0 <= k < cls[i].len() && lit_sat(f, #[trigger] cls[i][k]);
            let kj = choose|k: int| 0 <= k < cls[j].len() && lit_sat(f, #[trigger] cls[j][k]);
            assert(cls[i][ki] == lit);
            assert(cls[j][kj] == neg);
            assert(lit_sat(f, lit) && lit_sat(f, neg));
            if lit > 0 {
                assert(neg as int == -(lit as int));
                assert(f(lit as int) && !f(lit as int));
            } else {
                assert(!f(-(lit as int)) && f(neg as int));
                assert(neg as int == -(lit as int));
            }
        }
    }
}

} // verus!
