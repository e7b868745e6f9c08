//! Solving behaviour of the engines through the uniform `SatSolver` surface.

use satgalaxy::MinisatSolver;
use satgalaxy::PicoSATSolver;
use satgalaxy::RawStatus;
use satgalaxy::SatSolver;
use satgalaxy::SatStatus;

/// True when the model makes the literal true: the model holds one signed
/// literal per variable in order.
fn lit_true(model: &[i32], lit: i32) -> bool {
    let var = lit.unsigned_abs() as usize;
    if var == 0 || var > model.len() {
        return lit < 0;
    }
    let assigned_true = model[var - 1] > 0;
    if lit > 0 {
        assigned_true
    } else {
        !assigned_true
    }
}

fn clause_satisfied(model: &[i32], clause: &[i32]) -> bool {
    clause.iter().any(|&l| lit_true(model, l))
}

#[test]
fn unsat_stability_minisat() {
    let mut s = MinisatSolver::new();
    SatSolver::push_clause(&mut s, &[2]).unwrap();
    SatSolver::push_clause(&mut s, &[-2]).unwrap();
    assert_eq!(s.solve_sat().unwrap(), RawStatus::Unsatisfiable);
}

#[test]
fn unsat_stability_picosat() {
    let mut s = PicoSATSolver::new();
    SatSolver::push_clause(&mut s, &[2]).unwrap();
    SatSolver::push_clause(&mut s, &[-2]).unwrap();
    assert_eq!(s.solve_sat().unwrap(), RawStatus::Unsatisfiable);
}

#[test]
fn round_trip_model_satisfies_all_clauses() {
    let clauses: Vec<Vec<i32>> = vec![
        vec![1, 2, -3],
        vec![-1, 3],
        vec![2, 3],
        vec![-2, -3, 4],
        vec![-4, 1],
    ];
    let mut s = MinisatSolver::new();
    for c in &clauses {
        SatSolver::push_clause(&mut s, c).unwrap();
    }
    match s.solve_model().unwrap() {
        SatStatus::Satisfiable(model) => {
            assert_eq!(model.len(), 4);
            for (i, entry) in model.iter().enumerate() {
                let v = (i + 1) as i32;
                assert!(*entry == v || *entry == -v);
            }
            for c in &clauses {
                assert!(clause_satisfied(&model, c));
            }
        }
        other => panic!("expected a satisfiable outcome, got {:?}", other),
    }
}

#[test]
fn trivial_satisfiable_scenario() {
    let mut s = PicoSATSolver::new();
    SatSolver::push_clause(&mut s, &[1, 2]).unwrap();
    SatSolver::push_clause(&mut s, &[-1, -2]).unwrap();
    SatSolver::push_clause(&mut s, &[3]).unwrap();
    match s.solve_model().unwrap() {
        SatStatus::Satisfiable(model) => {
            assert_eq!(model.len(), 3);
            assert!(lit_true(&model, 3));
            assert!(clause_satisfied(&model, &[1, 2]));
            assert!(clause_satisfied(&model, &[-1, -2]));
        }
        other => panic!("expected a satisfiable outcome, got {:?}", other),
    }
}

#[test]
fn model_query_is_idempotent() {
    let mut s = MinisatSolver::new();
    SatSolver::push_clause(&mut s, &[1, -2]).unwrap();
    SatSolver::push_clause(&mut s, &[2]).unwrap();
    assert_eq!(s.solve_sat().unwrap(), RawStatus::Satisfiable);
    let first = s.model().unwrap();
    let second = s.model().unwrap();
    assert_eq!(first, second);
}

#[test]
fn model_unavailable_before_solving() {
    let mut s = MinisatSolver::new();
    SatSolver::push_clause(&mut s, &[1]).unwrap();
    assert!(s.model().is_err());
}

#[test]
fn model_unavailable_after_unsat() {
    let mut s = MinisatSolver::new();
    SatSolver::push_clause(&mut s, &[1]).unwrap();
    SatSolver::push_clause(&mut s, &[-1]).unwrap();
    assert_eq!(s.solve_sat().unwrap(), RawStatus::Unsatisfiable);
    assert!(s.model().is_err());
}

#[test]
fn model_invalidated_by_new_clause() {
    let mut s = MinisatSolver::new();
    SatSolver::push_clause(&mut s, &[1]).unwrap();
    assert_eq!(s.solve_sat().unwrap(), RawStatus::Satisfiable);
    SatSolver::push_clause(&mut s, &[2]).unwrap();
    assert!(s.model().is_err());
}

#[test]
fn zero_literal_is_rejected() {
    let mut s = MinisatSolver::new();
    assert!(SatSolver::push_clause(&mut s, &[1, 0, 2]).is_err());
    let mut p = PicoSATSolver::new();
    assert!(SatSolver::push_clause(&mut p, &[0]).is_err());
}

#[test]
fn rejected_clause_leaves_solver_usable() {
    let mut s = MinisatSolver::new();
    SatSolver::push_clause(&mut s, &[1]).unwrap();
    assert!(SatSolver::push_clause(&mut s, &[0]).is_err());
    assert_eq!(s.solve_sat().unwrap(), RawStatus::Satisfiable);
    assert_eq!(s.model().unwrap(), vec![1]);
}

#[test]
fn empty_formula_is_satisfiable() {
    let mut s = MinisatSolver::new();
    match s.solve_model().unwrap() {
        SatStatus::Satisfiable(model) => assert!(model.is_empty()),
        other => panic!("expected a satisfiable outcome, got {:?}", other),
    }
}

#[test]
fn empty_clause_is_contradictory() {
    let mut s = MinisatSolver::new();
    SatSolver::push_clause(&mut s, &[]).unwrap();
    assert_eq!(s.solve_sat().unwrap(), RawStatus::Unsatisfiable);
}

#[test]
fn over_budget_solve_reports_unknown() {
    let mut s = MinisatSolver::new();
    SatSolver::push_clause(&mut s, &[21]).unwrap();
    assert_eq!(s.solve_sat().unwrap(), RawStatus::Unknown);
}

#[test]
fn incremental_resolving_after_more_clauses() {
    let mut s = MinisatSolver::new();
    SatSolver::push_clause(&mut s, &[1, 2]).unwrap();
    assert_eq!(s.solve_sat().unwrap(), RawStatus::Satisfiable);
    SatSolver::push_clause(&mut s, &[-1]).unwrap();
    assert_eq!(s.solve_sat().unwrap(), RawStatus::Satisfiable);
    SatSolver::push_clause(&mut s, &[-2]).unwrap();
    assert_eq!(s.solve_sat().unwrap(), RawStatus::Unsatisfiable);
}

#[test]
fn assumption_solving_is_transient() {
    let mut s = MinisatSolver::new();
    SatSolver::push_clause(&mut s, &[1, 2]).unwrap();
    assert_eq!(s.vars(), 2);
    assert!(s.solve_assumps(&[-1], true, false));
    assert!(!s.solve_assumps(&[-1, -2], true, false));
    // Assumptions hold for one call only: the store stays satisfiable.
    assert_eq!(s.solve_sat().unwrap(), RawStatus::Satisfiable);
    assert_eq!(s.solve_limited(&[-2], true, false), RawStatus::Satisfiable);
    assert_eq!(
        s.solve_limited(&[-1, -2], true, false),
        RawStatus::Unsatisfiable
    );
}

#[test]
fn assumptions_may_mention_fresh_variables() {
    let mut s = MinisatSolver::new();
    SatSolver::push_clause(&mut s, &[1]).unwrap();
    assert!(s.solve_assumps(&[5], true, false));
    assert!(!s.solve_assumps(&[-1], true, false));
    assert_eq!(s.vars(), 1);
}

#[test]
fn over_budget_assumptions_report_unknown() {
    let mut s = MinisatSolver::new();
    assert_eq!(s.solve_limited(&[21], true, false), RawStatus::Unknown);
}

#[test]
fn default_solvers_start_empty() {
    let mut m = MinisatSolver::default();
    match m.solve_model().unwrap() {
        SatStatus::Satisfiable(model) => assert!(model.is_empty()),
        other => panic!("expected a satisfiable outcome, got {:?}", other),
    }
    let mut p = PicoSATSolver::default();
    assert_eq!(p.solve_sat().unwrap(), RawStatus::Satisfiable);
}
