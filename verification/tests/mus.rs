//! Minimal-unsatisfiable-subset extraction through the `MusSolver` surface.

use satgalaxy::MusSolver;
use satgalaxy::MusStatus;
use satgalaxy::PicoSATSolver;

#[test]
fn trivial_contradiction_scenario() {
    let mut s = PicoSATSolver::new();
    MusSolver::push_clause(&mut s, &[1]).unwrap();
    MusSolver::push_clause(&mut s, &[-1]).unwrap();
    assert_eq!(s.solve_mus().unwrap(), MusStatus::Unsatisfiable(vec![0, 1]));
}

#[test]
fn redundant_clause_elided_scenario() {
    let mut s = PicoSATSolver::new();
    MusSolver::push_clause(&mut s, &[1]).unwrap();
    MusSolver::push_clause(&mut s, &[1, 2]).unwrap();
    MusSolver::push_clause(&mut s, &[-1]).unwrap();
    assert_eq!(s.solve_mus().unwrap(), MusStatus::Unsatisfiable(vec![0, 2]));
}

#[test]
fn satisfiable_formula_has_no_mus() {
    let mut s = PicoSATSolver::new();
    MusSolver::push_clause(&mut s, &[1, 2]).unwrap();
    MusSolver::push_clause(&mut s, &[-1]).unwrap();
    assert_eq!(s.solve_mus().unwrap(), MusStatus::Satisfiable);
}

#[test]
fn empty_formula_has_no_mus() {
    let mut s = PicoSATSolver::new();
    assert_eq!(s.solve_mus().unwrap(), MusStatus::Satisfiable);
}

#[test]
fn empty_clause_is_its_own_mus() {
    let mut s = PicoSATSolver::new();
    MusSolver::push_clause(&mut s, &[]).unwrap();
    MusSolver::push_clause(&mut s, &[1]).unwrap();
    assert_eq!(s.solve_mus().unwrap(), MusStatus::Unsatisfiable(vec![0]));
}

#[test]
fn mus_indices_follow_push_order() {
    // The contradiction sits in the middle of a larger set; the reported
    // indices must point at the original push positions, ascending.
    let mut s = PicoSATSolver::new();
    MusSolver::push_clause(&mut s, &[3, 4]).unwrap();
    MusSolver::push_clause(&mut s, &[2]).unwrap();
    MusSolver::push_clause(&mut s, &[-2, 5]).unwrap();
    MusSolver::push_clause(&mut s, &[-5]).unwrap();
    MusSolver::push_clause(&mut s, &[4, 5]).unwrap();
    match s.solve_mus().unwrap() {
        MusStatus::Unsatisfiable(idx) => {
            assert_eq!(idx, vec![1, 2, 3]);
        }
        other => panic!("expected an unsatisfiable outcome, got {:?}", other),
    }
}

#[test]
fn mus_result_is_locally_minimal() {
    // Two independent contradictions; the extraction must settle on one of
    // them, never on the union.
    let mut s = PicoSATSolver::new();
    MusSolver::push_clause(&mut s, &[1]).unwrap();
    MusSolver::push_clause(&mut s, &[-1]).unwrap();
    MusSolver::push_clause(&mut s, &[2]).unwrap();
    MusSolver::push_clause(&mut s, &[-2]).unwrap();
    match s.solve_mus().unwrap() {
        MusStatus::Unsatisfiable(idx) => {
            assert!(idx == vec![0, 1] || idx == vec![2, 3]);
        }
        other => panic!("expected an unsatisfiable outcome, got {:?}", other),
    }
}

#[test]
fn over_budget_extraction_reports_unknown() {
    let mut s = PicoSATSolver::new();
    MusSolver::push_clause(&mut s, &[21]).unwrap();
    assert_eq!(s.solve_mus().unwrap(), MusStatus::Unknown);
}

#[test]
fn clause_store_intact_after_extraction() {
    let mut s = PicoSATSolver::new();
    MusSolver::push_clause(&mut s, &[1]).unwrap();
    MusSolver::push_clause(&mut s, &[-1]).unwrap();
    assert_eq!(s.solve_mus().unwrap(), MusStatus::Unsatisfiable(vec![0, 1]));
    // The extraction leaves the pushed clauses as they are: running it
    // again gives the same answer.
    assert_eq!(s.solve_mus().unwrap(), MusStatus::Unsatisfiable(vec![0, 1]));
}

#[test]
fn chained_implications_form_the_core() {
    // 1, 1->2, 2->3, not 3 is contradictory; the side clause is not.
    let mut s = PicoSATSolver::new();
    MusSolver::push_clause(&mut s, &[1]).unwrap();
    MusSolver::push_clause(&mut s, &[-1, 2]).unwrap();
    MusSolver::push_clause(&mut s, &[-2, 3]).unwrap();
    MusSolver::push_clause(&mut s, &[-3]).unwrap();
    MusSolver::push_clause(&mut s, &[5, 6]).unwrap();
    assert_eq!(
        s.solve_mus().unwrap(),
        MusStatus::Unsatisfiable(vec![0, 1, 2, 3])
    );
}
