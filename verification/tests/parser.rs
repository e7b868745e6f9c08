//! The DIMACS CNF parser against the ingestion surface.

use satgalaxy::errors::ParserError;
use satgalaxy::parser::parse_dimacs_cnf;
use satgalaxy::parser::AsDimacs;
use satgalaxy::parser::Problem;
use satgalaxy::MinisatSolver;
use satgalaxy::MusSolver;
use satgalaxy::MusStatus;
use satgalaxy::PicoSATSolver;
use satgalaxy::RawStatus;
use satgalaxy::SatSolver;

#[test]
fn parse_into_problem() {
    let text = "c This is a comment\np cnf 3 2\n1 -3 0\n2 3 0\n";
    let mut problem = Problem::new();
    parse_dimacs_cnf(text, false, &mut problem).unwrap();
    assert_eq!(problem.num_vars, 3);
    assert_eq!(problem.num_clauses, 2);
    assert_eq!(problem.clauses, vec![vec![1, -3], vec![2, 3]]);
}

#[test]
fn parse_into_clause_collection() {
    let text = "p cnf 2 2\n1 2 0 -1 -2 0\n";
    let mut collected: Vec<Vec<i32>> = Vec::new();
    parse_dimacs_cnf(text, false, &mut collected).unwrap();
    assert_eq!(collected, vec![vec![1, 2], vec![-1, -2]]);
}

#[test]
fn parse_straight_into_a_solver() {
    let text = "c contradiction\np cnf 1 2\n1 0\n-1 0\n";
    let mut s = MinisatSolver::new();
    parse_dimacs_cnf(text, true, &mut s).unwrap();
    assert_eq!(s.solve_sat().unwrap(), RawStatus::Unsatisfiable);
}

#[test]
fn parse_without_header() {
    let text = "1 2 0\n-1 0\n";
    let mut collected: Vec<Vec<i32>> = Vec::new();
    parse_dimacs_cnf(text, false, &mut collected).unwrap();
    assert_eq!(collected, vec![vec![1, 2], vec![-1]]);
}

#[test]
fn comments_between_clauses() {
    let text = "c one\n1 0\nc two\n2 0\n";
    let mut collected: Vec<Vec<i32>> = Vec::new();
    parse_dimacs_cnf(text, false, &mut collected).unwrap();
    assert_eq!(collected, vec![vec![1], vec![2]]);
}

#[test]
fn final_clause_may_end_at_eof() {
    let text = "1 2 0";
    let mut collected: Vec<Vec<i32>> = Vec::new();
    parse_dimacs_cnf(text, false, &mut collected).unwrap();
    assert_eq!(collected, vec![vec![1, 2]]);
}

#[test]
fn strict_mode_rejects_extra_clause() {
    let text = "p cnf 2 1\n1 0\n2 0\n";
    let mut problem = Problem::new();
    let err = parse_dimacs_cnf(text, true, &mut problem).unwrap_err();
    assert!(matches!(err, ParserError::TooManyClauses(1, 1)));
}

#[test]
fn strict_mode_rejects_undeclared_variable() {
    let text = "p cnf 1 5\n2 0\n";
    let mut problem = Problem::new();
    let err = parse_dimacs_cnf(text, true, &mut problem).unwrap_err();
    assert!(matches!(err, ParserError::TooManyVariables(2, 1)));
}

#[test]
fn lenient_mode_ignores_declared_counts() {
    let text = "p cnf 1 1\n1 0\n2 0\n3 0\n";
    let mut problem = Problem::new();
    parse_dimacs_cnf(text, false, &mut problem).unwrap();
    assert_eq!(problem.num_clauses, 3);
    assert_eq!(problem.num_vars, 3);
}

#[test]
fn stray_character_is_an_error() {
    let text = "x\n";
    let mut collected: Vec<Vec<i32>> = Vec::new();
    let err = parse_dimacs_cnf(text, false, &mut collected).unwrap_err();
    assert!(matches!(err, ParserError::CnfParseError(0)));
}

#[test]
fn comment_marker_mid_line_is_an_error() {
    let text = "1 c 0\n";
    let mut collected: Vec<Vec<i32>> = Vec::new();
    let err = parse_dimacs_cnf(text, false, &mut collected).unwrap_err();
    assert!(matches!(err, ParserError::CnfParseError(2)));
}

#[test]
fn header_after_clause_data_is_an_error() {
    let text = "1 0\np cnf 1 1\n";
    let mut collected: Vec<Vec<i32>> = Vec::new();
    let err = parse_dimacs_cnf(text, false, &mut collected).unwrap_err();
    assert!(matches!(err, ParserError::CnfParseError(4)));
}

#[test]
fn unterminated_clause_is_an_error() {
    let text = "1 2\n";
    let mut collected: Vec<Vec<i32>> = Vec::new();
    let err = parse_dimacs_cnf(text, false, &mut collected).unwrap_err();
    assert!(matches!(err, ParserError::CnfParseError(4)));
}

#[test]
fn bare_minus_is_an_error() {
    let text = "- 1 0\n";
    let mut collected: Vec<Vec<i32>> = Vec::new();
    let err = parse_dimacs_cnf(text, false, &mut collected).unwrap_err();
    assert!(matches!(err, ParserError::CnfParseError(1)));
}

#[test]
fn literal_overflow_is_an_error() {
    let text = "2147483648 0\n";
    let mut collected: Vec<Vec<i32>> = Vec::new();
    let err = parse_dimacs_cnf(text, false, &mut collected).unwrap_err();
    assert!(matches!(err, ParserError::ParseIntError(9)));
}

#[test]
fn most_negative_literal_is_accepted() {
    let text = "-2147483648 0\n";
    let mut collected: Vec<Vec<i32>> = Vec::new();
    parse_dimacs_cnf(text, false, &mut collected).unwrap();
    assert_eq!(collected, vec![vec![i32::MIN]]);
}

#[test]
fn error_position_reports_first_offence() {
    let text = "1 0\n?\n2 0\n";
    let mut collected: Vec<Vec<i32>> = Vec::new();
    let err = parse_dimacs_cnf(text, false, &mut collected).unwrap_err();
    assert!(matches!(err, ParserError::CnfParseError(4)));
    // On a grammar error nothing is delivered: the consumer is untouched.
    assert!(collected.is_empty());
}

#[test]
fn problem_tracks_counts_directly() {
    let mut problem = Problem::new();
    problem.push_clause(vec![1, -7]).unwrap();
    problem.push_clause(vec![3]).unwrap();
    assert_eq!(problem.num_vars, 7);
    assert_eq!(problem.num_clauses, 2);
    problem.add_comment(String::from("noted"));
    assert_eq!(problem.num_clauses, 2);
}

#[test]
fn parsed_formula_feeds_mus_extraction() {
    let text = "c subsumed middle clause\np cnf 2 3\n1 0\n1 2 0\n-1 0\n";
    let mut s = PicoSATSolver::new();
    parse_dimacs_cnf(text, true, &mut s).unwrap();
    assert_eq!(s.solve_mus().unwrap(), MusStatus::Unsatisfiable(vec![0, 2]));
}
