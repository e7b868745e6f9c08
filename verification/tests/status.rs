//! The status model: defaults and native exit-code decoding.

use satgalaxy::errors::SolverError;
use satgalaxy::solver::base::Status;
use satgalaxy::MusStatus;
use satgalaxy::RawStatus;
use satgalaxy::SatStatus;

#[test]
fn raw_status_decodes_exit_codes() {
    assert_eq!(RawStatus::from(10), RawStatus::Satisfiable);
    assert_eq!(RawStatus::from(20), RawStatus::Unsatisfiable);
    assert_eq!(RawStatus::from(0), RawStatus::Unknown);
    assert_eq!(RawStatus::from(-1), RawStatus::Unknown);
    assert_eq!(RawStatus::from(15), RawStatus::Unknown);
}

#[test]
fn statuses_default_to_unknown() {
    assert_eq!(RawStatus::default(), RawStatus::Unknown);
    assert_eq!(SatStatus::default(), SatStatus::Unknown);
    assert_eq!(MusStatus::default(), MusStatus::Unknown);
    assert_eq!(Status::default(), Status::UNKNOWN);
}

#[test]
fn solver_error_carries_its_message() {
    let e = SolverError("engine reported an error");
    assert_eq!(e.0, "engine reported an error");
}
