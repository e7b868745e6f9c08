//! A SAT-solving toolkit: incremental clause storage, a complete
//! bounded-search engine, model extraction, and minimal-unsatisfiable-subset
//! (MUS) computation, all behind one uniform solver interface.
//!
//! The [`solver`] module holds the status model, the [`SatSolver`] and
//! [`MusSolver`] trait contracts and the engines implementing them; the
//! [`parser`] module holds the clause ingestion surface and the DIMACS CNF
//! parser; [`errors`] holds the error types of both.

pub mod errors;
pub mod parser;
pub mod solver;

pub use solver::MinisatSolver;
pub use solver::MusSolver;
pub use solver::MusStatus;
pub use solver::PicoSATSolver;
pub use solver::RawStatus;
pub use solver::SatSolver;
pub use solver::SatStatus;
