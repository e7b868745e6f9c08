//! Error types shared by the solver and parser layers.

use vstd::prelude::*;

verus! {

/// An error reported by a solver engine, carrying a diagnostic message.
#[derive(Debug, Clone, Copy, PartialEq, Eq)]
pub struct SolverError(pub &'static str);

/// An error produced while reading or parsing DIMACS CNF input.
#[derive(Debug, Clone, PartialEq, Eq)]
pub enum ParserError {
    /// The input could not be read; carries the I/O layer's message.
    FileReadError(String),
    /// The input does not follow the DIMACS CNF grammar; carries the byte
    /// position of the offence, or the input length when the input ends
    /// too early.
    CnfParseError(usize),
    /// An integer token does not fit in a 32-bit literal; carries the
    /// position of the digit at which the value left the range.
    ParseIntError(usize),
    /// In strict mode: a literal mentions a variable above the declared
    /// count; carries (variable seen, variables declared).
    TooManyVariables(i32, i32),
    /// In strict mode: more clauses appear than were declared; carries
    /// (clauses seen, clauses declared).
    TooManyClauses(i32, i32),
    /// A clause consumer refused the clause; carries its message.
    ClauseRejected(&'static str),
}

} // verus!
