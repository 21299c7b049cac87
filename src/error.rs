use vstd::prelude::*;

verus! {

/// What can go wrong when configuring or running the simulation.
#[derive(Debug, Clone, Copy, PartialEq, Eq, Structural)]
pub enum PlanesError {
    /// More passengers than seats, no passengers, or no column labels.
    ConfigurationError,
    /// A simulation of zero trials was asked for: there is no ratio to report.
    DivisionUndefined,
    /// A passenger tried to take a seat that is not open.
    InvariantViolation,
}

impl PlanesError {
    /// A short human-readable description of the error.
    pub fn message(&self) -> (r: String)
        ensures
            *self == PlanesError::ConfigurationError ==> r@
                == "passenger_count exceeds seat_count or no column labels"@,
            *self == PlanesError::DivisionUndefined ==> r@ == "iterations must be positive"@,
            *self == PlanesError::InvariantViolation ==> r@ == "seat taken is not open"@,
    {
        match self {
            PlanesError::ConfigurationError => String::from_str(
                "passenger_count exceeds seat_count or no column labels",
            ),
            PlanesError::DivisionUndefined => String::from_str("iterations must be positive"),
            PlanesError::InvariantViolation => String::from_str("seat taken is not open"),
        }
    }
}

} // verus!
