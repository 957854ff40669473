//! The errors that engine entry points report.

use vstd::prelude::*;

verus! {

/// Why an engine call was refused.
#[derive(Clone, Debug, PartialEq, Eq)]
pub enum EngineError {
    /// The operation name is not one the engine knows.
    InvalidOperation { operation: String },
    /// The operation was given the wrong number of arguments.
    InvalidArguments { operation: String, expected: usize },
}

} // verus!
