//! The errors a service can report to its caller.

use vstd::prelude::*;

verus! {

/// What a service reports when it cannot answer: the requested id is absent,
/// or a creation request is missing its required field.
#[derive(Debug, PartialEq, Eq)]
pub enum ApiError {
    NotFound,
    ValidationFailure,
}

} // verus!
