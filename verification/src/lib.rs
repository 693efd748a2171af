//! Validation-error reporting for JSON request payloads.
//!
//! The heart of the crate is a flattener that turns a recursive
//! validation-error tree into a single JSON-compatible report keyed by
//! field names and indices, plus the small pieces of per-request decision
//! logic (size limit, success/failure outcome) that surround it.

use vstd::prelude::*;

pub mod extract;
pub mod flatten;
pub mod report;
pub mod tree;

verus! {

/// A JSON-deserialized value that passed validation.
#[derive(Debug)]
pub struct AppJson<T>(pub T);

impl<T> AppJson<T> {
    /// Deconstruct to an inner value
    pub fn into_inner(self) -> (r: T)
        ensures
            r == self.0,
    {
        self.0
    }

    /// Borrow the inner value
    pub fn as_ref(&self) -> (r: &T)
        ensures
            *r == self.0,
    {
        &self.0
    }
}

} // verus!
