//! The validator front end: validates a document under its declared version.
use vstd::prelude::*;
use crate::ast::Node;
use crate::versions::{validate_versioned, errors_view};
pub use crate::versions::ValidationError;

verus! {

pub struct Validator;

impl Validator {
    pub fn new() -> (v: Self) {
        Validator
    }

    /// All errors of a document under the rules of its declared version; empty when valid.
    pub fn validate(&self, document: &Node) -> (r: Vec<ValidationError>)
        ensures
            errors_view(r@) == validate_versioned(document@),
    {
        crate::versions::validate(document)
    }
}

} // verus!
