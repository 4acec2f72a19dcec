use vstd::prelude::*;

verus! {

/// What can go wrong when a value is read as something it is not.
#[derive(Clone, Debug, PartialEq, Eq)]
pub enum Error {
    /// A dictionary has no entry under `word`.
    NotFound { word: String },
    /// A value of kind `found` was read as a value of kind `expected`.
    WrongObjectType { expected: &'static str, found: &'static str },
    /// A dictionary's `Type` tag names `found_type` where `expected_type` was asked for.
    TypeMismatch { expected_type: String, found_type: String },
    /// A malformed shape that has no kind of its own.
    Msg(String),
}

} // verus!
