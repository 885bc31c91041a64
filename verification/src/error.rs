//! The errors of the library.

use vstd::prelude::*;

verus! {

/// Why an operation failed.
#[derive(Debug, PartialEq, Eq)]
pub enum AppError {
    /// The input breaks a rule.
    Validation(String),
    /// What was asked for does not exist.
    NotFound(String),
    /// A store could not be read or written.
    Storage(String),
    /// Something else went wrong.
    Internal(String),
}

/// The result of an operation that can fail.
pub type Result<T> = std::result::Result<T, AppError>;

/// An error as its kind and its text.
#[verifier::ext_equal]
pub enum Failure {
    Validation(Seq<char>),
    NotFound(Seq<char>),
    Storage(Seq<char>),
    Internal(Seq<char>),
}

impl DeepView for AppError {
    type V = Failure;

    open spec fn deep_view(&self) -> Failure {
        match self {
            AppError::Validation(text) => Failure::Validation(text@),
            AppError::NotFound(text) => Failure::NotFound(text@),
            AppError::Storage(text) => Failure::Storage(text@),
            AppError::Internal(text) => Failure::Internal(text@),
        }
    }
}

/// The result as a value, or as the kind and the text of an error.
pub open spec fn outcome<T: DeepView>(
    r: std::result::Result<T, AppError>,
) -> std::result::Result<T::V, Failure> {
    match r {
        Ok(value) => Ok(value.deep_view()),
        Err(error) => Err(error.deep_view()),
    }
}

/// The text of a failure.
pub open spec fn failure_text(failure: Failure) -> Seq<char> {
    match failure {
        Failure::Validation(text) => text,
        Failure::NotFound(text) => text,
        Failure::Storage(text) => text,
        Failure::Internal(text) => text,
    }
}

impl AppError {
    /// The text of the error.
    pub fn message(&self) -> (r: &str)
        ensures
            r@ == failure_text(self.deep_view()),
    {
        match self {
            AppError::Validation(text) => text.as_str(),
            AppError::NotFound(text) => text.as_str(),
            AppError::Storage(text) => text.as_str(),
            AppError::Internal(text) => text.as_str(),
        }
    }
}

/// A validation error with a fixed text.
pub(crate) fn invalid(text: &str) -> (r: AppError)
    ensures
        r.deep_view() == Failure::Validation(text@),
{
    AppError::Validation(text.to_string())
}

} // verus!
