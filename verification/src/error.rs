//! Failures of SQL statements.

use vstd::prelude::*;
use crate::text::owned;

verus! {

/// Why a statement was refused: a stable code and a message for people.
#[derive(Debug, PartialEq, Eq)]
pub struct SqlError {
    pub code: String,
    pub message: String,
}

/// A failure in specifications.
pub struct Failure {
    pub code: Seq<char>,
    pub message: Seq<char>,
}

impl View for SqlError {
    type V = Failure;

    open spec fn view(&self) -> Failure {
        Failure { code: self.code@, message: self.message@ }
    }
}

impl DeepView for SqlError {
    type V = Failure;

    open spec fn deep_view(&self) -> Failure {
        self@
    }
}

impl Clone for SqlError {
    fn clone(&self) -> (result: Self)
        ensures
            result@ == self@,
    {
        SqlError { code: self.code.clone(), message: self.message.clone() }
    }
}

/// The result of an operation that may be refused.
pub type Result<T> = std::result::Result<T, SqlError>;

/// The result of an operation in specifications.
pub type Outcome<T> = std::result::Result<T, Failure>;

/// What a result stands for.
pub open spec fn outcome<T: DeepView>(result: Result<T>) -> Outcome<T::V> {
    match result {
        Ok(value) => Ok(value.deep_view()),
        Err(error) => Err(error@),
    }
}

/// The failure with this code and message.
pub open spec fn failure(code: Seq<char>, message: Seq<char>) -> Failure {
    Failure { code, message }
}

/// The failure for something outside the supported dialect.
pub open spec fn unsupported_failure(message: Seq<char>) -> Failure {
    failure("UnsupportedFeature"@, message)
}

/// The failure with this code and message.
pub fn err(code: &str, message: &str) -> (result: SqlError)
    ensures
        result@ == failure(code@, message@),
{
    SqlError { code: owned(code), message: owned(message) }
}

/// The failure for something outside the supported dialect.
pub fn unsupported(message: &str) -> (result: SqlError)
    ensures
        result@ == unsupported_failure(message@),
{
    err("UnsupportedFeature", message)
}

impl SqlError {
    /// The code and the message as one line.
    pub fn to_text(&self) -> (result: String)
        ensures
            result@ == self.code@ + ": "@ + self.message@,
    {
        crate::text::cat3(self.code.as_str(), ": ", self.message.as_str())
    }
}

} // verus!
