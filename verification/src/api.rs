//! Failures as the gateway answers them.

use vstd::prelude::*;
use crate::error::{Failure, SqlError};
use crate::text::{owned, same};

verus! {

/// A failure of a request: its HTTP status, a stable code and a message for people.
#[derive(Debug, PartialEq, Eq)]
pub struct ApiError {
    pub status: u16,
    pub code: String,
    pub message: String,
}

/// [`ApiError`] in specifications.
pub struct ApiFailure {
    pub status: u16,
    pub code: Seq<char>,
    pub message: Seq<char>,
}

impl View for ApiError {
    type V = ApiFailure;

    open spec fn view(&self) -> ApiFailure {
        ApiFailure { status: self.status, code: self.code@, message: self.message@ }
    }
}

impl DeepView for ApiError {
    type V = ApiFailure;

    open spec fn deep_view(&self) -> ApiFailure {
        self@
    }
}

/// The result of a request.
pub type Answer<T> = std::result::Result<T, ApiError>;

/// The result of a request in specifications.
pub type ApiOutcome<T> = std::result::Result<T, ApiFailure>;

/// What the result of a request stands for.
pub open spec fn answered<T: DeepView>(result: Answer<T>) -> ApiOutcome<T::V> {
    match result {
        Ok(value) => Ok(value.deep_view()),
        Err(error) => Err(error@),
    }
}

/// A refusal for want of authority.
pub open spec fn refusal(message: Seq<char>) -> ApiFailure {
    ApiFailure { status: 401, code: "PrivilegeError"@, message }
}

/// A request that makes no sense.
pub open spec fn mistake(message: Seq<char>) -> ApiFailure {
    ApiFailure { status: 400, code: "InvalidRequest"@, message }
}

/// A failure of the gateway itself, which says nothing of its cause.
pub open spec fn breakdown() -> ApiFailure {
    ApiFailure {
        status: 500,
        code: "ExecutionFailure"@,
        message: "Execution failed; consult gateway logs"@,
    }
}

/// A commit that the chain rejected, which says nothing of its cause.
pub open spec fn conflict() -> ApiFailure {
    ApiFailure {
        status: 409,
        code: "TransactionConflict"@,
        message: "Chain rejected the plan; refresh state and authorization before retrying"@,
    }
}

/// The status of a failed statement.
pub open spec fn status_of(code: Seq<char>) -> u16 {
    if code == "RlsViolation"@ || code == "PrivilegeError"@ {
        403
    } else if code == "ConstraintViolation"@ {
        409
    } else {
        400
    }
}

/// A failed statement as an answer.
pub open spec fn rejected(error: Failure) -> ApiFailure {
    ApiFailure { status: status_of(error.code), code: error.code, message: error.message }
}

impl ApiError {
    /// A refusal for want of authority.
    pub fn unauthorized(message: &str) -> (result: Self)
        ensures
            result@ == refusal(message@),
    {
        ApiError { status: 401, code: owned("PrivilegeError"), message: owned(message) }
    }

    /// A request that makes no sense.
    pub fn invalid(message: &str) -> (result: Self)
        ensures
            result@ == mistake(message@),
    {
        ApiError { status: 400, code: owned("InvalidRequest"), message: owned(message) }
    }

    /// A failure of the gateway itself, which says nothing of its cause.
    pub fn internal() -> (result: Self)
        ensures
            result@ == breakdown(),
    {
        ApiError {
            status: 500,
            code: owned("ExecutionFailure"),
            message: owned("Execution failed; consult gateway logs"),
        }
    }

    /// A commit that the chain rejected, which says nothing of its cause.
    pub fn chain() -> (result: Self)
        ensures
            result@ == conflict(),
    {
        ApiError {
            status: 409,
            code: owned("TransactionConflict"),
            message: owned("Chain rejected the plan; refresh state and authorization before retrying"),
        }
    }

    /// A failed statement as an answer.
    pub fn of(error: SqlError) -> (result: Self)
        ensures
            result@ == rejected(error@),
    {
        let code = error.code.as_str();
        let status: u16 = if same(code, "RlsViolation") || same(code, "PrivilegeError") {
            403
        } else if same(code, "ConstraintViolation") {
            409
        } else {
            400
        };
        ApiError { status, code: error.code, message: error.message }
    }
}

} // verus!
