//! The error that the application's commands hand back to the frontend.
use vstd::prelude::*;

verus! {

/// What kind of failure an [`AppCommandError`] reports.
#[derive(Debug, Clone, Copy, PartialEq, Eq, Structural)]
pub enum AppErrorCode {
    InvalidInput,
    ConfigurationInvalid,
    DatabaseError,
}

/// A command error: a kind, a human-readable message and an optional detail.
#[derive(Debug)]
pub struct AppCommandError {
    pub code: AppErrorCode,
    pub message: String,
    pub detail: Option<String>,
}

impl AppCommandError {
    /// The error is an invalid-input error with exactly this message and no detail.
    pub open spec fn is_invalid_input(self, message: Seq<char>) -> bool {
        &&& self.code == AppErrorCode::InvalidInput
        &&& self.message@ == message
        &&& self.detail is None
    }

    pub fn invalid_input(message: String) -> (e: AppCommandError)
        ensures
            e.is_invalid_input(message@),
    {
        AppCommandError { code: AppErrorCode::InvalidInput, message, detail: None }
    }

    pub fn configuration_invalid(message: String) -> (e: AppCommandError)
        ensures
            e.code == AppErrorCode::ConfigurationInvalid,
            e.message@ == message@,
            e.detail is None,
    {
        AppCommandError { code: AppErrorCode::ConfigurationInvalid, message, detail: None }
    }

    pub fn database_error(message: String) -> (e: AppCommandError)
        ensures
            e.code == AppErrorCode::DatabaseError,
            e.message@ == message@,
            e.detail is None,
    {
        AppCommandError { code: AppErrorCode::DatabaseError, message, detail: None }
    }

    /// The same error with `detail` attached.
    pub fn with_detail(self, detail: String) -> (e: AppCommandError)
        ensures
            e.code == self.code,
            e.message@ == self.message@,
            e.detail matches Some(d) && d@ == detail@,
    {
        AppCommandError { code: self.code, message: self.message, detail: Some(detail) }
    }
}

} // verus!
