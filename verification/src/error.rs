//! Error taxonomy of the library.

use vstd::prelude::*;

verus! {

/// Errors surfaced by account management, code generation and persistence.
#[derive(Debug, PartialEq, Eq)]
pub enum AppError {
    /// The account's secret is not valid Base32, discovered when a code
    /// was requested.
    InvalidSecret,
    /// The system clock is unavailable or reports a time before the Unix
    /// epoch.
    ClockError,
    /// An operation keyed by account name found no account of that name;
    /// carries the name that was looked up.
    NotFound(String),
    /// An I/O failure while reading or writing a file.
    FileError(String),
    /// An I/O failure caused by missing permissions; kept apart from
    /// `FileError` so callers can show a remediation hint.
    PermissionError(String),
    /// Persisted text could not be parsed as the expected record format.
    ParseError(String),
    /// A caller-supplied value was rejected by validation.
    InvalidInput(String),
}

impl AppError {
    /// The category prefix used when an error is rendered, so that the
    /// presentation layer can show a stable label for each variant.
    pub fn category(&self) -> (r: &'static str)
        ensures
            r@ == match self {
                AppError::InvalidSecret => "invalid secret"@,
                AppError::ClockError => "clock error"@,
                AppError::NotFound(_) => "not found"@,
                AppError::FileError(_) => "file error"@,
                AppError::PermissionError(_) => "permission error"@,
                AppError::ParseError(_) => "parse error"@,
                AppError::InvalidInput(_) => "invalid input"@,
            },
    {
        match self {
            AppError::InvalidSecret => "invalid secret",
            AppError::ClockError => "clock error",
            AppError::NotFound(_) => "not found",
            AppError::FileError(_) => "file error",
            AppError::PermissionError(_) => "permission error",
            AppError::ParseError(_) => "parse error",
            AppError::InvalidInput(_) => "invalid input",
        }
    }
}

} // verus!
