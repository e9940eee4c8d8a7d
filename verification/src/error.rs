//! The uniform error type of the service boundary. Every storage failure
//! is surfaced as an internal error; no internal detail is leaked to the
//! client.

use vstd::prelude::*;
use vstd::string::StringExecFns;

verus! {

/// An error crossing the service boundary.
pub enum WTError {
    /// Some storage or infrastructure operation failed; `String` carries
    /// the server-side detail (logged, never sent to the client).
    InternalError(String),
}

impl WTError {
    /// Wraps a server-side failure detail.
    pub fn internal(detail: String) -> (e: WTError)
        ensures
            e == WTError::InternalError(detail),
    {
        WTError::InternalError(detail)
    }

    /// The HTTP status this error maps to.
    pub fn status_code(&self) -> (c: u16)
        ensures
            c == 500,
    {
        match self {
            WTError::InternalError(_) => 500,
        }
    }

    /// The client-visible text of this error.
    pub fn message(&self) -> (m: String)
        ensures
            m@ == "An internal error occurred."@,
    {
        match self {
            WTError::InternalError(_) => String::from_str("An internal error occurred."),
        }
    }
}

} // verus!
