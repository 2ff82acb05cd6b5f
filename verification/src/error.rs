//! How failures and answers are reported.

use crate::custom_extractor::DontLog;
use vstd::prelude::*;

verus! {

/// Why a request could not be answered.
#[derive(Debug, Clone)]
pub enum WebError {
    Other(String),
}

/// What is sent in place of an answer.
#[derive(Debug, Clone)]
pub struct ErrorResponse {
    pub reason: &'static str,
    pub message: String,
}

impl WebError {
    /// The status of the answer, and what is sent.
    pub fn into_response(&self) -> (r: (u16, ErrorResponse))
        ensures
            match self {
                WebError::Other(error) => r.0 == 500 && r.1.reason@ == "other"@ && r.1.message@
                    == error@,
            },
    {
        match self {
            WebError::Other(error) => (
                500,
                ErrorResponse { reason: "other", message: error.clone() },
            ),
        }
    }
}

/// How loudly an answer is reported.
#[derive(Debug, Clone, Copy, PartialEq, Eq, Structural)]
pub enum LogLevel {
    Debug,
    Info,
}

/// How loudly an answer is reported: quietly if it is not worth a line.
pub fn request_log_level(dont_log: Option<DontLog>) -> (r: LogLevel)
    ensures
        r == if dont_log is Some {
            LogLevel::Debug
        } else {
            LogLevel::Info
        },
{
    if dont_log.is_some() {
        LogLevel::Debug
    } else {
        LogLevel::Info
    }
}

} // verus!
