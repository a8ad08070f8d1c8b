//! Error types of the engine.
//!
//! Payloads are plain strings: where an underlying failure (I/O, HTTP, JSON)
//! is folded in, its rendered message is carried, so the engine itself stays
//! free of outside error types.

use vstd::prelude::*;
use vstd::string::StringExecFns;

verus! {

/// Every failure the engine can report.
#[derive(Clone, Debug)]
pub enum AppError {
    /// The upstream model API refused or failed a request.
    ApiError(String),
    /// A structured response could not be parsed as JSON.
    JsonParseError(String),
    /// A directory or file operation failed.
    IoError(String),
    /// An HTTP transport failure.
    HttpError(String),
    /// A required environment variable is missing or unusable.
    EnvError(String),
    /// A shell command could not be run or exited unsuccessfully.
    CommandError(String),
    /// The upstream response was unusable (blocked, empty, or suspicious).
    ResponseError(String),
}

/// A candidate output path that failed validation: it contains a
/// parent-directory traversal segment or is rooted. Such a path must never
/// escape the configured output directory.
#[derive(Clone, Debug)]
pub enum PathError {
    Suspicious(String),
}

impl AppError {
    /// The rendered message of the error: a fixed prefix naming the kind,
    /// then the payload.
    pub open spec fn spec_message(&self) -> Seq<char> {
        match self {
            AppError::ApiError(m) => "API error: "@ + m@,
            AppError::JsonParseError(m) => "JSON parsing error: "@ + m@,
            AppError::IoError(m) => "IO error: "@ + m@,
            AppError::HttpError(m) => "HTTP error: "@ + m@,
            AppError::EnvError(m) => "Environment error: "@ + m@,
            AppError::CommandError(m) => "Command execution error: "@ + m@,
            AppError::ResponseError(m) => "Response error: "@ + m@,
        }
    }

    /// Renders the error as a single line of text.
    pub fn message(&self) -> (r: String)
        ensures
            r@ == self.spec_message(),
    {
        let mut s: String = match self {
            AppError::ApiError(_) => "API error: ".to_owned(),
            AppError::JsonParseError(_) => "JSON parsing error: ".to_owned(),
            AppError::IoError(_) => "IO error: ".to_owned(),
            AppError::HttpError(_) => "HTTP error: ".to_owned(),
            AppError::EnvError(_) => "Environment error: ".to_owned(),
            AppError::CommandError(_) => "Command execution error: ".to_owned(),
            AppError::ResponseError(_) => "Response error: ".to_owned(),
        };
        let payload: &String = match self {
            AppError::ApiError(m) => m,
            AppError::JsonParseError(m) => m,
            AppError::IoError(m) => m,
            AppError::HttpError(m) => m,
            AppError::EnvError(m) => m,
            AppError::CommandError(m) => m,
            AppError::ResponseError(m) => m,
        };
        s.append(payload.as_str());
        s
    }
}

impl From<String> for AppError {
    /// A bare string names a response-level failure.
    fn from(error: String) -> (r: Self) {
        AppError::ResponseError(error)
    }
}

impl vstd::std_specs::convert::FromSpecImpl<String> for AppError {
    open spec fn obeys_from_spec() -> bool {
        true
    }

    open spec fn from_spec(t: String) -> Self {
        AppError::ResponseError(t)
    }
}

} // verus!
