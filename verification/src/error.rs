//! Error taxonomy: fatal load-time errors, lenient-parse diagnostics, HTTP
//! transport failures and substitution failures.
//!
//! Each error renders itself through a `message` method that returns a
//! `String`; the front end prints that text.

use vstd::prelude::*;

verus! {

/// An error raised while reading or scanning a request file.
#[derive(Debug, Clone)]
pub enum ParseError {
    /// A token that does not name a known HTTP method.
    InvalidMethod(String),
    /// A request that cannot be assembled from its lines.
    InvalidFormat(String),
    /// The file could not be read; the payload is the system's message.
    IoError(String),
}

/// An error raised while executing a request over the network.
#[derive(Debug, Clone)]
pub enum HttpError {
    /// The transport failed; the payload is a human-readable reason.
    RequestFailed(String),
    /// The URL was rejected before sending.
    InvalidUrl(String),
    /// The transport gave up waiting.
    Timeout,
}

/// An error raised while resolving `{{name}}` placeholders.
#[derive(Debug, Clone)]
pub enum VariableError {
    /// The named placeholder has no binding in the variable table.
    UndefinedVariable(String),
}

/// The crate-level error, one variant per failure domain.
#[derive(Debug, Clone)]
pub enum Error {
    Parse(ParseError),
    Http(HttpError),
    Variable(VariableError),
    /// An operating-system I/O failure, carried as its message text.
    Io(String),
}

impl ParseError {
    /// The human-readable text of this error.
    pub fn message(&self) -> (r: String)
        ensures
            r@ == self.message_view(),
    {
        match self {
            ParseError::InvalidMethod(m) => String::from_str("Invalid HTTP method: ").concat(
                m.as_str(),
            ),
            ParseError::InvalidFormat(m) => String::from_str("Invalid request format: ").concat(
                m.as_str(),
            ),
            ParseError::IoError(m) => String::from_str("IO error: ").concat(m.as_str()),
        }
    }
}

impl HttpError {
    /// The human-readable text of this error.
    pub fn message(&self) -> (r: String)
        ensures
            r@ == self.message_view(),
    {
        match self {
            HttpError::RequestFailed(m) => String::from_str("Request failed: ").concat(m.as_str()),
            HttpError::InvalidUrl(m) => String::from_str("Invalid URL: ").concat(m.as_str()),
            HttpError::Timeout => String::from_str("Timeout"),
        }
    }
}

impl VariableError {
    /// The human-readable text of this error, naming the unresolved token.
    pub fn message(&self) -> (r: String)
        ensures
            r@ == self.message_view(),
    {
        match self {
            VariableError::UndefinedVariable(n) => String::from_str("Undefined variable: ").concat(
                n.as_str(),
            ),
        }
    }
}

impl Error {
    /// The human-readable text of this error.
    pub fn message(&self) -> (r: String)
        ensures
            r@ == match self {
                Error::Parse(e) => "Parse error: "@ + e.message_view(),
                Error::Http(e) => "HTTP error: "@ + e.message_view(),
                Error::Variable(e) => "Variable error: "@ + e.message_view(),
                Error::Io(m) => "IO error: "@ + m@,
            },
    {
        match self {
            Error::Parse(e) => String::from_str("Parse error: ").concat(e.message().as_str()),
            Error::Http(e) => String::from_str("HTTP error: ").concat(e.message().as_str()),
            Error::Variable(e) => String::from_str("Variable error: ").concat(e.message().as_str()),
            Error::Io(m) => String::from_str("IO error: ").concat(m.as_str()),
        }
    }
}

impl ParseError {
    /// What [`ParseError::message`] returns, as a sequence.
    pub open spec fn message_view(&self) -> Seq<char> {
        match self {
            ParseError::InvalidMethod(m) => "Invalid HTTP method: "@ + m@,
            ParseError::InvalidFormat(m) => "Invalid request format: "@ + m@,
            ParseError::IoError(m) => "IO error: "@ + m@,
        }
    }
}

impl HttpError {
    /// What [`HttpError::message`] returns, as a sequence.
    pub open spec fn message_view(&self) -> Seq<char> {
        match self {
            HttpError::RequestFailed(m) => "Request failed: "@ + m@,
            HttpError::InvalidUrl(m) => "Invalid URL: "@ + m@,
            HttpError::Timeout => "Timeout"@,
        }
    }
}

impl VariableError {
    /// What [`VariableError::message`] returns, as a sequence.
    pub open spec fn message_view(&self) -> Seq<char> {
        match self {
            VariableError::UndefinedVariable(n) => "Undefined variable: "@ + n@,
        }
    }
}

} // verus!
