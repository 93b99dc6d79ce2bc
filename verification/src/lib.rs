//! An interactive HTTP request runner: a parser for plain-text request
//! files, a `{{name}}` variable-substitution engine, and the session state
//! machine that drives a terminal front end.

pub mod app;
pub mod chars;
pub mod error;
pub mod events;
pub mod parser;
pub mod request;
pub mod response;
pub mod strmap;
pub mod variable;

pub use app::{App, Focus, HistoryEntry, ResponseTab};
pub use error::{Error, HttpError, ParseError, VariableError};
pub use events::{handle_key_event, EventResult, Key};
pub use parser::{Parser, RequestBuilder};
pub use request::{HttpFile, Method, Request};
pub use response::{error_response, Response};
pub use strmap::StrMap;
pub use variable::{resolve_request, substitute};
