//! Error types shared by the editor primitives.

use vstd::prelude::*;

verus! {

/// Errors that can occur in editor operations.
#[derive(Debug)]
#[non_exhaustive]
pub enum Error {
    /// Expression evaluation failed.
    Expr(String),
    /// History operation failed.
    History(String),
    /// Command execution failed.
    Command(String),
    /// Serialization/deserialization failed.
    Serde(String),
}

/// Result type alias for editor operations.
pub type Result<T> = core::result::Result<T, Error>;

/// The message an error displays: its kind, a colon, and its detail.
pub open spec fn error_message(e: Error) -> Seq<char> {
    match e {
        Error::Expr(s) => "expression error: "@ + s@,
        Error::History(s) => "history error: "@ + s@,
        Error::Command(s) => "command error: "@ + s@,
        Error::Serde(s) => "serialization error: "@ + s@,
    }
}

impl Error {
    /// The message this error displays.
    pub fn to_string(&self) -> (m: String)
        ensures
            m@ == error_message(*self),
    {
        let (prefix, detail) = match self {
            Error::Expr(s) => ("expression error: ", s),
            Error::History(s) => ("history error: ", s),
            Error::Command(s) => ("command error: ", s),
            Error::Serde(s) => ("serialization error: ", s),
        };
        let mut m = prefix.to_owned();
        m.append(detail.as_str());
        m
    }
}

} // verus!
