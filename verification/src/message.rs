//! User-facing messages that the surrounding application shows as toasts.

use vstd::prelude::*;

verus! {

/// `std::path::PathBuf` carried opaquely in the saved-file message.
#[verifier::external_type_specification]
#[verifier::external_body]
pub struct ExPathBuf(std::path::PathBuf);

/// Relies on PathBuf::clone: the copy equals the original path.
pub assume_specification[ <std::path::PathBuf as Clone>::clone ](p: &std::path::PathBuf) -> (r:
    std::path::PathBuf)
    ensures
        r == *p,
;

/// A notification for the user, by severity, or the path a file was saved to.
#[derive(Debug, Clone)]
pub enum Message {
    Info(String),
    Warning(String),
    Error(String),
    LoadError(String),
    Saved(std::path::PathBuf),
}

impl Message {
    /// Wraps the text as an informational message.
    pub fn info(m: &str) -> (r: Self)
        ensures
            r matches Message::Info(s) && s@ == m@,
    {
        Self::Info(m.to_owned())
    }

    /// Wraps the text as a warning.
    pub fn warn(m: &str) -> (r: Self)
        ensures
            r matches Message::Warning(s) && s@ == m@,
    {
        Self::Warning(m.to_owned())
    }

    /// Wraps the text as an error message.
    pub fn err(m: &str) -> (r: Self)
        ensures
            r matches Message::Error(s) && s@ == m@,
    {
        Self::Error(m.to_owned())
    }
}

} // verus!
