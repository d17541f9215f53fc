//! The closed set of failures a run can end in, each carrying a message for
//! the user, and the exit status every failure maps to.

use vstd::prelude::*;

verus! {

/// The kinds of failure: the configuration file is missing, the location
/// prompt got a blank answer, the geocoding service failed (a network error,
/// a malformed response, or an empty result set), or the configuration file
/// could not be read or written.
#[derive(Clone, Copy, Debug, PartialEq, Eq, Structural)]
pub enum ErrorKind {
    NotFound,
    EmptyInput,
    RemoteFailure,
    IoFailure,
}

/// A failure: its kind, and the message reported to the user.
#[derive(Debug)]
pub struct SetupError {
    pub kind: ErrorKind,
    pub message: String,
}

impl SetupError {
    /// A fresh error of the given kind carrying the given message.
    pub fn new(kind: ErrorKind, message: &str) -> (r: SetupError)
        ensures
            r.kind == kind,
            r.message@ == message@,
    {
        SetupError { kind, message: message.to_owned() }
    }

    /// The process exit status this failure maps to: every failure ends the
    /// run with status 1.
    pub fn exit_code(&self) -> (r: u8)
        ensures
            r == 1,
    {
        1
    }

    /// The message carried by this error.
    pub fn message(&self) -> (r: &str)
        ensures
            r@ == self.message@,
    {
        self.message.as_str()
    }
}

} // verus!
