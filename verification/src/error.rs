//! Errors of the planner.

use vstd::prelude::*;

verus! {

/// What went wrong.
#[derive(Debug, Clone, Copy, PartialEq, Eq, Structural)]
pub enum ErrorKind {
    /// The caller's data breaks a rule of the table format.
    DataInvalid,
    /// A state that a well-formed input does not lead to.
    Unexpected,
    /// A plan cannot be built.
    Plan,
    /// A plan cannot be run as asked.
    Execution,
}

/// An error with a message for people.
#[derive(Debug, PartialEq, Eq)]
pub struct Error {
    pub kind: ErrorKind,
    pub message: String,
}

/// What an [`Error`] is.
pub struct ErrorView {
    pub kind: ErrorKind,
    pub message: Seq<char>,
}

impl View for Error {
    type V = ErrorView;

    open spec fn view(&self) -> ErrorView {
        ErrorView { kind: self.kind, message: self.message@ }
    }
}

impl Error {
    /// An error of the given kind.
    pub fn new(kind: ErrorKind, message: &str) -> (r: Error)
        ensures
            r@ == (ErrorView { kind, message: message@ }),
    {
        Error { kind, message: message.to_owned() }
    }

    /// What went wrong.
    pub fn kind(&self) -> (r: ErrorKind)
        ensures
            r == self.kind,
    {
        self.kind
    }
}

} // verus!
