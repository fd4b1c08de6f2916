//! What goes wrong, as plain values.

use vstd::prelude::*;

verus! {

/// Why an operation of the client failed, in words for its caller.
#[derive(Debug)]
pub struct ClientError {
    pub reason: String,
}

impl View for ClientError {
    type V = Seq<char>;

    open spec fn view(&self) -> Seq<char> {
        self.reason@
    }
}

/// The sort of a failure on a connection.
#[derive(Clone, Copy, PartialEq, Eq, Structural, Debug)]
pub enum IoErrorKind {
    BrokenPipe,
    InvalidData,
    TimedOut,
    /// Anything that the operating system or a decoder reported.
    Other,
}

/// A failure on a connection.
#[derive(Debug)]
pub struct IoError {
    pub kind: IoErrorKind,
    pub message: String,
}

/// An [`IoError`] as a mathematical value.
pub struct IoErrorView {
    pub kind: IoErrorKind,
    pub message: Seq<char>,
}

impl View for IoError {
    type V = IoErrorView;

    open spec fn view(&self) -> IoErrorView {
        IoErrorView { kind: self.kind, message: self.message@ }
    }
}

impl ClientError {
    /// An error with the given reason.
    pub fn from_reason(reason: &str) -> (e: ClientError)
        ensures
            e@ == reason@,
    {
        ClientError { reason: reason.to_owned() }
    }
}

impl IoError {
    /// A failure of the given sort with the given message.
    pub fn new(kind: IoErrorKind, message: &str) -> (e: IoError)
        ensures
            e@ == (IoErrorView { kind, message: message@ }),
    {
        IoError { kind, message: message.to_owned() }
    }
}

} // verus!
