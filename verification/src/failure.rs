//! Failures that are reported to a caller.

use vstd::prelude::*;

verus! {

/// What sort of failure it is.
#[derive(Clone, Copy, Debug, PartialEq, Eq, Structural)]
pub enum FailureKind {
    InvalidInput,
    InvalidData,
    NotFound,
    PermissionDenied,
    Interrupted,
    TimedOut,
    BrokenPipe,
    Other,
}

/// A failure and what to tell of it.
#[derive(Clone, Debug, PartialEq, Eq)]
pub struct Failure {
    pub kind: FailureKind,
    pub message: String,
}

impl View for Failure {
    type V = (FailureKind, Seq<char>);

    open spec fn view(&self) -> (FailureKind, Seq<char>) {
        (self.kind, self.message@)
    }
}

impl Failure {
    pub fn new(kind: FailureKind, message: &str) -> (r: Failure)
        ensures
            r@ == (kind, message@),
    {
        Failure { kind, message: message.to_owned() }
    }

    /// The message `head` followed by `tail`.
    pub fn about(kind: FailureKind, head: &str, tail: &str) -> (r: Failure)
        ensures
            r@ == (kind, head@ + tail@),
    {
        let mut message = head.to_owned();
        message.append(tail);
        Failure { kind, message }
    }
}

} // verus!
