//! The library's error type: a coarse kind tag together with a message.

use vstd::prelude::*;

verus! {

/// The broad class an error falls into. Validation failures of the geometry
/// core are `Abstract`; `Window` and `Canvas` classify failures reported by a
/// rendering host.
#[derive(Debug, Clone, Copy, PartialEq, Eq, Structural)]
pub enum ErrorKind {
    Abstract,
    Window,
    Canvas,
}

/// An error: its kind and a human-readable message.
#[derive(Debug)]
pub struct Error {
    kind: ErrorKind,
    error: String,
}

impl Error {
    pub closed spec fn spec_kind(self) -> ErrorKind {
        self.kind
    }

    /// The message, viewed as a character sequence.
    pub closed spec fn spec_message(self) -> Seq<char> {
        self.error@
    }

    pub fn new(kind: ErrorKind, error: String) -> (r: Self)
        ensures
            r.spec_kind() == kind,
            r.spec_message() == error@,
    {
        Error { kind, error }
    }

    pub fn kind(&self) -> (r: ErrorKind)
        ensures
            r == self.spec_kind(),
    {
        self.kind
    }

    pub fn message(&self) -> (r: &String)
        ensures
            r@ == self.spec_message(),
    {
        &self.error
    }
}

impl vstd::std_specs::convert::FromSpecImpl<String> for Error {
    open spec fn obeys_from_spec() -> bool {
        true
    }

    closed spec fn from_spec(e: String) -> Self {
        Error { kind: ErrorKind::Abstract, error: e }
    }
}

impl From<String> for Error {
    fn from(e: String) -> (r: Self)
        ensures
            r.spec_kind() == ErrorKind::Abstract,
            r.spec_message() == e@,
    {
        Error { kind: ErrorKind::Abstract, error: e }
    }
}

impl vstd::std_specs::convert::FromSpecImpl<String> for ErrorKind {
    open spec fn obeys_from_spec() -> bool {
        true
    }

    open spec fn from_spec(e: String) -> Self {
        ErrorKind::Abstract
    }
}

impl From<String> for ErrorKind {
    fn from(e: String) -> (r: Self) {
        ErrorKind::Abstract
    }
}

} // verus!
