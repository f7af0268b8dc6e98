//! The error that engine operations return.

use vstd::prelude::*;

verus! {

/// What went wrong in an engine operation.
#[derive(Clone, Copy, Debug, PartialEq, Eq, Structural)]
pub enum ErrorKind {
    /// A file could not be opened, read, written, flushed or positioned.
    Io,
    /// A record could not be encoded or decoded.
    Codec,
    /// The engine's state contradicts its own rules.
    Invariant,
}

/// The single error type of the engine: a kind and a text for people.
#[derive(Clone, Debug, PartialEq, Eq)]
pub struct AsStdError {
    pub kind: ErrorKind,
    pub detail: String,
}

impl AsStdError {
    /// An error of the given kind.
    pub fn new(kind: ErrorKind, detail: &str) -> (e: AsStdError)
        ensures
            e.kind == kind,
            e.detail@ == detail@,
    {
        AsStdError { kind, detail: detail.to_owned() }
    }

    /// The error a host reports when the file system failed it.
    pub fn io(detail: &str) -> (e: AsStdError)
        ensures
            e.kind == ErrorKind::Io,
            e.detail@ == detail@,
    {
        AsStdError::new(ErrorKind::Io, detail)
    }

    /// The kind's name, a colon and the detail.
    pub fn message(&self) -> (text: String)
        ensures
            text@ == kind_name(self.kind) + ": "@ + self.detail@,
    {
        let name = match self.kind {
            ErrorKind::Io => "io",
            ErrorKind::Codec => "codec",
            ErrorKind::Invariant => "invariant",
        };
        let mut text = name.to_owned();
        text.append(": ");
        text.append(self.detail.as_str());
        text
    }
}

/// The name under which a kind appears in messages.
pub open spec fn kind_name(kind: ErrorKind) -> Seq<char> {
    match kind {
        ErrorKind::Io => "io"@,
        ErrorKind::Codec => "codec"@,
        ErrorKind::Invariant => "invariant"@,
    }
}

} // verus!
