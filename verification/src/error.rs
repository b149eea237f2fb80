//! The error taxonomy of the engine.  Failures reported by outside
//! code are carried as their rendered message.

use vstd::prelude::*;

verus! {

/// Everything an engine operation can report.
#[derive(Debug)]
pub enum Error {
    /// Remove was called for a key absent from the keydir.
    NoKey(String),
    /// The log bytes at a keydir-recorded offset do not decode to a
    /// set record for the expected key.
    Offset(String),
    /// An underlying file-system failure, reported by the host.
    Io(String),
    /// A complete record line failed to decode.
    InvalidData(String),
    /// Byte-to-text conversion failed on an engine value.
    Utf8Error(String),
    /// A failure reported by the embedded alternative engine.
    Sled(String),
    /// A thread-pool could not be provisioned.
    ThreadPoolBuild(String),
    /// An ad-hoc startup or configuration failure.
    Other(String),
}

impl Error {
    /// The human-readable message carried by this error.
    pub fn message(&self) -> (r: &String)
        ensures
            r@ == self.spec_message(),
    {
        match self {
            Error::NoKey(m) => m,
            Error::Offset(m) => m,
            Error::Io(m) => m,
            Error::InvalidData(m) => m,
            Error::Utf8Error(m) => m,
            Error::Sled(m) => m,
            Error::ThreadPoolBuild(m) => m,
            Error::Other(m) => m,
        }
    }

    /// The message as a character sequence.
    pub open spec fn spec_message(&self) -> Seq<char> {
        match self {
            Error::NoKey(m) => m@,
            Error::Offset(m) => m@,
            Error::Io(m) => m@,
            Error::InvalidData(m) => m@,
            Error::Utf8Error(m) => m@,
            Error::Sled(m) => m@,
            Error::ThreadPoolBuild(m) => m@,
            Error::Other(m) => m@,
        }
    }
}

} // verus!
