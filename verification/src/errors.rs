//! What a caller that sends or receives is told when it fails.
//!
//! The errors carry the failure `E` that the transport reported as it came.

use vstd::prelude::*;

verus! {

/// Why nothing was received.
#[derive(Debug, PartialEq, Eq)]
pub enum ReadError<E> {
    /// There was nothing to receive.
    EmptyBuffer,
    /// The transport failed.
    FailedToRead(E),
}

/// Why nothing was sent.
#[derive(Debug, PartialEq, Eq)]
pub enum WriteError<E> {
    /// There was nothing to send.
    EmptyBuffer,
    /// The transport failed.
    FailedToWrite(E),
}

/// The kinds of failure that a connection reports by itself.
#[derive(Clone, Copy, Debug, PartialEq, Eq, Structural)]
pub enum IoErrorKind {
    /// The connection is gone.
    ConnectionAborted,
    /// There is no room for more.
    StorageFull,
}

/// A failure that a connection reports by itself.
#[derive(Clone, Copy, Debug, PartialEq, Eq)]
pub struct IoError {
    pub kind: IoErrorKind,
    /// The failure in words.
    pub message: &'static str,
}

impl<E> ReadError<E> {
    /// The error in words, with those of the transport's failure as its cause.
    pub fn message(&self, cause: &str) -> (text: String)
        ensures
            text@ == (match self {
                ReadError::EmptyBuffer => "read error: buffer is empty"@,
                ReadError::FailedToRead(_) => "read error: failed to read: "@ + cause@,
            }),
    {
        match self {
            ReadError::EmptyBuffer => "read error: buffer is empty".to_owned(),
            ReadError::FailedToRead(_) => {
                let mut text = "read error: failed to read: ".to_owned();
                text.append(cause);
                text
            },
        }
    }
}

impl<E> WriteError<E> {
    /// The error in words, with those of the transport's failure as its cause.
    pub fn message(&self, cause: &str) -> (text: String)
        ensures
            text@ == (match self {
                WriteError::EmptyBuffer => "write error: buffer is empty"@,
                WriteError::FailedToWrite(_) => "write error: failed to write: "@ + cause@,
            }),
    {
        match self {
            WriteError::EmptyBuffer => "write error: buffer is empty".to_owned(),
            WriteError::FailedToWrite(_) => {
                let mut text = "write error: failed to write: ".to_owned();
                text.append(cause);
                text
            },
        }
    }
}

} // verus!
