//! What a TCP connection makes of the outcome of each system call.

use crate::buffer;
use crate::errors::{ReadError, WriteError};
use bytes::BytesMut;
use vstd::prelude::*;

verus! {

/// The most bytes that are received at once.
pub const READ_BUF_SIZE: usize = 1024;

/// Why no client was accepted.
#[derive(Debug, PartialEq, Eq)]
pub enum TcpServerError<E> {
    /// The listener failed.
    IoError(E),
}

/// A buffer for the next bytes to be received, filled with zeros.
pub fn receive_buffer() -> (buf: BytesMut)
    ensures
        buffer::content(buf) == Seq::new(READ_BUF_SIZE as nat, |i: int| 0u8),
{
    let mut buf = BytesMut::with_capacity(READ_BUF_SIZE);
    buf.resize(READ_BUF_SIZE, 0);
    assert(buffer::content(buf) =~= Seq::new(READ_BUF_SIZE as nat, |i: int| 0u8));
    buf
}

/// What a caller receives once a read into `buf` has ended: as many of its first
/// bytes as were read. A read of nothing means that the connection is closed.
pub fn received<E>(buf: BytesMut, outcome: Result<usize, E>) -> (result: Result<
    BytesMut,
    ReadError<E>,
>)
    ensures
        match outcome {
            Err(error) => result == Err::<BytesMut, _>(ReadError::FailedToRead(error)),
            Ok(count) => if count == 0 {
                result == Err::<BytesMut, _>(ReadError::<E>::EmptyBuffer)
            } else if count <= buffer::content(buf).len() {
                result matches Ok(bytes) && buffer::content(bytes) == buffer::content(buf).take(
                    count as int,
                )
            } else {
                result matches Ok(bytes) && buffer::content(bytes) == buffer::content(buf)
            },
        },
{
    let count = match outcome {
        Ok(count) => count,
        Err(error) => {
            return Err(ReadError::FailedToRead(error));
        },
    };
    if count == 0 {
        return Err(ReadError::EmptyBuffer);
    }
    let mut buf = buf;
    buf.truncate(count);
    Ok(buf)
}

/// Whether `bytes` are worth sending: nothing is not.
pub fn sendable<E>(bytes: &[u8]) -> (result: Result<(), WriteError<E>>)
    ensures
        result == (if bytes@.len() == 0 {
            Err(WriteError::<E>::EmptyBuffer)
        } else {
            Ok(())
        }),
{
    if bytes.len() == 0 {
        return Err(WriteError::EmptyBuffer);
    }
    Ok(())
}

/// What a caller that sends is told once the write has ended.
pub fn sent<E>(outcome: Result<(), E>) -> (result: Result<(), WriteError<E>>)
    ensures
        result == (match outcome {
            Ok(()) => Ok(()),
            Err(error) => Err(WriteError::FailedToWrite(error)),
        }),
{
    match outcome {
        Ok(()) => Ok(()),
        Err(error) => Err(WriteError::FailedToWrite(error)),
    }
}

/// What a caller that waits for a client is told once the listener has answered.
pub fn accepted<S, E>(outcome: Result<S, E>) -> (result: Result<S, TcpServerError<E>>)
    ensures
        result == (match outcome {
            Ok(stream) => Ok(stream),
            Err(error) => Err(TcpServerError::IoError(error)),
        }),
{
    match outcome {
        Ok(stream) => Ok(stream),
        Err(error) => Err(TcpServerError::IoError(error)),
    }
}

} // verus!
