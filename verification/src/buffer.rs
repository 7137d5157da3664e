//! The `bytes::BytesMut` buffers that the rest of the library moves around.
//!
//! A `BytesMut` is known here by its content alone. How much room it has
//! allocated is never stated: no decision of the library rests on it.
//!
//! Everything in this file is trusted. No buffer can hold more than
//! `isize::MAX` bytes, the limit of the `Vec<u8>` behind it, so the operations
//! that grow one ask that the new length stay within it.

use bytes::{Buf, BufMut, BytesMut};
use std::sync::Arc;
use vstd::prelude::*;

verus! {

/// `bytes::BytesMut`, a growable and splittable run of bytes.
#[verifier::external_type_specification]
#[verifier::external_body]
pub struct ExBytesMut(BytesMut);

/// The bytes that a `BytesMut` holds, in order.
pub uninterp spec fn content(buf: BytesMut) -> Seq<u8>;

/// The four bytes of `n`, the most significant one first.
pub open spec fn be_bytes(n: u32) -> Seq<u8> {
    seq![
        (n / 0x100_0000) as u8,
        (n / 0x1_0000 % 0x100) as u8,
        (n / 0x100 % 0x100) as u8,
        (n % 0x100) as u8,
    ]
}

/// `BytesMut::new` gives a buffer that holds nothing.
pub assume_specification[ BytesMut::new ]() -> (buf: BytesMut)
    ensures
        content(buf) == Seq::<u8>::empty(),
;

/// `BytesMut::with_capacity` gives a buffer that holds nothing.
pub assume_specification[ BytesMut::with_capacity ](capacity: usize) -> (buf: BytesMut)
    requires
        capacity <= isize::MAX,
    ensures
        content(buf) == Seq::<u8>::empty(),
;

/// `BytesMut::len` counts the bytes held; an allocation never passes
/// `isize::MAX` bytes, so neither does the count.
pub assume_specification[ BytesMut::len ](buf: &BytesMut) -> (n: usize)
    ensures
        n == content(*buf).len(),
        n <= isize::MAX,
;

/// `BytesMut::is_empty` tells whether the buffer holds nothing.
pub assume_specification[ BytesMut::is_empty ](buf: &BytesMut) -> (empty: bool)
    ensures
        empty == (content(*buf).len() == 0),
;

/// `BytesMut::split` takes everything out and leaves an empty buffer.
pub assume_specification[ BytesMut::split ](buf: &mut BytesMut) -> (all: BytesMut)
    ensures
        content(all) == content(*old(buf)),
        content(*final(buf)) == Seq::<u8>::empty(),
;

/// `BytesMut::split_to` takes out the first `at` bytes; it panics past the end.
pub assume_specification[ BytesMut::split_to ](buf: &mut BytesMut, at: usize) -> (head: BytesMut)
    requires
        at <= content(*old(buf)).len(),
    ensures
        content(head) == content(*old(buf)).take(at as int),
        content(*final(buf)) == content(*old(buf)).skip(at as int),
;

/// `BytesMut::split_off` takes out what follows the first `at` bytes. The
/// function also accepts an index past the content but within the allocated
/// room, which is not claimed here.
pub assume_specification[ BytesMut::split_off ](buf: &mut BytesMut, at: usize) -> (tail: BytesMut)
    requires
        at <= content(*old(buf)).len(),
    ensures
        content(tail) == content(*old(buf)).skip(at as int),
        content(*final(buf)) == content(*old(buf)).take(at as int),
;

/// `BytesMut::unsplit` appends the bytes of another buffer.
pub assume_specification[ BytesMut::unsplit ](buf: &mut BytesMut, other: BytesMut)
    requires
        content(*old(buf)).len() + content(other).len() <= isize::MAX,
    ensures
        content(*final(buf)) == content(*old(buf)) + content(other),
;

/// `BytesMut::clear` drops the content.
pub assume_specification[ BytesMut::clear ](buf: &mut BytesMut)
    ensures
        content(*final(buf)) == Seq::<u8>::empty(),
;

/// `BytesMut::reserve` makes room and leaves the content as it is.
pub assume_specification[ BytesMut::reserve ](buf: &mut BytesMut, additional: usize)
    requires
        content(*old(buf)).len() + additional <= isize::MAX,
    ensures
        content(*final(buf)) == content(*old(buf)),
;

/// `BytesMut::truncate` keeps the first `len` bytes, or all of them where
/// there are no more than that.
pub assume_specification[ BytesMut::truncate ](buf: &mut BytesMut, len: usize)
    ensures
        content(*final(buf)) == if len <= content(*old(buf)).len() {
            content(*old(buf)).take(len as int)
        } else {
            content(*old(buf))
        },
;

/// `BytesMut::resize` cuts the content to `new_len` bytes, or fills it up to
/// that length with `value`.
pub assume_specification[ BytesMut::resize ](buf: &mut BytesMut, new_len: usize, value: u8)
    requires
        new_len <= isize::MAX,
    ensures
        content(*final(buf)) == Seq::new(
            new_len as nat,
            |i: int|
                if i < content(*old(buf)).len() {
                    content(*old(buf))[i]
                } else {
                    value
                },
        ),
;

/// `BytesMut::clone` copies the content into a buffer of its own.
pub assume_specification[ <BytesMut as Clone>::clone ](buf: &BytesMut) -> (copy: BytesMut)
    ensures
        content(copy) == content(*buf),
;

/// `Buf::get_u8` of a `BytesMut` takes out the first byte; it panics on an
/// empty buffer.
#[verifier::external_body]
pub(crate) fn get_u8(buf: &mut BytesMut) -> (byte: u8)
    requires
        content(*old(buf)).len() > 0,
    ensures
        byte == content(*old(buf))[0],
        content(*final(buf)) == content(*old(buf)).skip(1),
{
    buf.get_u8()
}

/// `Buf::advance` of a `BytesMut` drops the first `count` bytes; it panics past
/// the end.
#[verifier::external_body]
pub(crate) fn advance(buf: &mut BytesMut, count: usize)
    requires
        count <= content(*old(buf)).len(),
    ensures
        content(*final(buf)) == content(*old(buf)).skip(count as int),
{
    buf.advance(count)
}

/// `BufMut::put_u8` of a `BytesMut` appends one byte.
#[verifier::external_body]
pub(crate) fn put_u8(buf: &mut BytesMut, byte: u8)
    requires
        content(*old(buf)).len() + 1 <= isize::MAX,
    ensures
        content(*final(buf)) == content(*old(buf)).push(byte),
{
    buf.put_u8(byte)
}

/// `BufMut::put_u32` of a `BytesMut` appends the four bytes of a number, the
/// most significant one first.
#[verifier::external_body]
pub(crate) fn put_u32(buf: &mut BytesMut, n: u32)
    requires
        content(*old(buf)).len() + 4 <= isize::MAX,
    ensures
        content(*final(buf)) == content(*old(buf)) + be_bytes(n),
{
    buf.put_u32(n)
}

/// `BufMut::put_slice` of a `BytesMut` appends a slice.
#[verifier::external_body]
pub(crate) fn put_slice(buf: &mut BytesMut, bytes: &[u8])
    requires
        content(*old(buf)).len() + bytes@.len() <= isize::MAX,
    ensures
        content(*final(buf)) == content(*old(buf)) + bytes@,
{
    buf.put_slice(bytes)
}

/// `BytesMut::from` of a slice copies the slice.
#[verifier::external_body]
pub(crate) fn from_slice(bytes: &[u8]) -> (buf: BytesMut)
    ensures
        content(buf) == bytes@,
{
    BytesMut::from(bytes)
}

/// `BytesMut::deref` lends the content as a slice.
#[verifier::external_body]
pub(crate) fn as_slice(buf: &BytesMut) -> (bytes: &[u8])
    ensures
        bytes@ == content(*buf),
{
    &buf[..]
}

/// `Arc::<[u8]>::from` of a slice copies the slice.
#[verifier::external_body]
pub(crate) fn share(bytes: &[u8]) -> (shared: Arc<[u8]>)
    ensures
        (*shared)@ == bytes@,
{
    Arc::from(bytes)
}

} // verus!
