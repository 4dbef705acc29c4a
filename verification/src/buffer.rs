//! The buffer that an outgoing frame is assembled in: `bytes::BytesMut`,
//! made with room for the whole frame and filled front to back.

use bytes::{BufMut, BytesMut};
use vstd::prelude::*;

verus! {

/// `bytes::BytesMut`, taken as it is: its inside is not looked into.
#[verifier::external_type_specification]
#[verifier::external_body]
pub struct ExBytesMut(bytes::BytesMut);

/// The bytes that a buffer holds, in order.
pub uninterp spec fn contents(buf: BytesMut) -> Seq<u8>;

/// The number of bytes that a buffer was made to hold.
pub uninterp spec fn room(buf: BytesMut) -> nat;

/// Calls `BytesMut::with_capacity`. The contract claims that the new
/// buffer is empty and was made to hold `capacity` bytes; the `requires`
/// leaves out the capacities that no allocation can have.
#[verifier::external_body]
pub(crate) fn with_capacity(capacity: usize) -> (buf: BytesMut)
    requires
        capacity <= isize::MAX,
    ensures
        contents(buf) == Seq::<u8>::empty(),
        room(buf) == capacity,
{
    BytesMut::with_capacity(capacity)
}

/// Calls `BufMut::put_slice` on a `BytesMut`. The contract claims that the
/// bytes of `src` are added at the end, and that the room the buffer was
/// made with stays; the `requires` keeps the call within that room, where
/// it does not allocate.
#[verifier::external_body]
pub(crate) fn put_slice(buf: &mut BytesMut, src: &[u8])
    requires
        contents(*old(buf)).len() + src@.len() <= room(*old(buf)),
    ensures
        contents(*final(buf)) == contents(*old(buf)) + src@,
        room(*final(buf)) == room(*old(buf)),
{
    buf.put_slice(src)
}

/// Copies the bytes out of a `BytesMut` with the slice method `to_vec`.
/// The contract claims that the vector holds the buffer's bytes.
#[verifier::external_body]
pub(crate) fn into_vec(buf: BytesMut) -> (bytes: Vec<u8>)
    ensures
        bytes@ == contents(buf),
{
    buf.to_vec()
}

} // verus!
