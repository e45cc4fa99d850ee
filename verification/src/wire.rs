//! Byte buffers for datagrams.
//!
//! Datagrams are assembled in a `bytes::BytesMut` and handed out as an
//! immutable `bytes::Bytes`. Both types belong to the `bytes` crate; what is
//! stated of them here is taken on trust from that crate.

use bytes::BufMut;
use bytes::Bytes;
use bytes::BytesMut;
use vstd::prelude::*;

verus! {

#[verifier::external_type_specification]
#[verifier::external_body]
pub struct ExBytesMut(BytesMut);

#[verifier::external_type_specification]
#[verifier::external_body]
pub struct ExBytes(Bytes);

/// The bytes written to a buffer so far.
pub uninterp spec fn written(buf: BytesMut) -> Seq<u8>;

/// The bytes of a finished datagram.
pub uninterp spec fn payload(data: Bytes) -> Seq<u8>;

/// The two bytes of `n`, most significant first.
pub open spec fn be16(n: u16) -> Seq<u8> {
    seq![(n / 256) as u8, (n % 256) as u8]
}

/// `BytesMut::with_capacity`: a buffer that holds no bytes yet, with room
/// for `capacity` of them. Asking for more than `isize::MAX` bytes panics.
#[verifier::external_body]
pub(crate) fn with_capacity(capacity: usize) -> (buf: BytesMut)
    requires
        capacity <= isize::MAX,
    ensures
        written(buf) == Seq::<u8>::empty(),
{
    BytesMut::with_capacity(capacity)
}

/// `BufMut::put_slice` on a `BytesMut`: appends `src`, growing the buffer as
/// needed. Growing beyond `isize::MAX` bytes panics.
#[verifier::external_body]
pub(crate) fn put_slice(buf: &mut BytesMut, src: &[u8])
    requires
        written(*old(buf)).len() + src@.len() <= isize::MAX,
    ensures
        written(*final(buf)) == written(*old(buf)) + src@,
{
    buf.put_slice(src)
}

/// `BufMut::put_u8` on a `BytesMut`: appends the byte `n`.
#[verifier::external_body]
pub(crate) fn put_u8(buf: &mut BytesMut, n: u8)
    requires
        written(*old(buf)).len() + 1 <= isize::MAX,
    ensures
        written(*final(buf)) == written(*old(buf)).push(n),
{
    buf.put_u8(n)
}

/// `BufMut::put_u16` on a `BytesMut`: appends `n` in big-endian byte order.
#[verifier::external_body]
pub(crate) fn put_u16(buf: &mut BytesMut, n: u16)
    requires
        written(*old(buf)).len() + 2 <= isize::MAX,
    ensures
        written(*final(buf)) == written(*old(buf)) + be16(n),
{
    buf.put_u16(n)
}

/// `BytesMut::freeze`: the buffer's bytes as an immutable datagram.
#[verifier::external_body]
pub(crate) fn freeze(buf: BytesMut) -> (data: Bytes)
    ensures
        payload(data) == written(buf),
{
    buf.freeze()
}

} // verus!
