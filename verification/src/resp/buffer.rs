//! The receive buffer: `bytes::BytesMut`, seen as a sequence of bytes.

use bytes::{Buf, BytesMut};
use vstd::prelude::*;

verus! {

/// `bytes::BytesMut`, the growing buffer that the network layer fills. What
/// is inside it is seen through `contents` only.
#[verifier::external_type_specification]
#[verifier::external_body]
pub struct ExBytesMut(BytesMut);

/// The bytes that a buffer holds, first unread byte first.
pub uninterp spec fn contents(buf: BytesMut) -> Seq<u8>;

/// `BytesMut::as_ref`: the unread bytes as a slice, all of them and in
/// order.
#[verifier::external_body]
pub(crate) fn as_slice(buf: &BytesMut) -> (s: &[u8])
    ensures
        s@ == contents(*buf),
{
    buf.as_ref()
}

/// `Buf::advance` on `BytesMut`: drops the first `n` bytes and keeps the
/// rest. It panics when `n` exceeds the length, which `requires` rules out.
#[verifier::external_body]
pub(crate) fn advance(buf: &mut BytesMut, n: usize)
    requires
        n <= contents(*old(buf)).len(),
    ensures
        contents(*final(buf)) == contents(*old(buf)).skip(n as int),
{
    buf.advance(n)
}

} // verus!
