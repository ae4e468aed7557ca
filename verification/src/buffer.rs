//! The output buffer.
//!
//! The encoders append into a caller-owned `bytes::BytesMut`. The buffer is
//! opaque here: its current contents are named by the spec function
//! [`bytes_view`], and the two append operations the encoders use are trusted
//! wrappers around the `bytes` crate whose contracts say how the view grows.

use vstd::prelude::*;

use bytes::BufMut;

verus! {

#[verifier::external_type_specification]
#[verifier::external_body]
pub struct ExBytesMut(bytes::BytesMut);

/// The bytes currently held by a `BytesMut`, in order, oldest first.
pub uninterp spec fn bytes_view(b: bytes::BytesMut) -> Seq<u8>;

/// Relies on `BytesMut`'s `BufMut::put_slice`, which forwards to
/// `BytesMut::extend_from_slice`: appends every byte of `src`, in order, to
/// the end of the buffer. The length bound keeps the internal capacity
/// arithmetic of `reserve` from overflowing.
#[verifier::external_body]
pub(crate) fn put_slice(b: &mut bytes::BytesMut, src: &[u8])
    requires
        bytes_view(*old(b)).len() + src@.len() <= usize::MAX,
    ensures
        bytes_view(*final(b)) == bytes_view(*old(b)) + src@,
{
    b.put_slice(src);
}

/// Relies on `BufMut::put_u8`, which appends the one-byte slice `[n]` through
/// `BytesMut::extend_from_slice`: appends the single byte `n` to the end of
/// the buffer.
#[verifier::external_body]
pub(crate) fn put_u8(b: &mut bytes::BytesMut, n: u8)
    requires
        bytes_view(*old(b)).len() + 1 <= usize::MAX,
    ensures
        bytes_view(*final(b)) == bytes_view(*old(b)).push(n),
{
    b.put_u8(n);
}

} // verus!
