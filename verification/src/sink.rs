//! The stream adapter.
//!
//! Generic formatting code that only knows a "write bytes, flush" capability
//! can append into the same output buffer the encoders use. [`ByteSink`] is
//! that capability; the output buffer implements it once, with `write`
//! appending every byte handed to it and `flush` doing nothing (the buffer
//! has no internal staging), so a write can never partially fail.

use vstd::prelude::*;

use crate::buffer::bytes_view;
use crate::buffer::put_slice;

verus! {

/// What a sink write leaves in the buffer: the old contents followed by the
/// bytes written.
pub open spec fn sink_write_result(pre: Seq<u8>, data: Seq<u8>) -> Seq<u8> {
    pre + data
}

/// What a direct append leaves in the buffer: the old contents followed by
/// the bytes appended.
pub open spec fn append_result(pre: Seq<u8>, data: Seq<u8>) -> Seq<u8> {
    pre + data
}

/// Appends `data` directly to the output buffer.
pub fn append(bytes: &mut bytes::BytesMut, data: &[u8])
    requires
        bytes_view(*old(bytes)).len() + data@.len() <= usize::MAX,
    ensures
        bytes_view(*final(bytes)) == append_result(bytes_view(*old(bytes)), data@),
{
    put_slice(bytes, data);
}

/// A "write bytes, flush" capability over a byte buffer.
pub trait ByteSink {
    /// The bytes the sink currently holds.
    spec fn contents(&self) -> Seq<u8>;

    /// Writes all of `data`; reports the full byte count consumed.
    fn write(&mut self, data: &[u8]) -> (n: usize)
        requires
            old(self).contents().len() + data@.len() <= usize::MAX,
        ensures
            final(self).contents() == sink_write_result(old(self).contents(), data@),
            n == data@.len(),
    ;

    /// Flushes the sink; a sink without internal staging leaves its contents
    /// unchanged.
    fn flush(&mut self)
        ensures
            final(self).contents() == old(self).contents(),
    ;
}

impl ByteSink for bytes::BytesMut {
    open spec fn contents(&self) -> Seq<u8> {
        bytes_view(*self)
    }

    fn write(&mut self, data: &[u8]) -> (n: usize) {
        put_slice(self, data);
        data.len()
    }

    fn flush(&mut self) {
    }
}

/// Writing a byte sequence through the stream adapter leaves the buffer with
/// exactly what a direct append of the same bytes leaves: the old contents
/// followed by those bytes.
pub proof fn lemma_sink_write_matches_append(pre: Seq<u8>, data: Seq<u8>)
    ensures
        sink_write_result(pre, data) == append_result(pre, data),
{
}

} // verus!
