//! Fast-path encoders for the leading bytes of an HTTP/1.x response.
//!
//! The crate renders two fixed-grammar pieces — the status line's
//! version/code segment and the `content-length` header — directly into a
//! growable byte buffer (`bytes::BytesMut`), without going through a generic
//! formatting facility. A small sink interface lets unrelated formatting
//! code append into the same buffer.

pub mod buffer;
pub mod digits;
pub mod encode;
pub mod sink;
