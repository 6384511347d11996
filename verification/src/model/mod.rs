//! The records that rootly keeps and their byte formats.
use vstd::prelude::*;

pub mod header;
pub mod mutable_headers;
pub mod log;
pub mod ini;
pub mod trace;

verus! {

/// Length in bytes of an encoded `Header`.
pub const HEADER_SEGMENT_LENGTH: usize = 11;

/// Length in bytes of an encoded length field: a `usize` written as eight
/// big-endian bytes, its width on the 64-bit targets that rootly is built
/// for.  The lengths are encoded as `u64` values, so the formats stay the
/// same where a `usize` is narrower.
pub const USIZE_SEGMENT_LENGTH: usize = 8;

/// A record with a byte encoding.
pub trait ReadableModel: Sized {
    /// The byte strings that `from_bytes` reads; on any other it would panic.
    spec fn readable(data: Seq<u8>) -> bool;

    /// Whether the sizes that `size_in_bytes` adds up fit in a `usize`.
    spec fn sizeable(&self) -> bool;

    /// Reads a record from the front of `data`.
    fn from_bytes(data: &[u8]) -> Self
        requires
            Self::readable(data@),
    ;

    /// Encodes the record.
    fn to_bytes(&self) -> Vec<u8>;

    /// The size that the record reports for itself.
    fn size_in_bytes(&self) -> usize
        requires
            self.sizeable(),
    ;
}

} // verus!
