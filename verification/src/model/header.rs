//! The fixed-size header that starts rootly's files.
use vstd::prelude::*;
use crate::codec::{u64_be, u64_from_be, lemma_u64_be_roundtrip, lemma_u64_from_be_roundtrip, u64_to_be_bytes, read_u64_be};
use crate::model::{ReadableModel, HEADER_SEGMENT_LENGTH};

verus! {

/// A format version (major, minor, build) and a timestamp in seconds.
#[derive(Debug)]
pub struct Header {
    version_major: u8,
    version_minor: u8,
    build_number: u8,
    timestamp: u64,
}

/// The values a `Header` holds.
pub struct HeaderView {
    pub version_major: u8,
    pub version_minor: u8,
    pub build_number: u8,
    pub timestamp: u64,
}

impl View for Header {
    type V = HeaderView;

    closed spec fn view(&self) -> HeaderView {
        HeaderView {
            version_major: self.version_major,
            version_minor: self.version_minor,
            build_number: self.build_number,
            timestamp: self.timestamp,
        }
    }
}

/// The encoding of a header: the three version bytes, then the timestamp as
/// eight big-endian bytes.
pub open spec fn header_bytes(h: HeaderView) -> Seq<u8> {
    seq![h.version_major, h.version_minor, h.build_number] + u64_be(h.timestamp)
}

/// The header read from the first eleven bytes of `data`.
pub open spec fn header_from(data: Seq<u8>) -> HeaderView {
    HeaderView {
        version_major: data[0],
        version_minor: data[1],
        build_number: data[2],
        timestamp: u64_from_be(data.subrange(3, 11)),
    }
}

/// Encoding a header and reading it back gives the same header.
pub proof fn lemma_header_roundtrip(h: HeaderView)
    ensures
        header_bytes(h).len() == HEADER_SEGMENT_LENGTH,
        header_from(header_bytes(h)) == h,
{
    lemma_u64_be_roundtrip(h.timestamp);
    assert(header_bytes(h).subrange(3, 11) =~= u64_be(h.timestamp));
}

/// Reading a header and encoding it again gives the eleven bytes it was
/// read from.
pub proof fn lemma_header_bytes_of_read(data: Seq<u8>)
    requires
        data.len() >= HEADER_SEGMENT_LENGTH,
    ensures
        header_bytes(header_from(data)) == data.subrange(0, 11),
{
    lemma_u64_from_be_roundtrip(data.subrange(3, 11));
    assert(header_bytes(header_from(data)) =~= data.subrange(0, 11));
}

/// `SystemTime::now()` measured from the Unix epoch: whole seconds and whole
/// milliseconds.  A clock set before the epoch reads as zero.  Nothing is
/// stated of the reading but that the two parts agree.
#[verifier::external_body]
pub(crate) fn unix_time_now() -> (r: (u64, u128))
    ensures
        r.1 / 1000 == r.0 as nat,
{
    let d = std::time::SystemTime::now().duration_since(std::time::UNIX_EPOCH).unwrap_or_default();
    (d.as_secs(), d.as_millis())
}

impl Header {
    pub fn new(version_major: u8, version_minor: u8, build_number: u8, timestamp: u64) -> (r: Self)
        ensures
            r@ == (HeaderView { version_major, version_minor, build_number, timestamp }),
    {
        Header { version_major, version_minor, build_number, timestamp }
    }

    /// Version 1.0.0, stamped with `timestamp`.
    pub fn default_at(timestamp: u64) -> (r: Self)
        ensures
            r@ == (HeaderView { version_major: 1, version_minor: 0, build_number: 0, timestamp }),
    {
        Header { version_major: 1, version_minor: 0, build_number: 0, timestamp }
    }

    /// `Header::default_at` the current time in seconds (zero where the
    /// clock reads before the epoch).
    pub fn default() -> (r: Self)
        ensures
            r@.version_major == 1,
            r@.version_minor == 0,
            r@.build_number == 0,
    {
        let (now, _millis) = unix_time_now();
        Header::default_at(now)
    }
}

impl ReadableModel for Header {
    open spec fn readable(data: Seq<u8>) -> bool {
        data.len() >= HEADER_SEGMENT_LENGTH
    }

    open spec fn sizeable(&self) -> bool {
        true
    }

    fn from_bytes(data: &[u8]) -> (r: Self)
        ensures
            r@ == header_from(data@),
    {
        let version_major = data[0];
        let version_minor = data[1];
        let build_number = data[2];
        let timestamp = read_u64_be(&data[3..11]);
        Header { version_major, version_minor, build_number, timestamp }
    }

    fn to_bytes(&self) -> (r: Vec<u8>)
        ensures
            r@ == header_bytes(self@),
    {
        let mut bytes: Vec<u8> = Vec::new();
        bytes.push(self.version_major);
        bytes.push(self.version_minor);
        bytes.push(self.build_number);
        bytes.extend_from_slice(u64_to_be_bytes(self.timestamp).as_slice());
        assert(bytes@ =~= header_bytes(self@));
        bytes
    }

    fn size_in_bytes(&self) -> (r: usize)
        ensures
            r == HEADER_SEGMENT_LENGTH,
            r == header_bytes(self@).len(),
    {
        HEADER_SEGMENT_LENGTH
    }
}

} // verus!
