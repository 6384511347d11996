//! The header of a file that grows: a `Header` and the length of what follows.
use vstd::prelude::*;
use crate::codec::{u64_be, u64_from_be, lemma_u64_be_roundtrip, lemma_u64_from_be_roundtrip, u64_to_be_bytes, read_u64_be};
use crate::model::{ReadableModel, HEADER_SEGMENT_LENGTH};
use crate::model::header::{Header, HeaderView, header_bytes, header_from, lemma_header_roundtrip, lemma_header_bytes_of_read};

verus! {

/// A `Header` and the total length of the entries that follow it.
pub struct MutableHeader {
    header: Header,
    total_length: u64,
}

/// The values a `MutableHeader` holds.
pub struct MutableHeaderView {
    pub header: HeaderView,
    pub total_length: u64,
}

impl View for MutableHeader {
    type V = MutableHeaderView;

    closed spec fn view(&self) -> MutableHeaderView {
        MutableHeaderView { header: self.header@, total_length: self.total_length }
    }
}

/// Length in bytes of an encoded `MutableHeader`.
pub open spec fn mutable_header_len() -> nat {
    HEADER_SEGMENT_LENGTH as nat + 8
}

/// The encoding of a mutable header: the header, then the total length as
/// eight big-endian bytes.
pub open spec fn mutable_header_bytes(m: MutableHeaderView) -> Seq<u8> {
    header_bytes(m.header) + u64_be(m.total_length)
}

/// The mutable header read from the first nineteen bytes of `data`.
pub open spec fn mutable_header_from(data: Seq<u8>) -> MutableHeaderView {
    MutableHeaderView {
        header: header_from(data.subrange(0, 11)),
        total_length: u64_from_be(data.subrange(11, data.len() as int)),
    }
}

/// Encoding a mutable header and reading it back gives the same value.
pub proof fn lemma_mutable_header_roundtrip(m: MutableHeaderView)
    ensures
        mutable_header_bytes(m).len() == mutable_header_len(),
        mutable_header_from(mutable_header_bytes(m)) == m,
{
    lemma_header_roundtrip(m.header);
    lemma_u64_be_roundtrip(m.total_length);
    let b = mutable_header_bytes(m);
    assert(b.subrange(0, 11) =~= header_bytes(m.header));
    assert(b.subrange(11, b.len() as int) =~= u64_be(m.total_length));
}

/// Reading a mutable header looks at the first nineteen bytes only: what is
/// read encodes back to exactly those bytes, and is what those bytes alone
/// give, whatever follows them.
pub proof fn lemma_mutable_header_bytes_of_read(data: Seq<u8>)
    requires
        data.len() >= mutable_header_len(),
    ensures
        mutable_header_bytes(mutable_header_from(data)) == data.subrange(0, 19),
        mutable_header_from(data) == mutable_header_from(data.subrange(0, 19)),
{
    let front = data.subrange(0, 19);
    let m = mutable_header_from(data);
    lemma_header_bytes_of_read(data.subrange(0, 11));
    assert(data.subrange(0, 11).subrange(0, 11) =~= data.subrange(0, 11));
    let len_bytes = data.subrange(11, 19);
    lemma_u64_from_be_roundtrip(len_bytes);
    let tail = data.subrange(11, data.len() as int);
    assert(tail[0] == len_bytes[0] && tail[1] == len_bytes[1] && tail[2] == len_bytes[2]
        && tail[3] == len_bytes[3] && tail[4] == len_bytes[4] && tail[5] == len_bytes[5]
        && tail[6] == len_bytes[6] && tail[7] == len_bytes[7]);
    assert(u64_from_be(tail) == u64_from_be(len_bytes));
    assert(mutable_header_bytes(m) =~= front);
    lemma_mutable_header_roundtrip(m);
}

impl MutableHeader {
    pub fn new(header: Header, total_length: u64) -> (r: Self)
        ensures
            r@ == (MutableHeaderView { header: header@, total_length }),
    {
        MutableHeader { header, total_length }
    }

    pub fn get_header(&self) -> (r: &Header)
        ensures
            r@ == self@.header,
    {
        &self.header
    }

    pub fn set_header(&mut self, header: Header)
        ensures
            final(self)@ == (MutableHeaderView { header: header@, ..old(self)@ }),
    {
        self.header = header;
    }

    pub fn get_total_length(&self) -> (r: u64)
        ensures
            r == self@.total_length,
    {
        self.total_length
    }

    pub fn set_total_length(&mut self, length: u64)
        ensures
            final(self)@ == (MutableHeaderView { total_length: length, ..old(self)@ }),
    {
        self.total_length = length;
    }
}

impl ReadableModel for MutableHeader {
    open spec fn readable(data: Seq<u8>) -> bool {
        data.len() >= mutable_header_len()
    }

    open spec fn sizeable(&self) -> bool {
        true
    }

    fn from_bytes(data: &[u8]) -> (r: Self)
        ensures
            r@ == mutable_header_from(data@),
    {
        let header = Header::from_bytes(&data[0..HEADER_SEGMENT_LENGTH]);
        let total_length = read_u64_be(&data[HEADER_SEGMENT_LENGTH..data.len()]);
        MutableHeader { header, total_length }
    }

    fn to_bytes(&self) -> (r: Vec<u8>)
        ensures
            r@ == mutable_header_bytes(self@),
    {
        let mut bytes = self.header.to_bytes();
        bytes.extend_from_slice(u64_to_be_bytes(self.total_length).as_slice());
        assert(bytes@ =~= mutable_header_bytes(self@));
        bytes
    }

    fn size_in_bytes(&self) -> (r: usize)
        ensures
            r == mutable_header_len(),
            r == mutable_header_bytes(self@).len(),
    {
        self.header.size_in_bytes() + 8
    }
}

} // verus!
