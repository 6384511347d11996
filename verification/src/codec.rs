//! Big-endian encoding of fixed-width integers.
use vstd::prelude::*;

verus! {

/// The eight big-endian bytes of `x`.
pub open spec fn u64_be(x: u64) -> Seq<u8> {
    seq![
        (x >> 56u64) as u8,
        (x >> 48u64) as u8,
        (x >> 40u64) as u8,
        (x >> 32u64) as u8,
        (x >> 24u64) as u8,
        (x >> 16u64) as u8,
        (x >> 8u64) as u8,
        x as u8,
    ]
}

/// The integer whose big-endian bytes are `b[0..8]`.
pub open spec fn u64_from_be(b: Seq<u8>) -> u64 {
    (b[0] as u64) << 56u64 | (b[1] as u64) << 48u64 | (b[2] as u64) << 40u64 | (b[3] as u64) << 32u64
        | (b[4] as u64) << 24u64 | (b[5] as u64) << 16u64 | (b[6] as u64) << 8u64 | (b[7] as u64)
}

/// Reading back eight big-endian bytes gives the integer that was written.
pub proof fn lemma_u64_be_roundtrip(x: u64)
    ensures
        u64_be(x).len() == 8,
        u64_from_be(u64_be(x)) == x,
{
    let b0 = (x >> 56u64) as u8;
    let b1 = (x >> 48u64) as u8;
    let b2 = (x >> 40u64) as u8;
    let b3 = (x >> 32u64) as u8;
    let b4 = (x >> 24u64) as u8;
    let b5 = (x >> 16u64) as u8;
    let b6 = (x >> 8u64) as u8;
    let b7 = x as u8;
    assert((b0 as u64) << 56u64 | (b1 as u64) << 48u64 | (b2 as u64) << 40u64 | (b3 as u64) << 32u64
        | (b4 as u64) << 24u64 | (b5 as u64) << 16u64 | (b6 as u64) << 8u64 | (b7 as u64) == x)
        by (bit_vector)
        requires
            b0 == (x >> 56u64) as u8,
            b1 == (x >> 48u64) as u8,
            b2 == (x >> 40u64) as u8,
            b3 == (x >> 32u64) as u8,
            b4 == (x >> 24u64) as u8,
            b5 == (x >> 16u64) as u8,
            b6 == (x >> 8u64) as u8,
            b7 == x as u8,
    ;
}

/// Writing the integer read from eight bytes gives those bytes back.
pub proof fn lemma_u64_from_be_roundtrip(b: Seq<u8>)
    requires
        b.len() == 8,
    ensures
        u64_be(u64_from_be(b)) == b,
{
    let (b0, b1, b2, b3, b4, b5, b6, b7) = (b[0], b[1], b[2], b[3], b[4], b[5], b[6], b[7]);
    let x = u64_from_be(b);
    assert(
        (x >> 56u64) as u8 == b0 && (x >> 48u64) as u8 == b1 && (x >> 40u64) as u8 == b2
        && (x >> 32u64) as u8 == b3 && (x >> 24u64) as u8 == b4 && (x >> 16u64) as u8 == b5
        && (x >> 8u64) as u8 == b6 && x as u8 == b7
    ) by (bit_vector)
        requires
            x == (b0 as u64) << 56u64 | (b1 as u64) << 48u64 | (b2 as u64) << 40u64 | (b3 as u64) << 32u64
                | (b4 as u64) << 24u64 | (b5 as u64) << 16u64 | (b6 as u64) << 8u64 | (b7 as u64),
    ;
    assert(u64_be(x) =~= b);
}

/// The four big-endian bytes of `x`.
pub open spec fn u32_be(x: u32) -> Seq<u8> {
    seq![(x >> 24u32) as u8, (x >> 16u32) as u8, (x >> 8u32) as u8, x as u8]
}

/// The integer whose big-endian bytes are `b[0..4]`.
pub open spec fn u32_from_be(b: Seq<u8>) -> u32 {
    (b[0] as u32) << 24u32 | (b[1] as u32) << 16u32 | (b[2] as u32) << 8u32 | (b[3] as u32)
}

/// Reading back four big-endian bytes gives the integer that was written.
pub proof fn lemma_u32_be_roundtrip(x: u32)
    ensures
        u32_be(x).len() == 4,
        u32_from_be(u32_be(x)) == x,
{
    let b0 = (x >> 24u32) as u8;
    let b1 = (x >> 16u32) as u8;
    let b2 = (x >> 8u32) as u8;
    let b3 = x as u8;
    assert((b0 as u32) << 24u32 | (b1 as u32) << 16u32 | (b2 as u32) << 8u32 | (b3 as u32) == x)
        by (bit_vector)
        requires
            b0 == (x >> 24u32) as u8,
            b1 == (x >> 16u32) as u8,
            b2 == (x >> 8u32) as u8,
            b3 == x as u8,
    ;
}

/// Writing the integer read from four bytes gives those bytes back.
pub proof fn lemma_u32_from_be_roundtrip(b: Seq<u8>)
    requires
        b.len() == 4,
    ensures
        u32_be(u32_from_be(b)) == b,
{
    let (b0, b1, b2, b3) = (b[0], b[1], b[2], b[3]);
    let x = u32_from_be(b);
    assert((x >> 24u32) as u8 == b0 && (x >> 16u32) as u8 == b1 && (x >> 8u32) as u8 == b2
        && x as u8 == b3) by (bit_vector)
        requires
            x == (b0 as u32) << 24u32 | (b1 as u32) << 16u32 | (b2 as u32) << 8u32 | (b3 as u32),
    ;
    assert(u32_be(x) =~= b);
}

/// The four big-endian bytes of a signed 32-bit integer (two's complement).
pub open spec fn i32_be(x: i32) -> Seq<u8> {
    u32_be(x as u32)
}

/// The signed integer whose big-endian two's-complement bytes are `b[0..4]`.
pub open spec fn i32_from_be(b: Seq<u8>) -> i32 {
    u32_from_be(b) as i32
}

/// Reading back the bytes of a signed integer gives that integer.
pub proof fn lemma_i32_be_roundtrip(x: i32)
    ensures
        i32_be(x).len() == 4,
        i32_from_be(i32_be(x)) == x,
{
    lemma_u32_be_roundtrip(x as u32);
    assert((x as u32) as i32 == x) by (bit_vector);
}

/// Writing the signed integer read from four bytes gives those bytes back.
pub proof fn lemma_i32_from_be_roundtrip(b: Seq<u8>)
    requires
        b.len() == 4,
    ensures
        i32_be(i32_from_be(b)) == b,
{
    let x = u32_from_be(b);
    assert((x as i32) as u32 == x) by (bit_vector);
    lemma_u32_from_be_roundtrip(b);
}

/// `x` as eight big-endian bytes.
pub fn u64_to_be_bytes(x: u64) -> (r: Vec<u8>)
    ensures
        r@ == u64_be(x),
{
    let mut v: Vec<u8> = Vec::new();
    v.push((x >> 56u64) as u8);
    v.push((x >> 48u64) as u8);
    v.push((x >> 40u64) as u8);
    v.push((x >> 32u64) as u8);
    v.push((x >> 24u64) as u8);
    v.push((x >> 16u64) as u8);
    v.push((x >> 8u64) as u8);
    v.push(x as u8);
    assert(v@ =~= u64_be(x));
    v
}

/// `x` as four big-endian bytes.
pub fn u32_to_be_bytes(x: u32) -> (r: Vec<u8>)
    ensures
        r@ == u32_be(x),
{
    let mut v: Vec<u8> = Vec::new();
    v.push((x >> 24u32) as u8);
    v.push((x >> 16u32) as u8);
    v.push((x >> 8u32) as u8);
    v.push(x as u8);
    assert(v@ =~= u32_be(x));
    v
}

/// `x` as four big-endian two's-complement bytes.
pub fn i32_to_be_bytes(x: i32) -> (r: Vec<u8>)
    ensures
        r@ == i32_be(x),
{
    u32_to_be_bytes(x as u32)
}

/// The integer whose big-endian bytes are `b`.
pub fn u64_from_be_bytes(b: &[u8]) -> (r: u64)
    requires
        b@.len() == 8,
    ensures
        r == u64_from_be(b@),
{
    (b[0] as u64) << 56u64 | (b[1] as u64) << 48u64 | (b[2] as u64) << 40u64 | (b[3] as u64) << 32u64
        | (b[4] as u64) << 24u64 | (b[5] as u64) << 16u64 | (b[6] as u64) << 8u64 | (b[7] as u64)
}

/// The integer whose big-endian bytes are `b`.
pub fn u32_from_be_bytes(b: &[u8]) -> (r: u32)
    requires
        b@.len() == 4,
    ensures
        r == u32_from_be(b@),
{
    (b[0] as u32) << 24u32 | (b[1] as u32) << 16u32 | (b[2] as u32) << 8u32 | (b[3] as u32)
}

/// The signed integer whose big-endian two's-complement bytes are `b`.
pub fn i32_from_be_bytes(b: &[u8]) -> (r: i32)
    requires
        b@.len() == 4,
    ensures
        r == i32_from_be(b@),
{
    u32_from_be_bytes(b) as i32
}

/// `byteorder::BigEndian::read_u64`: the integer whose big-endian bytes are
/// the first eight bytes of `buf`.  The crate reads `buf[..8]` and panics on
/// a shorter buffer, which `requires` leaves out.
#[verifier::external_body]
pub(crate) fn read_u64_be(buf: &[u8]) -> (r: u64)
    requires
        buf@.len() >= 8,
    ensures
        r == u64_from_be(buf@),
{
    <byteorder::BigEndian as byteorder::ByteOrder>::read_u64(buf)
}

} // verus!
