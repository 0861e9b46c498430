//! Fixed-width integer encodings used on the wire, backed by `byteorder`.
use byteorder::{BigEndian, ByteOrder, LittleEndian};
use vstd::prelude::*;

verus! {

/// The two little-endian bytes of `n`.
pub open spec fn le16(n: u16) -> Seq<u8> {
    seq![(n & 0xff) as u8, (n >> 8) as u8]
}

/// The four little-endian bytes of `n`.
pub open spec fn le32(n: u32) -> Seq<u8> {
    seq![(n & 0xff) as u8, ((n >> 8) & 0xff) as u8, ((n >> 16) & 0xff) as u8, (n >> 24) as u8]
}

/// The four big-endian bytes of `n`.
pub open spec fn be32(n: u32) -> Seq<u8> {
    seq![(n >> 24) as u8, ((n >> 16) & 0xff) as u8, ((n >> 8) & 0xff) as u8, (n & 0xff) as u8]
}

/// The value of two little-endian bytes.
pub open spec fn from_le16(b0: u8, b1: u8) -> u16 {
    (b0 as u16) | ((b1 as u16) << 8)
}

/// The value of four little-endian bytes.
pub open spec fn from_le32(b0: u8, b1: u8, b2: u8, b3: u8) -> u32 {
    (b0 as u32) | ((b1 as u32) << 8) | ((b2 as u32) << 16) | ((b3 as u32) << 24)
}

/// The value of four big-endian bytes.
pub open spec fn from_be32(b0: u8, b1: u8, b2: u8, b3: u8) -> u32 {
    from_le32(b3, b2, b1, b0)
}

pub proof fn lemma_le16_round_trip(n: u16)
    ensures
        from_le16(le16(n)[0], le16(n)[1]) == n,
{
    assert(((n & 0xff) as u8) as u16 | ((((n >> 8) as u8) as u16) << 8) == n) by (bit_vector);
}

pub proof fn lemma_le32_round_trip(n: u32)
    ensures
        from_le32(le32(n)[0], le32(n)[1], le32(n)[2], le32(n)[3]) == n,
{
    assert(((n & 0xff) as u8) as u32 | (((((n >> 8) & 0xff) as u8) as u32) << 8) | (((((n
        >> 16) & 0xff) as u8) as u32) << 16) | ((((n >> 24) as u8) as u32) << 24) == n)
        by (bit_vector);
}

pub proof fn lemma_be32_round_trip(n: u32)
    ensures
        from_be32(be32(n)[0], be32(n)[1], be32(n)[2], be32(n)[3]) == n,
{
    lemma_le32_round_trip(n);
}

/// Relies on `LittleEndian::write_u16`: stores `n.to_le_bytes()` in the buffer.
#[verifier::external_body]
pub(crate) fn le16_bytes(n: u16) -> (r: [u8; 2])
    ensures
        r@ == le16(n),
{
    let mut b = [0u8; 2];
    LittleEndian::write_u16(&mut b, n);
    b
}

/// Relies on `LittleEndian::write_u32`: stores `n.to_le_bytes()` in the buffer.
#[verifier::external_body]
pub(crate) fn le32_bytes(n: u32) -> (r: [u8; 4])
    ensures
        r@ == le32(n),
{
    let mut b = [0u8; 4];
    LittleEndian::write_u32(&mut b, n);
    b
}

/// Relies on `BigEndian::write_u32`: stores `n.to_be_bytes()` in the buffer.
#[verifier::external_body]
pub(crate) fn be32_bytes(n: u32) -> (r: [u8; 4])
    ensures
        r@ == be32(n),
{
    let mut b = [0u8; 4];
    BigEndian::write_u32(&mut b, n);
    b
}

/// Relies on `LittleEndian::read_u16`: `u16::from_le_bytes` of the first two bytes.
#[verifier::external_body]
pub(crate) fn read_le16(b: &[u8], at: usize) -> (r: u16)
    requires
        at + 2 <= b@.len(),
    ensures
        r == from_le16(b@[at as int], b@[at + 1]),
{
    LittleEndian::read_u16(&b[at..at + 2])
}

/// Relies on `LittleEndian::read_u32`: `u32::from_le_bytes` of the first four bytes.
#[verifier::external_body]
pub(crate) fn read_le32(b: &[u8], at: usize) -> (r: u32)
    requires
        at + 4 <= b@.len(),
    ensures
        r == from_le32(b@[at as int], b@[at + 1], b@[at + 2], b@[at + 3]),
{
    LittleEndian::read_u32(&b[at..at + 4])
}

/// Relies on `BigEndian::read_u32`: `u32::from_be_bytes` of the first four bytes.
#[verifier::external_body]
pub(crate) fn read_be32(b: &[u8], at: usize) -> (r: u32)
    requires
        at + 4 <= b@.len(),
    ensures
        r == from_be32(b@[at as int], b@[at + 1], b@[at + 2], b@[at + 3]),
{
    BigEndian::read_u32(&b[at..at + 4])
}

/// Appends the little-endian bytes of `n`.
pub fn push_le16(out: &mut Vec<u8>, n: u16)
    ensures
        final(out)@ == old(out)@ + le16(n),
{
    let b = le16_bytes(n);
    out.push(b[0]);
    out.push(b[1]);
    assert(out@ =~= old(out)@ + le16(n));
}

/// Appends the little-endian bytes of `n`.
pub fn push_le32(out: &mut Vec<u8>, n: u32)
    ensures
        final(out)@ == old(out)@ + le32(n),
{
    let b = le32_bytes(n);
    out.push(b[0]);
    out.push(b[1]);
    out.push(b[2]);
    out.push(b[3]);
    assert(out@ =~= old(out)@ + le32(n));
}

/// Appends every byte of `src`.
pub fn push_all(out: &mut Vec<u8>, src: &[u8])
    ensures
        final(out)@ == old(out)@ + src@,
{
    let mut i: usize = 0;
    while i < src.len()
        invariant
            i <= src@.len(),
            out@ == old(out)@ + src@.subrange(0, i as int),
        decreases src@.len() - i,
    {
        out.push(src[i]);
        i = i + 1;
        assert(out@ =~= old(out)@ + src@.subrange(0, i as int));
    }
    assert(src@.subrange(0, i as int) =~= src@);
}

} // verus!
