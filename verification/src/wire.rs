//! Little-endian integers as they stand on the wire.

use byteorder::{ByteOrder, LittleEndian};
use vstd::prelude::*;

verus! {

/// The four bytes of `n`, least significant first.
pub open spec fn u32_le_bytes(n: u32) -> Seq<u8> {
    seq![
        (n % 256) as u8,
        (n / 256 % 256) as u8,
        (n / 65536 % 256) as u8,
        (n / 16777216 % 256) as u8,
    ]
}

/// The eight bytes of `n`, least significant first.
pub open spec fn u64_le_bytes(n: u64) -> Seq<u8> {
    u32_le_bytes((n % 0x1_0000_0000) as u32) + u32_le_bytes((n / 0x1_0000_0000) as u32)
}

/// The number whose little-endian bytes are the first four of `b`.
pub open spec fn le_u32(b: Seq<u8>) -> u32
    recommends
        b.len() >= 4,
{
    (b[0] as int + 256 * (b[1] as int) + 65536 * (b[2] as int) + 16777216 * (b[3] as int)) as u32
}

/// The number whose little-endian bytes are the first eight of `b`.
pub open spec fn le_u64(b: Seq<u8>) -> u64
    recommends
        b.len() >= 8,
{
    (le_u32(b.subrange(0, 4)) as int + 0x1_0000_0000 * (le_u32(b.subrange(4, 8)) as int)) as u64
}

/// Reading back what was written gives the number again.
pub proof fn lemma_le_u32_of_bytes(n: u32)
    ensures
        u32_le_bytes(n).len() == 4,
        le_u32(u32_le_bytes(n)) == n,
{
}

/// Writing what was read gives the four bytes again.
pub proof fn lemma_bytes_of_le_u32(b: Seq<u8>)
    requires
        b.len() == 4,
    ensures
        u32_le_bytes(le_u32(b)) == b,
{
    let b0 = b[0] as int;
    let b1 = b[1] as int;
    let b2 = b[2] as int;
    let b3 = b[3] as int;
    let hi1 = b1 + 256 * b2 + 65536 * b3;
    let hi2 = b2 + 256 * b3;
    let x = b0 + 256 * hi1;
    assert(le_u32(b) as int == x);
    assert(x % 256 == b0 && x / 256 == hi1);
    assert(hi1 % 256 == b1 && hi1 / 256 == hi2);
    assert(hi2 % 256 == b2 && hi2 / 256 == b3);
    assert(x / 65536 == hi2);
    assert(x / 16777216 == b3);
    assert(u32_le_bytes(le_u32(b)) =~= b);
}

/// Reading back an eight-byte number gives the number again.
pub proof fn lemma_le_u64_of_bytes(n: u64)
    ensures
        u64_le_bytes(n).len() == 8,
        le_u64(u64_le_bytes(n)) == n,
{
    let lo = (n % 0x1_0000_0000) as u32;
    let hi = (n / 0x1_0000_0000) as u32;
    let b = u64_le_bytes(n);
    assert(b.subrange(0, 4) =~= u32_le_bytes(lo));
    assert(b.subrange(4, 8) =~= u32_le_bytes(hi));
    lemma_le_u32_of_bytes(lo);
    lemma_le_u32_of_bytes(hi);
}

/// `byteorder::LittleEndian::write_u32` on a buffer of four bytes: the buffer
/// then holds the little-endian bytes of `n`.
#[verifier::external_body]
pub(crate) fn encode_u32(n: u32) -> (out: [u8; 4])
    ensures
        out@ == u32_le_bytes(n),
{
    let mut buf = [0u8; 4];
    LittleEndian::write_u32(&mut buf, n);
    buf
}

/// `byteorder::LittleEndian::write_u64` on a buffer of eight bytes: the buffer
/// then holds the little-endian bytes of `n`.
#[verifier::external_body]
pub(crate) fn encode_u64(n: u64) -> (out: [u8; 8])
    ensures
        out@ == u64_le_bytes(n),
{
    let mut buf = [0u8; 8];
    LittleEndian::write_u64(&mut buf, n);
    buf
}

/// `byteorder::LittleEndian::read_u32`: the number that the first four bytes
/// of `buf` spell, least significant byte first. It panics on a shorter
/// buffer, which the precondition leaves out.
#[verifier::external_body]
pub(crate) fn decode_u32(buf: &[u8]) -> (n: u32)
    requires
        buf@.len() >= 4,
    ensures
        n == le_u32(buf@),
{
    LittleEndian::read_u32(buf)
}

/// Appends the bytes of `src` to `out`.
pub fn append_bytes(out: &mut Vec<u8>, src: &[u8])
    ensures
        final(out)@ == old(out)@ + src@,
{
    let mut i: usize = 0;
    while i < src.len()
        invariant
            i <= src@.len(),
            out@ == old(out)@ + src@.subrange(0, i as int),
        decreases src@.len() - i,
    {
        out.push(src[i]);
        i += 1;
        proof {
            assert(out@ =~= old(out)@ + src@.subrange(0, i as int));
        }
    }
    proof {
        assert(src@.subrange(0, i as int) =~= src@);
    }
}

} // verus!
