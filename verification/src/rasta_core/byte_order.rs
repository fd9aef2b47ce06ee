//! Little-endian field encoding shared by the protocol layers.
use vstd::prelude::*;

verus! {

/// The two bytes of `v`, least significant first.
pub open spec fn le16_bytes(v: u16) -> Seq<u8> {
    seq![(v % 256) as u8, (v / 256) as u8]
}

/// The four bytes of `v`, least significant first.
pub open spec fn le32_bytes(v: u32) -> Seq<u8> {
    seq![
        (v % 0x100) as u8,
        ((v / 0x100) % 0x100) as u8,
        ((v / 0x1_0000) % 0x100) as u8,
        (v / 0x100_0000) as u8,
    ]
}

/// The number that the first two bytes of `s` encode, least significant first.
pub open spec fn le16_value(s: Seq<u8>) -> u16 {
    (s[0] + 256 * s[1]) as u16
}

/// The number that the first four bytes of `s` encode, least significant first.
pub open spec fn le32_value(s: Seq<u8>) -> u32 {
    (s[0] + 0x100 * s[1] + 0x1_0000 * s[2] + 0x100_0000 * s[3]) as u32
}

/// Decoding the encoding of a 16-bit value gives the value back.
pub proof fn lemma_le16_roundtrip(v: u16)
    ensures
        le16_bytes(v).len() == 2,
        le16_value(le16_bytes(v)) == v,
{
    let s = le16_bytes(v);
    let b0 = s[0];
    let b1 = s[1];
    assert(b0 + 256 * b1 == v) by (bit_vector)
        requires
            b0 == v % 256,
            b1 == v / 256,
    ;
}

/// Decoding the encoding of a 32-bit value gives the value back.
#[verifier::rlimit(30)]
pub proof fn lemma_le32_roundtrip(v: u32)
    ensures
        le32_bytes(v).len() == 4,
        le32_value(le32_bytes(v)) == v,
{
    let s = le32_bytes(v);
    let b0 = s[0];
    let b1 = s[1];
    let b2 = s[2];
    let b3 = s[3];
    assert(b0 + 0x100 * b1 + 0x1_0000 * b2 + 0x100_0000 * b3 == v) by (bit_vector)
        requires
            b0 == v % 0x100,
            b1 == (v / 0x100) % 0x100,
            b2 == (v / 0x1_0000) % 0x100,
            b3 == v / 0x100_0000,
    ;
}

/// Encoding the value of two bytes gives the bytes back.
pub proof fn lemma_le16_bytes_of_value(s: Seq<u8>)
    requires
        s.len() == 2,
    ensures
        le16_bytes(le16_value(s)) == s,
{
    let b0 = s[0];
    let b1 = s[1];
    let v = le16_value(s);
    assert(v == b0 + 256 * b1);
    assert(v % 256 == b0 && v / 256 == b1) by (bit_vector)
        requires
            v == b0 + 256 * b1,
    ;
    assert(le16_bytes(v) =~= s);
}

/// Encoding the value of four bytes gives the bytes back.
#[verifier::rlimit(30)]
pub proof fn lemma_le32_bytes_of_value(s: Seq<u8>)
    requires
        s.len() == 4,
    ensures
        le32_bytes(le32_value(s)) == s,
{
    let b0 = s[0];
    let b1 = s[1];
    let b2 = s[2];
    let b3 = s[3];
    let v = le32_value(s);
    assert(v == b0 + 0x100 * b1 + 0x1_0000 * b2 + 0x100_0000 * b3);
    assert(v % 0x100 == b0 && (v / 0x100) % 0x100 == b1 && (v / 0x1_0000) % 0x100 == b2 && v
        / 0x100_0000 == b3) by (bit_vector)
        requires
            v == b0 + 0x100 * b1 + 0x1_0000 * b2 + 0x100_0000 * b3,
    ;
    assert(le32_bytes(v) =~= s);
}

/// Reads the 16-bit little-endian field at `pos`.
pub fn read_u16_le(buf: &[u8], pos: usize) -> (v: u16)
    requires
        pos + 2 <= buf@.len(),
    ensures
        v == le16_value(buf@.subrange(pos as int, pos + 2)),
{
    let b0 = buf[pos];
    let b1 = buf[pos + 1];
    let v = (b0 as u16) | ((b1 as u16) << 8);
    assert(v == b0 + 256 * b1) by (bit_vector)
        requires
            v == (b0 as u16) | ((b1 as u16) << 8),
    ;
    v
}

/// Reads the 32-bit little-endian field at `pos`.
pub fn read_u32_le(buf: &[u8], pos: usize) -> (v: u32)
    requires
        pos + 4 <= buf@.len(),
    ensures
        v == le32_value(buf@.subrange(pos as int, pos + 4)),
{
    let b0 = buf[pos];
    let b1 = buf[pos + 1];
    let b2 = buf[pos + 2];
    let b3 = buf[pos + 3];
    let v = (b0 as u32) | ((b1 as u32) << 8) | ((b2 as u32) << 16) | ((b3 as u32) << 24);
    assert(v == b0 + 0x100 * b1 + 0x1_0000 * b2 + 0x100_0000 * b3) by (bit_vector)
        requires
            v == (b0 as u32) | ((b1 as u32) << 8) | ((b2 as u32) << 16) | ((b3 as u32) << 24),
    ;
    v
}

/// Writes `v` as a 16-bit little-endian field at `pos`.
pub fn write_u16_le(buf: &mut [u8], pos: usize, v: u16)
    requires
        pos + 2 <= old(buf)@.len(),
    ensures
        final(buf)@ == old(buf)@.take(pos as int) + le16_bytes(v) + old(buf)@.skip(pos + 2),
{
    let lo = (v & 0xff) as u8;
    let hi = (v >> 8) as u8;
    assert(lo == v % 256 && hi == v / 256) by (bit_vector)
        requires
            lo == (v & 0xff) as u8,
            hi == (v >> 8) as u8,
    ;
    buf[pos] = lo;
    buf[pos + 1] = hi;
    assert(buf@ =~= old(buf)@.take(pos as int) + le16_bytes(v) + old(buf)@.skip(pos + 2));
}

/// Writes `v` as a 32-bit little-endian field at `pos`.
pub fn write_u32_le(buf: &mut [u8], pos: usize, v: u32)
    requires
        pos + 4 <= old(buf)@.len(),
    ensures
        final(buf)@ == old(buf)@.take(pos as int) + le32_bytes(v) + old(buf)@.skip(pos + 4),
{
    let b0 = (v & 0xff) as u8;
    let b1 = ((v >> 8) & 0xff) as u8;
    let b2 = ((v >> 16) & 0xff) as u8;
    let b3 = (v >> 24) as u8;
    assert(b0 == v % 0x100 && b1 == (v / 0x100) % 0x100 && b2 == (v / 0x1_0000) % 0x100 && b3 == v
        / 0x100_0000) by (bit_vector)
        requires
            b0 == (v & 0xff) as u8,
            b1 == ((v >> 8) & 0xff) as u8,
            b2 == ((v >> 16) & 0xff) as u8,
            b3 == (v >> 24) as u8,
    ;
    buf[pos] = b0;
    buf[pos + 1] = b1;
    buf[pos + 2] = b2;
    buf[pos + 3] = b3;
    assert(buf@ =~= old(buf)@.take(pos as int) + le32_bytes(v) + old(buf)@.skip(pos + 4));
}

/// Copies `src` into `dst` starting at `pos`.
pub fn copy_into(dst: &mut [u8], pos: usize, src: &[u8])
    requires
        pos + src@.len() <= old(dst)@.len(),
    ensures
        final(dst)@ == old(dst)@.take(pos as int) + src@ + old(dst)@.skip(pos + src@.len()),
{
    let n = src.len();
    let mut i: usize = 0;
    while i < n
        invariant
            n == src@.len(),
            i <= n,
            pos + n <= dst.len(),
            dst@.len() == old(dst)@.len(),
            dst@ =~= old(dst)@.take(pos as int) + src@.take(i as int) + old(dst)@.skip(pos + i),
        decreases n - i,
    {
        dst[pos + i] = src[i];
        i = i + 1;
    }
    assert(src@.take(n as int) =~= src@);
}

} // verus!
