//! Redundancy management for the Redundancy Layer.
//!
//! The layer is independent of UDP, TCP or Ethernet: it drives two objects
//! that implement the portable `Transport` trait and offers one logical
//! channel to the Safety and Retransmission Layer above it. Every frame is
//! sent on both channels; the copy that arrives second is discarded by its
//! sequence number.
use crate::platform::transport::{Transport, TransportError};
use crate::rasta_core::byte_order::{
    copy_into, le16_bytes, le16_value, le32_bytes, le32_value, lemma_le16_bytes_of_value,
    lemma_le16_roundtrip, lemma_le32_bytes_of_value, lemma_le32_roundtrip, read_u16_le,
    read_u32_le, write_u16_le, write_u32_le,
};
use vstd::prelude::*;

verus! {

/// The check code that protects a redundancy frame.
#[derive(Clone, Copy, Debug, PartialEq, Eq, Structural)]
pub enum RedundancyCheckCode {
    NoCode,
    Crc16,
    Crc32,
}

#[derive(Clone, Copy, Debug)]
pub struct RedundancyConfig {
    pub check_code: RedundancyCheckCode,
}

impl Default for RedundancyConfig {
    fn default() -> (c: Self)
        ensures
            c.check_code == RedundancyCheckCode::NoCode,
    {
        Self { check_code: RedundancyCheckCode::NoCode }
    }
}

/// The number of check-code bytes at the end of a frame.
pub open spec fn check_code_size(code: RedundancyCheckCode) -> nat {
    match code {
        RedundancyCheckCode::NoCode => 0,
        RedundancyCheckCode::Crc16 => 2,
        RedundancyCheckCode::Crc32 => 4,
    }
}

impl RedundancyConfig {
    fn check_code_len(&self) -> (n: usize)
        ensures
            n == check_code_size(self.check_code),
    {
        match self.check_code {
            RedundancyCheckCode::NoCode => 0,
            RedundancyCheckCode::Crc16 => 2,
            RedundancyCheckCode::Crc32 => 4,
        }
    }
}

// ---------------------------------------------------------------------------
// CRC definitions
// ---------------------------------------------------------------------------
/// One bit step of CRC-16/CCITT (polynomial 0x1021, most significant bit first).
pub open spec fn crc16_bit(crc: u16) -> u16 {
    if crc & 0x8000 != 0 {
        (crc << 1) ^ 0x1021
    } else {
        crc << 1
    }
}

/// `n` bit steps of CRC-16/CCITT.
pub open spec fn crc16_bits(crc: u16, n: nat) -> u16
    decreases n,
{
    if n == 0 {
        crc
    } else {
        crc16_bits(crc16_bit(crc), (n - 1) as nat)
    }
}

/// The CRC-16/CCITT register after absorbing `data`, starting from 0xffff.
pub open spec fn crc16_spec(data: Seq<u8>) -> u16
    decreases data.len(),
{
    if data.len() == 0 {
        0xffff
    } else {
        crc16_bits(crc16_spec(data.drop_last()) ^ ((data.last() as u16) << 8), 8)
    }
}

/// One bit step of the reflected CRC-32 (polynomial 0xedb88320).
pub open spec fn crc32_bit(crc: u32) -> u32 {
    if crc & 1 != 0 {
        (crc >> 1) ^ 0xedb8_8320
    } else {
        crc >> 1
    }
}

/// `n` bit steps of the reflected CRC-32.
pub open spec fn crc32_bits(crc: u32, n: nat) -> u32
    decreases n,
{
    if n == 0 {
        crc
    } else {
        crc32_bits(crc32_bit(crc), (n - 1) as nat)
    }
}

/// The CRC-32 register after absorbing `data`, starting from 0xffffffff.
pub open spec fn crc32_register(data: Seq<u8>) -> u32
    decreases data.len(),
{
    if data.len() == 0 {
        0xffff_ffff
    } else {
        crc32_bits(crc32_register(data.drop_last()) ^ (data.last() as u32), 8)
    }
}

/// The CRC-32 of `data` (the register, inverted).
pub open spec fn crc32_spec(data: Seq<u8>) -> u32 {
    !crc32_register(data)
}

pub fn crc16(data: &[u8]) -> (crc: u16)
    ensures
        crc == crc16_spec(data@),
{
    let mut crc: u16 = 0xffff;
    let n = data.len();
    let mut i: usize = 0;
    while i < n
        invariant
            n == data@.len(),
            i <= n,
            crc == crc16_spec(data@.take(i as int)),
        decreases n - i,
    {
        let byte = data[i];
        assert(data@.take(i + 1).drop_last() =~= data@.take(i as int));
        let ghost start = crc ^ ((byte as u16) << 8);
        crc = crc ^ ((byte as u16) << 8);
        let mut k: usize = 0;
        while k < 8
            invariant
                k <= 8,
                crc16_bits(crc, (8 - k) as nat) == crc16_bits(start, 8),
            decreases 8 - k,
        {
            if (crc & 0x8000) != 0 {
                crc = (crc << 1) ^ 0x1021;
            } else {
                crc = crc << 1;
            }
            k = k + 1;
        }
        i = i + 1;
    }
    assert(data@.take(n as int) =~= data@);
    crc
}

pub fn crc32(data: &[u8]) -> (crc: u32)
    ensures
        crc == crc32_spec(data@),
{
    let mut crc: u32 = 0xffff_ffff;
    let n = data.len();
    let mut i: usize = 0;
    while i < n
        invariant
            n == data@.len(),
            i <= n,
            crc == crc32_register(data@.take(i as int)),
        decreases n - i,
    {
        let byte = data[i];
        assert(data@.take(i + 1).drop_last() =~= data@.take(i as int));
        let ghost start = crc ^ (byte as u32);
        crc = crc ^ (byte as u32);
        let mut k: usize = 0;
        while k < 8
            invariant
                k <= 8,
                crc32_bits(crc, (8 - k) as nat) == crc32_bits(start, 8),
            decreases 8 - k,
        {
            if (crc & 1) != 0 {
                crc = (crc >> 1) ^ 0xedb8_8320;
            } else {
                crc = crc >> 1;
            }
            k = k + 1;
        }
        i = i + 1;
    }
    assert(data@.take(n as int) =~= data@);
    !crc
}


// ---------------------------------------------------------------------------
// CRC laws
// ---------------------------------------------------------------------------
/// A register of zeros stays zero.
proof fn lemma_crc16_bits_zero(n: nat)
    ensures
        crc16_bits(0, n) == 0,
    decreases n,
{
    if n > 0 {
        assert(crc16_bit(0) == 0) by (bit_vector);
        lemma_crc16_bits_zero((n - 1) as nat);
    }
}

/// `m` bit steps followed by `n` more are `m + n` bit steps.
proof fn lemma_crc16_bits_add(c: u16, m: nat, n: nat)
    ensures
        crc16_bits(crc16_bits(c, m), n) == crc16_bits(c, m + n),
    decreases m,
{
    if m > 0 {
        lemma_crc16_bits_add(crc16_bit(c), (m - 1) as nat, n);
        assert((m - 1) as nat + n == (m + n - 1) as nat);
    }
}

/// A byte in the low half of the register moves to the high half in eight
/// steps, untouched by the polynomial.
proof fn lemma_crc16_low_byte(v: u16, k: nat)
    requires
        v < 256,
        k <= 8,
    ensures
        crc16_bits(v, k) == v << (k as u16),
    decreases k,
{
    if k == 0 {
        let ku = k as u16;
        assert(v << ku == v) by (bit_vector)
            requires
                ku == 0,
        ;
    } else {
        let j = (k - 1) as nat;
        lemma_crc16_low_byte(v, j);
        lemma_crc16_bits_add(v, j, 1);
        let ju = j as u16;
        let ku = k as u16;
        let w = v << ju;
        assert(crc16_bit(w) == v << ku) by (bit_vector)
            requires
                v < 256,
                ju < 8,
                ku as int == ju + 1,
                w == v << ju,
        ;
        assert(crc16_bits(w, 1) == crc16_bits(crc16_bit(w), 0));
        assert(j + 1 == k);
    }
}

/// Appending the CRC-16 of `data` to it, most significant byte first, gives
/// a zero remainder.
pub proof fn lemma_crc16_zero_remainder(data: Seq<u8>)
    ensures
        crc16_spec(data + seq![(crc16_spec(data) / 256) as u8, (crc16_spec(data) % 256) as u8]) == 0,
{
    let c = crc16_spec(data);
    let hi = (c / 256) as u8;
    let lo = (c % 256) as u8;
    let d1 = data.push(hi);
    let d2 = d1.push(lo);
    assert(data + seq![hi, lo] =~= d2);
    assert(d2.drop_last() =~= d1);
    assert(d1.drop_last() =~= data);
    let x = c ^ ((hi as u16) << 8);
    assert(x == lo as u16 && (lo as u16) < 256) by (bit_vector)
        requires
            hi == (c / 256) as u8,
            lo == (c % 256) as u8,
            x == c ^ ((hi as u16) << 8),
    ;
    lemma_crc16_low_byte(x, 8);
    let y = crc16_bits(x, 8);
    assert(y == x << 8u16);
    assert(y ^ ((lo as u16) << 8) == 0) by (bit_vector)
        requires
            y == x << 8u16,
            x == lo as u16,
    ;
    assert(d1.last() == hi && d2.last() == lo);
    assert(crc16_spec(d1) == crc16_bits(c ^ ((hi as u16) << 8), 8));
    assert(crc16_spec(d2) == crc16_bits(crc16_spec(d1) ^ ((lo as u16) << 8), 8));
    lemma_crc16_bits_zero(8);
}

/// One bit step of CRC-32 is linear over xor.
proof fn lemma_crc32_bit_linear(a: u32, b: u32)
    ensures
        crc32_bit(a ^ b) == crc32_bit(a) ^ crc32_bit(b),
{
    assert(crc32_bit(a ^ b) == crc32_bit(a) ^ crc32_bit(b)) by (bit_vector);
}

/// Bit steps of CRC-32 are linear over xor.
proof fn lemma_crc32_bits_linear(a: u32, b: u32, n: nat)
    ensures
        crc32_bits(a ^ b, n) == crc32_bits(a, n) ^ crc32_bits(b, n),
    decreases n,
{
    if n > 0 {
        lemma_crc32_bit_linear(a, b);
        lemma_crc32_bits_linear(crc32_bit(a), crc32_bit(b), (n - 1) as nat);
    }
}

/// `m` bit steps followed by `n` more are `m + n` bit steps.
proof fn lemma_crc32_bits_add(c: u32, m: nat, n: nat)
    ensures
        crc32_bits(crc32_bits(c, m), n) == crc32_bits(c, m + n),
    decreases m,
{
    if m > 0 {
        lemma_crc32_bits_add(crc32_bit(c), (m - 1) as nat, n);
        assert((m - 1) as nat + n == (m + n - 1) as nat);
    }
}

/// A register whose low byte is clear is shifted down by eight steps,
/// untouched by the polynomial.
proof fn lemma_crc32_high_bytes(v: u32, k: nat)
    requires
        v & 0xff == 0,
        k <= 8,
    ensures
        crc32_bits(v, k) == v >> (k as u32),
    decreases k,
{
    if k == 0 {
        let ku = k as u32;
        assert(v >> ku == v) by (bit_vector)
            requires
                ku == 0,
        ;
    } else {
        let j = (k - 1) as nat;
        lemma_crc32_high_bytes(v, j);
        lemma_crc32_bits_add(v, j, 1);
        let ju = j as u32;
        let ku = k as u32;
        let w = v >> ju;
        assert(crc32_bit(w) == v >> ku) by (bit_vector)
            requires
                v & 0xff == 0,
                ju < 8,
                ku as int == ju + 1,
                w == v >> ju,
        ;
        assert(crc32_bits(w, 1) == crc32_bits(crc32_bit(w), 0));
        assert(j + 1 == k);
    }
}

/// Absorbing the low byte of `t` into a register `bits(z, m) ^ t` leaves
/// `bits(z, m + 8) ^ (t >> 8)`.
proof fn lemma_crc32_absorb_byte(z: u32, m: nat, t: u32, b: u8)
    requires
        b == (t % 256) as u8,
    ensures
        crc32_bits((crc32_bits(z, m) ^ t) ^ (b as u32), 8) == crc32_bits(z, m + 8) ^ (t >> 8u32),
{
    let hi = t & 0xffff_ff00;
    assert((t ^ (b as u32)) == hi && hi & 0xff == 0 && (hi >> 8u32) == (t >> 8u32)) by (bit_vector)
        requires
            b == (t % 256) as u8,
            hi == t & 0xffff_ff00,
    ;
    let q = crc32_bits(z, m);
    assert((q ^ t) ^ (b as u32) == q ^ hi) by (bit_vector)
        requires
            (t ^ (b as u32)) == hi,
    ;
    lemma_crc32_bits_linear(crc32_bits(z, m), hi, 8);
    lemma_crc32_bits_add(z, m, 8);
    lemma_crc32_high_bytes(hi, 8);
}

/// Thirty-two bit steps of CRC-32 from an all-ones register.
proof fn lemma_crc32_all_ones()
    ensures
        crc32_bits(0xffff_ffff, 32) == 0xdebb_20e3,
{
    assert(crc32_bit(0xffffffff) == 0x92477cdf && crc32_bit(0x92477cdf) == 0xa49b3d4f && crc32_bit(0xa49b3d4f) == 0xbff51d87 && crc32_bit(0xbff51d87) == 0xb2420de3 && crc32_bit(0xb2420de3) == 0xb49985d1 && crc32_bit(0xb49985d1) == 0xb7f441c8 && crc32_bit(0xb7f441c8) == 0x5bfa20e4 && crc32_bit(0x5bfa20e4) == 0x2dfd1072 && crc32_bit(0x2dfd1072) == 0x16fe8839 && crc32_bit(0x16fe8839) == 0xe6c7c73c && crc32_bit(0xe6c7c73c) == 0x7363e39e && crc32_bit(0x7363e39e) == 0x39b1f1cf && crc32_bit(0x39b1f1cf) == 0xf1607bc7 && crc32_bit(0xf1607bc7) == 0x9508bec3 && crc32_bit(0x9508bec3) == 0xa73cdc41 && crc32_bit(0xa73cdc41) == 0xbe26ed00 && crc32_bit(0xbe26ed00) == 0x5f137680 && crc32_bit(0x5f137680) == 0x2f89bb40 && crc32_bit(0x2f89bb40) == 0x17c4dda0 && crc32_bit(0x17c4dda0) == 0x0be26ed0 && crc32_bit(0x0be26ed0) == 0x05f13768 && crc32_bit(0x05f13768) == 0x02f89bb4 && crc32_bit(0x02f89bb4) == 0x017c4dda && crc32_bit(0x017c4dda) == 0x00be26ed && crc32_bit(0x00be26ed) == 0xede79056 && crc32_bit(0xede79056) == 0x76f3c82b && crc32_bit(0x76f3c82b) == 0xd6c16735 && crc32_bit(0xd6c16735) == 0x86d830ba && crc32_bit(0x86d830ba) == 0x436c185d && crc32_bit(0x436c185d) == 0xcc0e8f0e && crc32_bit(0xcc0e8f0e) == 0x66074787 && crc32_bit(0x66074787) == 0xdebb20e3) by (bit_vector);
    assert(crc32_bits(0xffffffff, 32) == crc32_bits(0x92477cdf, 31));
    assert(crc32_bits(0x92477cdf, 31) == crc32_bits(0xa49b3d4f, 30));
    assert(crc32_bits(0xa49b3d4f, 30) == crc32_bits(0xbff51d87, 29));
    assert(crc32_bits(0xbff51d87, 29) == crc32_bits(0xb2420de3, 28));
    assert(crc32_bits(0xb2420de3, 28) == crc32_bits(0xb49985d1, 27));
    assert(crc32_bits(0xb49985d1, 27) == crc32_bits(0xb7f441c8, 26));
    assert(crc32_bits(0xb7f441c8, 26) == crc32_bits(0x5bfa20e4, 25));
    assert(crc32_bits(0x5bfa20e4, 25) == crc32_bits(0x2dfd1072, 24));
    assert(crc32_bits(0x2dfd1072, 24) == crc32_bits(0x16fe8839, 23));
    assert(crc32_bits(0x16fe8839, 23) == crc32_bits(0xe6c7c73c, 22));
    assert(crc32_bits(0xe6c7c73c, 22) == crc32_bits(0x7363e39e, 21));
    assert(crc32_bits(0x7363e39e, 21) == crc32_bits(0x39b1f1cf, 20));
    assert(crc32_bits(0x39b1f1cf, 20) == crc32_bits(0xf1607bc7, 19));
    assert(crc32_bits(0xf1607bc7, 19) == crc32_bits(0x9508bec3, 18));
    assert(crc32_bits(0x9508bec3, 18) == crc32_bits(0xa73cdc41, 17));
    assert(crc32_bits(0xa73cdc41, 17) == crc32_bits(0xbe26ed00, 16));
    assert(crc32_bits(0xbe26ed00, 16) == crc32_bits(0x5f137680, 15));
    assert(crc32_bits(0x5f137680, 15) == crc32_bits(0x2f89bb40, 14));
    assert(crc32_bits(0x2f89bb40, 14) == crc32_bits(0x17c4dda0, 13));
    assert(crc32_bits(0x17c4dda0, 13) == crc32_bits(0x0be26ed0, 12));
    assert(crc32_bits(0x0be26ed0, 12) == crc32_bits(0x05f13768, 11));
    assert(crc32_bits(0x05f13768, 11) == crc32_bits(0x02f89bb4, 10));
    assert(crc32_bits(0x02f89bb4, 10) == crc32_bits(0x017c4dda, 9));
    assert(crc32_bits(0x017c4dda, 9) == crc32_bits(0x00be26ed, 8));
    assert(crc32_bits(0x00be26ed, 8) == crc32_bits(0xede79056, 7));
    assert(crc32_bits(0xede79056, 7) == crc32_bits(0x76f3c82b, 6));
    assert(crc32_bits(0x76f3c82b, 6) == crc32_bits(0xd6c16735, 5));
    assert(crc32_bits(0xd6c16735, 5) == crc32_bits(0x86d830ba, 4));
    assert(crc32_bits(0x86d830ba, 4) == crc32_bits(0x436c185d, 3));
    assert(crc32_bits(0x436c185d, 3) == crc32_bits(0xcc0e8f0e, 2));
    assert(crc32_bits(0xcc0e8f0e, 2) == crc32_bits(0x66074787, 1));
    assert(crc32_bits(0x66074787, 1) == crc32_bits(0xdebb20e3, 0));
}

/// Appending the CRC-32 of `data` to it, least significant byte first,
/// gives the CRC-32 residue 0x2144DF1C, whatever `data` is.
#[verifier::rlimit(40)]
pub proof fn lemma_crc32_residue(data: Seq<u8>)
    ensures
        crc32_spec(data + le32_bytes(crc32_spec(data))) == 0x2144_df1c,
{
    let r = crc32_register(data);
    let x = crc32_spec(data);
    let bytes = le32_bytes(x);
    let d1 = data.push(bytes[0]);
    let d2 = d1.push(bytes[1]);
    let d3 = d2.push(bytes[2]);
    let d4 = d3.push(bytes[3]);
    assert(data + bytes =~= d4);
    assert(d4.drop_last() =~= d3);
    assert(d3.drop_last() =~= d2);
    assert(d2.drop_last() =~= d1);
    assert(d1.drop_last() =~= data);
    let z = r ^ x;
    let t1 = x >> 8u32;
    let t2 = x >> 16u32;
    let t3 = x >> 24u32;
    let b0 = bytes[0];
    let b1 = bytes[1];
    let b2 = bytes[2];
    let b3 = bytes[3];
    assert(z == 0xffff_ffff) by (bit_vector)
        requires
            x == !r,
            z == r ^ x,
    ;
    assert(t1 == x / 0x100 && t2 == x / 0x1_0000 && t3 == x / 0x100_0000 && t2 == t1 >> 8u32 && t3
        == t2 >> 8u32 && t3 >> 8u32 == 0 && t3 < 256) by (bit_vector)
        requires
            t1 == x >> 8u32,
            t2 == x >> 16u32,
            t3 == x >> 24u32,
    ;
    assert(crc32_bits(z, 0) == z);
    assert(z ^ x == r) by (bit_vector)
        requires
            z == r ^ x,
    ;
    assert(d1.last() == b0 && d2.last() == b1 && d3.last() == b2 && d4.last() == b3);
    lemma_crc32_absorb_byte(z, 0, x, b0);
    assert(crc32_register(d1) == crc32_bits(z, 8) ^ t1);
    lemma_crc32_absorb_byte(z, 8, t1, b1);
    assert(crc32_register(d2) == crc32_bits(z, 16) ^ t2);
    lemma_crc32_absorb_byte(z, 16, t2, b2);
    assert(crc32_register(d3) == crc32_bits(z, 24) ^ t3);
    lemma_crc32_absorb_byte(z, 24, t3, b3);
    assert(crc32_register(d4) == crc32_bits(z, 32) ^ (t3 >> 8u32));
    lemma_crc32_all_ones();
    let q = crc32_bits(z, 32);
    assert(q ^ (t3 >> 8u32) == q && !q == 0x2144_df1c) by (bit_vector)
        requires
            t3 >> 8u32 == 0,
            q == 0xdebb_20e3,
    ;
}

/// Bit steps of CRC-16 lose no information: different registers stay
/// different.
proof fn lemma_crc16_bits_injective(a: u16, b: u16, n: nat)
    requires
        a != b,
    ensures
        crc16_bits(a, n) != crc16_bits(b, n),
    decreases n,
{
    if n > 0 {
        assert(crc16_bit(a) != crc16_bit(b)) by (bit_vector)
            requires
                a != b,
        ;
        lemma_crc16_bits_injective(crc16_bit(a), crc16_bit(b), (n - 1) as nat);
    }
}

/// Bit steps of CRC-32 lose no information: different registers stay
/// different.
proof fn lemma_crc32_bits_injective(a: u32, b: u32, n: nat)
    requires
        a != b,
    ensures
        crc32_bits(a, n) != crc32_bits(b, n),
    decreases n,
{
    if n > 0 {
        assert(crc32_bit(a) != crc32_bit(b)) by (bit_vector)
            requires
                a != b,
        ;
        lemma_crc32_bits_injective(crc32_bit(a), crc32_bit(b), (n - 1) as nat);
    }
}

/// `a` and `b` have the same length and differ in the byte at `i` alone.
pub open spec fn differ_in_one_byte(a: Seq<u8>, b: Seq<u8>, i: int) -> bool {
    &&& a.len() == b.len()
    &&& 0 <= i < a.len()
    &&& a[i] != b[i]
    &&& forall|j: int| 0 <= j < a.len() && j != i ==> #[trigger] a[j] == b[j]
}

/// Two messages that differ in one byte have different CRC-16 and CRC-32
/// registers.
proof fn lemma_crc_registers_differ(a: Seq<u8>, b: Seq<u8>, i: int)
    requires
        differ_in_one_byte(a, b, i),
    ensures
        crc16_spec(a) != crc16_spec(b),
        crc32_register(a) != crc32_register(b),
    decreases a.len(),
{
    let n = a.len() as int;
    let x = a.last();
    let y = b.last();
    let pa = a.drop_last();
    let pb = b.drop_last();
    if i == n - 1 {
        assert(pa =~= pb) by {
            assert forall|j: int| 0 <= j < pa.len() implies pa[j] == pb[j] by {
                assert(a[j] == b[j]);
            }
        }
        let r16 = crc16_spec(pa);
        let r32 = crc32_register(pa);
        assert(r16 ^ ((x as u16) << 8) != r16 ^ ((y as u16) << 8) && r32 ^ (x as u32) != r32 ^ (y
            as u32)) by (bit_vector)
            requires
                x != y,
        ;
        lemma_crc16_bits_injective(r16 ^ ((x as u16) << 8), r16 ^ ((y as u16) << 8), 8);
        lemma_crc32_bits_injective(r32 ^ (x as u32), r32 ^ (y as u32), 8);
    } else {
        assert(x == b[n - 1]);
        assert(differ_in_one_byte(pa, pb, i)) by {
            assert forall|j: int| 0 <= j < pa.len() && j != i implies #[trigger] pa[j] == pb[j] by {
                assert(a[j] == b[j]);
            }
        }
        lemma_crc_registers_differ(pa, pb, i);
        let a16 = crc16_spec(pa);
        let b16 = crc16_spec(pb);
        let a32 = crc32_register(pa);
        let b32 = crc32_register(pb);
        assert(a16 ^ ((x as u16) << 8) != b16 ^ ((x as u16) << 8) && a32 ^ (x as u32) != b32 ^ (x
            as u32)) by (bit_vector)
            requires
                a16 != b16,
                a32 != b32,
        ;
        lemma_crc16_bits_injective(a16 ^ ((x as u16) << 8), b16 ^ ((x as u16) << 8), 8);
        lemma_crc32_bits_injective(a32 ^ (x as u32), b32 ^ (x as u32), 8);
    }
}

/// A frame protected by CRC-16 or CRC-32 whose bytes are corrupted in any
/// one place (a single flipped bit among them) no longer carries a valid
/// check code.
pub proof fn lemma_check_code_detects_corrupted_byte(
    code: RedundancyCheckCode,
    f: Seq<u8>,
    g: Seq<u8>,
    i: int,
)
    requires
        check_code_size(code) > 0,
        differ_in_one_byte(f, g, i),
        check_code_valid(code, f),
    ensures
        !check_code_valid(code, g),
{
    let cs = check_code_size(code) as int;
    let len = f.len() as int;
    let bf = f.take(len - cs);
    let bg = g.take(len - cs);
    if i < len - cs {
        assert(f.skip(len - cs) =~= g.skip(len - cs)) by {
            assert forall|j: int| 0 <= j < cs implies #[trigger] f.skip(len - cs)[j] == g.skip(len - cs)[j] by {
                assert(f[len - cs + j] == g[len - cs + j]);
            }
        }
        assert(differ_in_one_byte(bf, bg, i)) by {
            assert forall|j: int| 0 <= j < bf.len() && j != i implies #[trigger] bf[j] == bg[j] by {
                assert(f[j] == g[j]);
            }
        }
        lemma_crc_registers_differ(bf, bg, i);
        if check_code_valid(code, g) {
            match code {
                RedundancyCheckCode::Crc16 => {
                    lemma_le16_roundtrip(crc16_spec(bf));
                    lemma_le16_roundtrip(crc16_spec(bg));
                },
                RedundancyCheckCode::Crc32 => {
                    lemma_le32_roundtrip(crc32_spec(bf));
                    lemma_le32_roundtrip(crc32_spec(bg));
                    let p = crc32_register(bf);
                    let q = crc32_register(bg);
                    assert(!p != !q) by (bit_vector)
                        requires
                            p != q,
                    ;
                },
                RedundancyCheckCode::NoCode => {},
            }
        }
    } else {
        assert(bf =~= bg) by {
            assert forall|j: int| 0 <= j < bf.len() implies bf[j] == bg[j] by {
                assert(f[j] == g[j]);
            }
        }
        assert(f.skip(len - cs)[i - (len - cs)] != g.skip(len - cs)[i - (len - cs)]);
    }
}

// ---------------------------------------------------------------------------
// Frame format
// ---------------------------------------------------------------------------
/// Bytes before the payload: length (2), reserved (2), sequence number (4).
pub open spec fn frame_header_size() -> nat {
    8
}

/// The largest frame the layer sends or reads from a channel.
pub open spec fn max_frame_size() -> nat {
    520
}

/// The check code appended to the frame body `body`.
pub open spec fn check_code_bytes(code: RedundancyCheckCode, body: Seq<u8>) -> Seq<u8> {
    match code {
        RedundancyCheckCode::NoCode => Seq::empty(),
        RedundancyCheckCode::Crc16 => le16_bytes(crc16_spec(body)),
        RedundancyCheckCode::Crc32 => le32_bytes(crc32_spec(body)),
    }
}

/// The frame that carries `data` with sequence number `seq`.
pub open spec fn encode_frame(code: RedundancyCheckCode, seq: u32, data: Seq<u8>) -> Seq<u8> {
    let total = data.len() + frame_header_size() + check_code_size(code);
    let body = le16_bytes(total as u16) + le16_bytes(0) + le32_bytes(seq) + data;
    body + check_code_bytes(code, body)
}

/// `f` ends in the check code of the bytes before it.
pub open spec fn check_code_valid(code: RedundancyCheckCode, f: Seq<u8>) -> bool {
    let cs = check_code_size(code);
    &&& f.len() >= cs
    &&& f.skip(f.len() - cs) == check_code_bytes(code, f.take(f.len() - cs))
}

/// The sequence number and payload that the received bytes `f` carry, if
/// they form a well-formed frame.
pub open spec fn decode_frame(code: RedundancyCheckCode, f: Seq<u8>) -> Option<(u32, Seq<u8>)> {
    let cs = check_code_size(code);
    if f.len() < frame_header_size() + cs || le16_value(f) != f.len() || !check_code_valid(
        code,
        f,
    ) {
        None
    } else {
        Some((le32_value(f.subrange(4, 8)), f.subrange(8, f.len() - cs)))
    }
}

/// A received sequence number `seq` is new when it lies less than half the
/// 32-bit circle ahead of (or at) the next expected number `rx_seq`.
pub open spec fn is_fresh(rx_seq: u32, seq: u32) -> bool {
    (seq - rx_seq) % 0x1_0000_0000 < 0x8000_0000
}

/// The next sequence number after `seq`, wrapping at 2^32.
pub open spec fn seq_successor(seq: u32) -> u32 {
    ((seq + 1) % 0x1_0000_0000) as u32
}

/// What examining the first `bytes_read` bytes of `frame` answers, and the
/// next expected sequence number afterwards, for an output buffer of
/// `out_len` bytes.
pub open spec fn accept_outcome(
    code: RedundancyCheckCode,
    rx_seq: u32,
    frame: Seq<u8>,
    bytes_read: nat,
    out_len: nat,
) -> (Result<Option<usize>, TransportError>, u32) {
    let cs = check_code_size(code);
    if bytes_read < frame_header_size() + cs {
        (Ok(None), rx_seq)
    } else if frame.len() < 2 {
        (Err(TransportError::BufferTooSmall), rx_seq)
    } else if le16_value(frame) != bytes_read {
        (Ok(None), rx_seq)
    } else if cs > 0 && bytes_read > frame.len() {
        (Err(TransportError::BufferTooSmall), rx_seq)
    } else if cs > 0 && !check_code_valid(code, frame.take(bytes_read as int)) {
        (Ok(None), rx_seq)
    } else if frame.len() < frame_header_size() {
        (Err(TransportError::BufferTooSmall), rx_seq)
    } else if !is_fresh(rx_seq, le32_value(frame.subrange(4, 8))) {
        (Ok(None), rx_seq)
    } else {
        let seq = le32_value(frame.subrange(4, 8));
        let n = (bytes_read - cs - frame_header_size()) as nat;
        if n > out_len || bytes_read - cs > frame.len() {
            (Err(TransportError::BufferTooSmall), seq_successor(seq))
        } else {
            (Ok(Some(n as usize)), seq_successor(seq))
        }
    }
}

/// What one channel's receive returned, with the bytes then in the read
/// buffer.
pub type ChannelRead = (Result<usize, TransportError>, Seq<u8>);

/// One receive of the layer: channel A's read, and channel B's read when B
/// was read.
pub type ReceiveRecord = (ChannelRead, Option<ChannelRead>);

/// What one channel's read leads to, with the next expected sequence number
/// `rx_seq` and an output buffer of `out_len` bytes: the answer when the
/// receive ends with it (a payload length or an error), or `None` when the
/// receive goes on; then the next expected sequence number afterwards, and
/// whether the channel reported `ReceiveFailed`.
pub open spec fn channel_step(
    code: RedundancyCheckCode,
    rx_seq: u32,
    read: ChannelRead,
    out_len: nat,
) -> (Option<Result<usize, TransportError>>, u32, bool) {
    match read.0 {
        Ok(n) => if n == 0 {
            (None, rx_seq, false)
        } else {
            let (res, rx) = accept_outcome(code, rx_seq, read.1, n as nat, out_len);
            match res {
                Ok(Some(len)) => (Some(Ok(len)), rx, false),
                Ok(None) => (None, rx, false),
                Err(e) => (Some(Err(e)), rx, false),
            }
        },
        Err(e) => if e == TransportError::ReceiveFailed {
            (None, rx_seq, true)
        } else {
            (Some(Err(e)), rx_seq, false)
        },
    }
}

/// Channel B is read exactly when channel A's read did not end the receive.
pub open spec fn reads_in_order(
    code: RedundancyCheckCode,
    rx_seq: u32,
    rec: ReceiveRecord,
    out_len: nat,
) -> bool {
    rec.1 is None <==> channel_step(code, rx_seq, rec.0, out_len).0 is Some
}

/// The answer of a receive whose channel reads are `rec`, and the next
/// expected sequence number afterwards: the first channel read that ends
/// the receive gives the answer; otherwise `ReceiveFailed` when a channel
/// reported it, and 0 when neither did.
pub open spec fn receive_outcome(
    code: RedundancyCheckCode,
    rx_seq: u32,
    rec: ReceiveRecord,
    out_len: nat,
) -> (Result<usize, TransportError>, u32) {
    let (ans_a, rx_a, failed_a) = channel_step(code, rx_seq, rec.0, out_len);
    if ans_a is Some {
        (ans_a.unwrap(), rx_a)
    } else {
        let (ans_b, rx_b, failed_b) = channel_step(code, rx_a, rec.1.unwrap(), out_len);
        if ans_b is Some {
            (ans_b.unwrap(), rx_b)
        } else if failed_a || failed_b {
            (Err(TransportError::ReceiveFailed), rx_b)
        } else {
            (Ok(0), rx_b)
        }
    }
}

/// The output buffer `out` after a receive whose channel reads are `rec`:
/// the payload of the frame accepted followed by the rest of `out`, or `out`
/// unchanged when no frame was accepted.
pub open spec fn receive_output(
    code: RedundancyCheckCode,
    rx_seq: u32,
    rec: ReceiveRecord,
    out: Seq<u8>,
) -> Seq<u8> {
    let (ans_a, rx_a, failed_a) = channel_step(code, rx_seq, rec.0, out.len());
    if ans_a is Some {
        match ans_a {
            Some(Ok(n)) => rec.0.1.subrange(8, 8 + n) + out.skip(n as int),
            _ => out,
        }
    } else {
        let (ans_b, rx_b, failed_b) = channel_step(code, rx_a, rec.1.unwrap(), out.len());
        match ans_b {
            Some(Ok(n)) => rec.1.unwrap().1.subrange(8, 8 + n) + out.skip(n as int),
            _ => out,
        }
    }
}

/// The answer of a send whose two channels returned `a` and `b`: it fails
/// only when both channels refused the frame.
pub open spec fn send_outcome_spec(
    a: Result<(), TransportError>,
    b: Result<(), TransportError>,
) -> Result<(), TransportError> {
    if a is Err && b is Err {
        Err(TransportError::SendFailed)
    } else {
        Ok(())
    }
}

/// Combines what the two channels returned for one frame: `SendFailed` only
/// when both refused it.
pub fn send_outcome(a: Result<(), TransportError>, b: Result<(), TransportError>) -> (r: Result<
    (),
    TransportError,
>)
    ensures
        r == send_outcome_spec(a, b),
{
    if a.is_err() && b.is_err() {
        Err(TransportError::SendFailed)
    } else {
        Ok(())
    }
}

/// Decoding a frame gives back the sequence number and the payload it was
/// built from, whenever its length fits the 16-bit length field.
#[verifier::rlimit(30)]
pub proof fn lemma_frame_roundtrip(code: RedundancyCheckCode, seq: u32, data: Seq<u8>)
    requires
        data.len() + frame_header_size() + check_code_size(code) <= 0xffff,
    ensures
        decode_frame(code, encode_frame(code, seq, data)) == Some((seq, data)),
{
    let cs = check_code_size(code);
    let total = data.len() + frame_header_size() + cs;
    let body = le16_bytes(total as u16) + le16_bytes(0) + le32_bytes(seq) + data;
    let f = encode_frame(code, seq, data);
    lemma_le16_roundtrip(total as u16);
    lemma_le16_roundtrip(0);
    lemma_le32_roundtrip(seq);
    assert(f.len() == total);
    assert(f.take(f.len() - cs) =~= body);
    assert(f.skip(f.len() - cs) =~= check_code_bytes(code, body));
    assert(f.subrange(0, 2) =~= le16_bytes(total as u16));
    assert(le16_value(f) == le16_value(f.subrange(0, 2)));
    assert(f.subrange(4, 8) =~= le32_bytes(seq));
    assert(f.subrange(8, f.len() - cs) =~= data);
}

/// A well-formed frame whose reserved bytes are zero is exactly the frame
/// that encoding its sequence number and payload gives.
#[verifier::rlimit(30)]
pub proof fn lemma_decoded_frame_reencodes(code: RedundancyCheckCode, f: Seq<u8>, seq: u32, data: Seq<u8>)
    requires
        decode_frame(code, f) == Some((seq, data)),
        f[2] == 0,
        f[3] == 0,
    ensures
        encode_frame(code, seq, data) == f,
{
    let cs = check_code_size(code);
    let len = f.len();
    let total = data.len() + frame_header_size() + cs;
    assert(total == len);
    let body = le16_bytes(total as u16) + le16_bytes(0) + le32_bytes(seq) + data;
    let t = f.take(len - cs);
    assert(f.subrange(0, 2)[0] == f[0] && f.subrange(0, 2)[1] == f[1]);
    lemma_le16_bytes_of_value(f.subrange(0, 2));
    assert(le16_value(f.subrange(0, 2)) == le16_value(f));
    lemma_le32_bytes_of_value(f.subrange(4, 8));
    assert forall|i: int| 0 <= i < len - cs implies #[trigger] t[i] == body[i] by {
        if i < 2 {
            assert(f.subrange(0, 2)[i] == le16_bytes(total as u16)[i]);
        } else if i < 4 {
        } else if i < 8 {
            assert(f.subrange(4, 8)[i - 4] == le32_bytes(seq)[i - 4]);
        } else {
            assert(f.subrange(8, len - cs)[i - 8] == data[i - 8]);
        }
    }
    assert(t =~= body);
    assert(encode_frame(code, seq, data) =~= f);
}

/// Once a frame has been accepted, the same frame (or a copy of it from the
/// other channel) is no longer fresh: duplicates are discarded.
pub proof fn lemma_accepted_sequence_not_fresh_again(rx_seq: u32, seq: u32)
    requires
        is_fresh(rx_seq, seq),
    ensures
        !is_fresh(seq_successor(seq), seq),
{
}

/// A frame that was accepted is discarded when it, or any copy of its first
/// `bytes_read` bytes, is examined again: a frame is delivered at most once.
pub proof fn lemma_accepted_frame_discarded_again(
    code: RedundancyCheckCode,
    rx_seq: u32,
    frame: Seq<u8>,
    copy: Seq<u8>,
    bytes_read: nat,
    out_len: nat,
    out_len2: nat,
)
    requires
        accept_outcome(code, rx_seq, frame, bytes_read, out_len).0 matches Ok(Some(_)),
        bytes_read <= copy.len(),
        copy.take(bytes_read as int) == frame.take(bytes_read as int),
    ensures
        accept_outcome(code, accept_outcome(code, rx_seq, frame, bytes_read, out_len).1, copy, bytes_read, out_len2)
            == (Ok::<Option<usize>, TransportError>(None), accept_outcome(code, rx_seq, frame, bytes_read, out_len).1),
{
    let cs = check_code_size(code);
    let t = frame.take(bytes_read as int);
    assert(copy.take(bytes_read as int)[0] == copy[0] && t[0] == frame[0]);
    assert(copy.take(bytes_read as int)[1] == copy[1] && t[1] == frame[1]);
    assert(le16_value(copy) == le16_value(frame));
    assert(copy.subrange(4, 8) =~= frame.subrange(4, 8)) by {
        assert forall|i: int| 0 <= i < 4 implies copy.subrange(4, 8)[i] == frame.subrange(4, 8)[i] by {
            assert(copy.take(bytes_read as int)[4 + i] == t[4 + i]);
        }
    }
    lemma_accepted_sequence_not_fresh_again(rx_seq, le32_value(frame.subrange(4, 8)));
}

/// A frame that a layer sent, read by another layer's channel while its
/// sequence number is new there, is accepted: the receive ends with the
/// frame's payload, and the next expected sequence number follows the frame's.
#[verifier::rlimit(40)]
pub proof fn lemma_sent_frame_delivered(
    code: RedundancyCheckCode,
    seq: u32,
    data: Seq<u8>,
    rx_seq: u32,
    read: Seq<u8>,
    out_len: nat,
)
    requires
        data.len() + frame_header_size() + check_code_size(code) <= max_frame_size(),
        is_fresh(rx_seq, seq),
        encode_frame(code, seq, data).len() <= read.len(),
        read.take(encode_frame(code, seq, data).len() as int) == encode_frame(code, seq, data),
        data.len() <= out_len,
    ensures
        channel_step(code, rx_seq, (Ok(encode_frame(code, seq, data).len() as usize), read), out_len)
            == (Some(Ok::<usize, TransportError>(data.len() as usize)), seq_successor(seq), false),
        read.subrange(8, 8 + data.len() as int) == data,
{
    let f = encode_frame(code, seq, data);
    let n = f.len();
    let cs = check_code_size(code);
    lemma_frame_roundtrip(code, seq, data);
    assert(n == data.len() + 8 + cs);
    assert(read.take(n as int)[0] == read[0] && read.take(n as int)[1] == read[1]);
    assert(le16_value(read) == le16_value(f));
    assert(read.subrange(4, 8) =~= f.subrange(4, 8)) by {
        assert forall|i: int| 0 <= i < 4 implies read.subrange(4, 8)[i] == f.subrange(4, 8)[i] by {
            assert(read.take(n as int)[4 + i] == f[4 + i]);
        }
    }
    assert(read.subrange(8, 8 + data.len() as int) =~= f.subrange(8, n - cs)) by {
        assert forall|i: int| 0 <= i < data.len() implies #[trigger] read.subrange(8, 8 + data.len() as int)[i] == f.subrange(8, n - cs)[i] by {
            assert(read.take(n as int)[8 + i] == f[8 + i]);
        }
    }
    assert(f.take(n as int) =~= f);
}

/// A channel read of a sent frame, as the first read of a receive, ends the
/// receive with the frame's payload at the start of the output buffer.
pub proof fn lemma_sent_frame_received(
    code: RedundancyCheckCode,
    seq: u32,
    data: Seq<u8>,
    rx_seq: u32,
    rec: ReceiveRecord,
    out: Seq<u8>,
)
    requires
        data.len() + frame_header_size() + check_code_size(code) <= max_frame_size(),
        is_fresh(rx_seq, seq),
        rec.0.0 == Ok::<usize, TransportError>(encode_frame(code, seq, data).len() as usize),
        encode_frame(code, seq, data).len() <= rec.0.1.len(),
        rec.0.1.take(encode_frame(code, seq, data).len() as int) == encode_frame(code, seq, data),
        data.len() <= out.len(),
    ensures
        receive_outcome(code, rx_seq, rec, out.len()) == (Ok::<usize, TransportError>(data.len() as usize), seq_successor(seq)),
        receive_output(code, rx_seq, rec, out) == data + out.skip(data.len() as int),
{
    lemma_sent_frame_delivered(code, seq, data, rx_seq, rec.0.1, out.len());
}

/// A well-formed frame is delivered exactly when its sequence number lies
/// less than half the 32-bit circle ahead of (or at) the expected one; then
/// the expected number follows the frame's. Otherwise it is dropped without
/// an error and the expected number stays.
#[verifier::rlimit(40)]
pub proof fn lemma_frame_window(
    code: RedundancyCheckCode,
    rx_seq: u32,
    frame: Seq<u8>,
    bytes_read: nat,
    out_len: nat,
    seq: u32,
    payload: Seq<u8>,
)
    requires
        bytes_read <= frame.len(),
        decode_frame(code, frame.take(bytes_read as int)) == Some((seq, payload)),
        payload.len() <= out_len,
    ensures
        is_fresh(rx_seq, seq) ==> accept_outcome(code, rx_seq, frame, bytes_read, out_len) == (
            Ok::<Option<usize>, TransportError>(Some(payload.len() as usize)),
            seq_successor(seq),
        ),
        !is_fresh(rx_seq, seq) ==> accept_outcome(code, rx_seq, frame, bytes_read, out_len) == (
            Ok::<Option<usize>, TransportError>(None),
            rx_seq,
        ),
{
    let f = frame.take(bytes_read as int);
    let cs = check_code_size(code);
    assert(f[0] == frame[0] && f[1] == frame[1]);
    assert(le16_value(f) == le16_value(frame));
    assert(f.subrange(4, 8) =~= frame.subrange(4, 8));
    assert(f.take(bytes_read as int) =~= f);
}

/// A channel read that returned nothing, or a copy of the first `bytes_read`
/// bytes of `frame`.
pub open spec fn copy_or_nothing(read: ChannelRead, frame: Seq<u8>, bytes_read: usize) -> bool {
    ||| read.0 == Ok::<usize, TransportError>(0)
    ||| (read.0 == Ok::<usize, TransportError>(bytes_read) && bytes_read <= read.1.len()
        && read.1.take(bytes_read as int) == frame.take(bytes_read as int))
}

/// After a channel read delivered a frame, a receive in which every channel
/// read holds only a copy of that frame, or nothing, answers 0 and leaves
/// the output buffer as it was: the copy that arrives on the other channel is
/// discarded.
pub proof fn lemma_receive_discards_copy(
    code: RedundancyCheckCode,
    rx_seq: u32,
    bytes_read: usize,
    frame: Seq<u8>,
    out_len: nat,
    rec: ReceiveRecord,
    out: Seq<u8>,
)
    requires
        channel_step(code, rx_seq, (Ok(bytes_read), frame), out_len).0 matches Some(Ok(_)),
        reads_in_order(code, channel_step(code, rx_seq, (Ok(bytes_read), frame), out_len).1, rec, out.len()),
        copy_or_nothing(rec.0, frame, bytes_read),
        rec.1 matches Some(b) ==> copy_or_nothing(b, frame, bytes_read),
    ensures
        ({
            let rx = channel_step(code, rx_seq, (Ok(bytes_read), frame), out_len).1;
            &&& receive_outcome(code, rx, rec, out.len()) == (Ok::<usize, TransportError>(0), rx)
            &&& receive_output(code, rx, rec, out) == out
        }),
{
    let rx = channel_step(code, rx_seq, (Ok(bytes_read), frame), out_len).1;
    if rec.0.0 != Ok::<usize, TransportError>(0) {
        lemma_accepted_frame_discarded_again(code, rx_seq, frame, rec.0.1, bytes_read as nat, out_len, out.len());
    }
    let b = rec.1.unwrap();
    if b.0 != Ok::<usize, TransportError>(0) {
        lemma_accepted_frame_discarded_again(code, rx_seq, frame, b.1, bytes_read as nat, out_len, out.len());
    }
}

/// What channel A and channel B returned for one frame handed to them.
pub type ChannelSends = (Result<(), TransportError>, Result<(), TransportError>);

/// The send record `after` continues the send record `before`.
pub open spec fn sends_extend(before: Seq<ChannelSends>, after: Seq<ChannelSends>) -> bool {
    &&& before.len() <= after.len()
    &&& forall|i: int| 0 <= i < before.len() ==> #[trigger] after[i] == before[i]
}

/// A frame recorded in `after` beyond the record `before` was refused by
/// both channels.
pub open spec fn new_send_failed(before: Seq<ChannelSends>, after: Seq<ChannelSends>) -> bool {
    exists|i: int|
        before.len() <= i < after.len() && #[trigger] send_outcome_spec(after[i].0, after[i].1) is Err
}

/// Send records that continue one another continue the first; a failure
/// recorded in either step is recorded beyond the first.
pub proof fn lemma_sends_chain(a: Seq<ChannelSends>, b: Seq<ChannelSends>, c: Seq<ChannelSends>)
    requires
        sends_extend(a, b),
        sends_extend(b, c),
    ensures
        sends_extend(a, c),
        new_send_failed(a, b) ==> new_send_failed(a, c),
        new_send_failed(b, c) ==> new_send_failed(a, c),
        !new_send_failed(a, b) && !new_send_failed(b, c) ==> !new_send_failed(a, c),
{
    if new_send_failed(a, b) {
        let i = choose|i: int|
            a.len() <= i < b.len() && #[trigger] send_outcome_spec(b[i].0, b[i].1) is Err;
        assert(c[i] == b[i]);
    }
    if !new_send_failed(a, b) && !new_send_failed(b, c) {
        assert forall|i: int| a.len() <= i < c.len() implies !(#[trigger] send_outcome_spec(c[i].0, c[i].1) is Err) by {
            if i < b.len() {
                assert(c[i] == b[i]);
                assert(!(send_outcome_spec(b[i].0, b[i].1) is Err));
            }
        }
    }
}

/// A record with one more entry continues the earlier one, and holds a new
/// failure exactly when that entry is one.
pub proof fn lemma_sends_push(a: Seq<ChannelSends>, b: Seq<ChannelSends>)
    requires
        b.len() == a.len() + 1,
        b.drop_last() == a,
    ensures
        sends_extend(a, b),
        new_send_failed(a, b) <==> send_outcome_spec(b.last().0, b.last().1) is Err,
{
    assert forall|i: int| 0 <= i < a.len() implies #[trigger] b[i] == a[i] by {
        assert(b.drop_last()[i] == b[i]);
    }
    if send_outcome_spec(b.last().0, b.last().1) is Err {
        assert(send_outcome_spec(b[a.len() as int].0, b[a.len() as int].1) is Err);
    }
}

/// Bytes 4 to 8 of a frame hold its sequence number.
pub proof fn lemma_frame_seq_field(code: RedundancyCheckCode, seq: u32, data: Seq<u8>)
    ensures
        encode_frame(code, seq, data).subrange(4, 8) == le32_bytes(seq),
{
    let total = data.len() + frame_header_size() + check_code_size(code);
    lemma_le16_roundtrip(total as u16);
    lemma_le16_roundtrip(0);
    lemma_le32_roundtrip(seq);
    assert(encode_frame(code, seq, data).subrange(4, 8) =~= le32_bytes(seq));
}

/// The layer that sends every frame on two channels and delivers the first
/// copy that arrives.
pub struct RedundancyLayer<T1: Transport, T2: Transport> {
    transport_a: T1,
    transport_b: T2,
    config: RedundancyConfig,
    tx_seq: u32,
    rx_seq: u32,
    sent: Ghost<Seq<Seq<u8>>>,
    sends: Ghost<Seq<ChannelSends>>,
    reads: Ghost<Seq<Option<Seq<u8>>>>,
    receipts: Ghost<Seq<ReceiveRecord>>,
}

impl<T1: Transport, T2: Transport> RedundancyLayer<T1, T2> {
    pub const HEADER_SIZE: usize = 8;

    /// Channel A, the first transport.
    pub closed spec fn channel_a(&self) -> T1 {
        self.transport_a
    }

    /// Channel B, the second transport.
    pub closed spec fn channel_b(&self) -> T2 {
        self.transport_b
    }

    /// Frame `i` of those sent so far carries sequence number `i` (modulo
    /// 2^32), and the next frame carries the number of frames sent so far.
    pub open spec fn frames_numbered(&self) -> bool {
        &&& self.next_tx_seq() as int == self.frames_sent().len() as int % 0x1_0000_0000
        &&& forall|i: int|
            0 <= i < self.frames_sent().len() ==> #[trigger] self.frames_sent()[i].subrange(4, 8)
                == le32_bytes((i % 0x1_0000_0000) as u32)
    }

    /// The configuration the layer was made with.
    pub closed spec fn configuration(&self) -> RedundancyConfig {
        self.config
    }

    /// The sequence number that the next sent frame carries.
    pub closed spec fn next_tx_seq(&self) -> u32 {
        self.tx_seq
    }

    /// The lowest sequence number that a received frame may carry to be new.
    pub closed spec fn expected_rx_seq(&self) -> u32 {
        self.rx_seq
    }

    /// Every frame handed to the two channels so far, in order.
    pub closed spec fn frames_sent(&self) -> Seq<Seq<u8>> {
        self.sent@
    }

    /// For every frame handed to the channels, what channel A and channel B
    /// returned for it, in order.
    pub closed spec fn send_results(&self) -> Seq<ChannelSends> {
        self.sends@
    }

    /// The outcome of every receive so far, in order: the payload of the
    /// frame accepted, or `None` when no frame was accepted.
    pub closed spec fn reads(&self) -> Seq<Option<Seq<u8>>> {
        self.reads@
    }

    /// The channel reads of every receive so far, in order.
    pub closed spec fn channel_reads(&self) -> Seq<ReceiveRecord> {
        self.receipts@
    }

    pub fn new(transport_a: T1, transport_b: T2) -> (l: Self)
        ensures
            l.configuration().check_code == RedundancyCheckCode::NoCode,
            l.channel_a() == transport_a,
            l.channel_b() == transport_b,
            l.frames_numbered(),
            l.next_tx_seq() == 0,
            l.expected_rx_seq() == 0,
            l.frames_sent() == Seq::<Seq<u8>>::empty(),
            l.send_results().len() == 0,
            l.reads() == Seq::<Option<Seq<u8>>>::empty(),
            l.channel_reads() == Seq::<ReceiveRecord>::empty(),
    {
        Self::with_config(transport_a, transport_b, RedundancyConfig::default())
    }

    pub fn with_config(transport_a: T1, transport_b: T2, config: RedundancyConfig) -> (l: Self)
        ensures
            l.configuration() == config,
            l.channel_a() == transport_a,
            l.channel_b() == transport_b,
            l.frames_numbered(),
            l.next_tx_seq() == 0,
            l.expected_rx_seq() == 0,
            l.frames_sent() == Seq::<Seq<u8>>::empty(),
            l.send_results().len() == 0,
            l.reads() == Seq::<Option<Seq<u8>>>::empty(),
            l.channel_reads() == Seq::<ReceiveRecord>::empty(),
    {
        RedundancyLayer {
            transport_a,
            transport_b,
            config,
            tx_seq: 0,
            rx_seq: 0,
            sent: Ghost(Seq::empty()),
            sends: Ghost(Seq::empty()),
            reads: Ghost(Seq::empty()),
            receipts: Ghost(Seq::empty()),
        }
    }

    /// Frames `data` and hands the frame to channel A, then to channel B
    /// whatever A returned (recorded in `frames_sent` and `send_results`).
    /// Fails with `BufferTooSmall` when the frame would exceed 520 bytes, and
    /// with `SendFailed` when both channels refuse it.
    #[verifier::rlimit(30)]
    pub fn send(&mut self, data: &[u8]) -> (r: Result<(), TransportError>)
        ensures
            final(self).configuration() == old(self).configuration(),
            final(self).expected_rx_seq() == old(self).expected_rx_seq(),
            final(self).reads() == old(self).reads(),
            final(self).channel_reads() == old(self).channel_reads(),
            old(self).frames_numbered() ==> final(self).frames_numbered(),
            data@.len() + frame_header_size() + check_code_size(old(self).configuration().check_code)
                > max_frame_size() ==> {
                &&& r == Err::<(), TransportError>(TransportError::BufferTooSmall)
                &&& final(self).next_tx_seq() == old(self).next_tx_seq()
                &&& final(self).frames_sent() == old(self).frames_sent()
                &&& final(self).send_results() == old(self).send_results()
                &&& final(self).channel_a() == old(self).channel_a()
                &&& final(self).channel_b() == old(self).channel_b()
            },
            data@.len() + frame_header_size() + check_code_size(old(self).configuration().check_code)
                <= max_frame_size() ==> {
                let frame = encode_frame(
                    old(self).configuration().check_code,
                    old(self).next_tx_seq(),
                    data@,
                );
                &&& final(self).channel_a().sends() == old(self).channel_a().sends().push(
                    (frame, final(self).send_results().last().0),
                )
                &&& final(self).channel_b().sends() == old(self).channel_b().sends().push(
                    (frame, final(self).send_results().last().1),
                )
                &&& final(self).channel_a().receives() == old(self).channel_a().receives()
                &&& final(self).channel_b().receives() == old(self).channel_b().receives()
                &&& final(self).next_tx_seq() == seq_successor(old(self).next_tx_seq())
                &&& final(self).frames_sent() == old(self).frames_sent().push(
                    encode_frame(
                        old(self).configuration().check_code,
                        old(self).next_tx_seq(),
                        data@,
                    ),
                )
                &&& final(self).send_results().len() == old(self).send_results().len() + 1
                &&& final(self).send_results().drop_last() == old(self).send_results()
                &&& r == send_outcome_spec(
                    final(self).send_results().last().0,
                    final(self).send_results().last().1,
                )
            },
    {
        let mut buffer = [0u8; 520];
        let check_len = self.config.check_code_len();
        let total_len = match data.len().checked_add(Self::HEADER_SIZE) {
            Some(n) => match n.checked_add(check_len) {
                Some(t) => t,
                None => return Err(TransportError::BufferTooSmall),
            },
            None => return Err(TransportError::BufferTooSmall),
        };
        if total_len > 520 {
            return Err(TransportError::BufferTooSmall);
        }
        let ghost code = self.config.check_code;
        let ghost body = le16_bytes(total_len as u16) + le16_bytes(0) + le32_bytes(self.tx_seq)
            + data@;
        write_u16_le(&mut buffer, 0, total_len as u16);
        write_u16_le(&mut buffer, 2, 0);
        write_u32_le(&mut buffer, 4, self.tx_seq);
        copy_into(&mut buffer, 8, data);
        assert(buffer@.take(8 + data@.len() as int) =~= body);
        let ghost before_code = buffer@;
        self.write_check_code(&mut buffer, 8 + data.len(), total_len)?;
        proof {
            if check_len == 0 {
                assert(buffer@ =~= before_code.take(8 + data@.len() as int) + check_code_bytes(
                    code,
                    before_code.take(8 + data@.len() as int),
                ) + before_code.skip(total_len as int));
            }
        }
        assert(buffer@.take(total_len as int) =~= encode_frame(code, self.tx_seq, data@));
        proof {
            lemma_frame_seq_field(code, self.tx_seq, data@);
            if old(self).frames_numbered() {
                let m = self.sent@.len();
                assert(m % 0x1_0000_0000 == self.tx_seq);
                assert(((m + 1) % 0x1_0000_0000) as u32 == seq_successor(self.tx_seq)) by {
                    vstd::arithmetic::div_mod::lemma_add_mod_noop(m as int, 1, 0x1_0000_0000);
                }
            }
        }
        self.tx_seq = self.tx_seq.wrapping_add(1);
        let frame = vstd::slice::slice_subrange(buffer.as_slice(), 0, total_len);
        self.sent = Ghost(self.sent@.push(frame@));
        let res_a = self.transport_a.send(frame);
        let res_b = self.transport_b.send(frame);
        self.sends = Ghost(self.sends@.push((res_a, res_b)));
        send_outcome(res_a, res_b)
    }

    /// Reads at most one frame from channel A, then, when A's read did not
    /// settle the answer, one from channel B, into a 520-byte buffer, and
    /// copies the payload of the first new, well-formed frame into `buffer`
    /// (recorded in `reads` and `channel_reads`). Returns 0 when neither
    /// channel delivered one; `ReceiveFailed` when a channel failed and none
    /// delivered; any other channel error at once.
    #[verifier::rlimit(30)]
    pub fn receive(&mut self, buffer: &mut [u8]) -> (r: Result<usize, TransportError>)
        ensures
            final(self).configuration() == old(self).configuration(),
            final(self).next_tx_seq() == old(self).next_tx_seq(),
            final(self).frames_sent() == old(self).frames_sent(),
            final(self).send_results() == old(self).send_results(),
            final(buffer)@.len() == old(buffer)@.len(),
            final(self).channel_reads().len() == old(self).channel_reads().len() + 1,
            final(self).channel_reads().drop_last() == old(self).channel_reads(),
            ({
                let rec = final(self).channel_reads().last();
                let code = old(self).configuration().check_code;
                let rx = old(self).expected_rx_seq();
                &&& rec.0.1.len() == max_frame_size()
                &&& (rec.1 matches Some(b) ==> b.1.len() == max_frame_size())
                &&& reads_in_order(code, rx, rec, old(buffer)@.len())
                &&& (r, final(self).expected_rx_seq()) == receive_outcome(code, rx, rec, old(buffer)@.len())
                &&& final(buffer)@ == receive_output(code, rx, rec, old(buffer)@)
                &&& final(self).channel_a().receives() == old(self).channel_a().receives().push(rec.0)
                &&& final(self).channel_a().sends() == old(self).channel_a().sends()
                &&& final(self).channel_b().sends() == old(self).channel_b().sends()
                &&& (rec.1 matches Some(b) ==> final(self).channel_b().receives() == old(
                    self,
                ).channel_b().receives().push(b))
                &&& (rec.1 is None ==> final(self).channel_b() == old(self).channel_b())
            }),
            final(self).reads().len() == old(self).reads().len() + 1,
            final(self).reads().drop_last() == old(self).reads(),
            r is Err ==> final(self).reads().last() is None,
            r matches Ok(n) ==> final(self).reads().last() is None ==> {
                &&& n == 0
                &&& final(self).expected_rx_seq() == old(self).expected_rx_seq()
                &&& final(buffer)@ == old(buffer)@
            },
            r matches Ok(n) ==> final(self).reads().last() is Some ==> final(self).reads().last()
                == Some(final(buffer)@.take(n as int)),
            r matches Ok(n) ==> n > 0 ==> final(self).reads().last() is Some,
    {
        let mut temp_buffer = [0u8; 520];
        let ghost code = self.config.check_code;
        let ghost rx0 = self.rx_seq;
        let ghost out0 = buffer@;
        let read_a = self.transport_a.receive(&mut temp_buffer);
        let ghost rec_a: ChannelRead = (read_a, temp_buffer@);
        let (ans_a, failed_a) = self.read_step(read_a, temp_buffer.as_slice(), buffer);
        match ans_a {
            Some(res) => {
                self.receipts = Ghost(self.receipts@.push((rec_a, None)));
                proof {
                    assert(receive_outcome(code, rx0, (rec_a, None), out0.len()) == (res, self.rx_seq));
                }
                match res {
                    Ok(len) => {
                        self.reads = Ghost(self.reads@.push(Some(buffer@.take(len as int))));
                    },
                    Err(_) => {
                        self.reads = Ghost(self.reads@.push(None));
                    },
                }
                return res;
            },
            None => {},
        }
        let ghost rx1 = self.rx_seq;
        let read_b = self.transport_b.receive(&mut temp_buffer);
        let ghost rec_b: ChannelRead = (read_b, temp_buffer@);
        let (ans_b, failed_b) = self.read_step(read_b, temp_buffer.as_slice(), buffer);
        self.receipts = Ghost(self.receipts@.push((rec_a, Some(rec_b))));
        match ans_b {
            Some(res) => {
                match res {
                    Ok(len) => {
                        self.reads = Ghost(self.reads@.push(Some(buffer@.take(len as int))));
                    },
                    Err(_) => {
                        self.reads = Ghost(self.reads@.push(None));
                    },
                }
                return res;
            },
            None => {},
        }
        self.reads = Ghost(self.reads@.push(None));
        if failed_a || failed_b {
            return Err(TransportError::ReceiveFailed);
        }
        Ok(0)
    }

    /// Examines what one channel's receive returned, with `frame` the bytes
    /// it read: a frame is accepted or discarded, `ReceiveFailed` is noted,
    /// and any other error ends the receive.
    #[verifier::rlimit(30)]
    fn read_step(&mut self, read: Result<usize, TransportError>, frame: &[u8], buffer: &mut [u8]) -> (res: (
        Option<Result<usize, TransportError>>,
        bool,
    ))
        ensures
            final(self).config == old(self).config,
            final(self).tx_seq == old(self).tx_seq,
            final(self).sent == old(self).sent,
            final(self).sends == old(self).sends,
            final(self).reads == old(self).reads,
            final(self).receipts == old(self).receipts,
            final(self).transport_a == old(self).transport_a,
            final(self).transport_b == old(self).transport_b,
            (res.0, final(self).rx_seq, res.1) == channel_step(
                old(self).config.check_code,
                old(self).rx_seq,
                (read, frame@),
                old(buffer)@.len(),
            ),
            res.0 matches Some(Ok(n)) ==> final(buffer)@ == frame@.subrange(8, 8 + n) + old(
                buffer,
            )@.skip(n as int),
            !(res.0 matches Some(Ok(_))) ==> final(buffer)@ == old(buffer)@,
    {
        match read {
            Ok(0) => (None, false),
            Ok(bytes_read) => match self.accept_frame(frame, bytes_read, buffer) {
                Ok(Some(len)) => (Some(Ok(len)), false),
                Ok(None) => (None, false),
                Err(e) => (Some(Err(e)), false),
            },
            Err(TransportError::ReceiveFailed) => (None, true),
            Err(e) => (Some(Err(e)), false),
        }
    }

    /// Examines the first `bytes_read` bytes of `frame` as one received frame.
    #[verifier::rlimit(30)]
    fn accept_frame(&mut self, frame: &[u8], bytes_read: usize, output: &mut [u8]) -> (r: Result<
        Option<usize>,
        TransportError,
    >)
        ensures
            final(self).config == old(self).config,
            final(self).tx_seq == old(self).tx_seq,
            final(self).transport_a == old(self).transport_a,
            final(self).transport_b == old(self).transport_b,
            final(self).sent == old(self).sent,
            final(self).sends == old(self).sends,
            final(self).reads == old(self).reads,
            final(self).receipts == old(self).receipts,
            (r, final(self).rx_seq) == accept_outcome(
                old(self).config.check_code,
                old(self).rx_seq,
                frame@,
                bytes_read as nat,
                old(output)@.len(),
            ),
            r matches Ok(Some(n)) ==> final(output)@ == frame@.subrange(8, 8 + n) + old(
                output,
            )@.skip(n as int),
            !(r matches Ok(Some(_))) ==> final(output)@ == old(output)@,
    {
        let check_len = self.config.check_code_len();
        if bytes_read < Self::HEADER_SIZE + check_len {
            return Ok(None);
        }
        if frame.len() < 2 {
            return Err(TransportError::BufferTooSmall);
        }
        let declared_len = read_u16_le(frame, 0) as usize;
        assert(frame@.subrange(0, 2)[0] == frame@[0] && frame@.subrange(0, 2)[1] == frame@[1]);
        if declared_len != bytes_read {
            return Ok(None);
        }
        if !self.check_code_matches(frame, declared_len)? {
            return Ok(None);
        }
        if frame.len() < Self::HEADER_SIZE {
            return Err(TransportError::BufferTooSmall);
        }
        let r_seq = read_u32_le(frame, 4);
        if r_seq.wrapping_sub(self.rx_seq) >= 0x8000_0000 {
            return Ok(None);
        }
        self.rx_seq = r_seq.wrapping_add(1);
        let payload_end = declared_len - check_len;
        let payload_len = payload_end - Self::HEADER_SIZE;
        if payload_len > output.len() {
            return Err(TransportError::BufferTooSmall);
        }
        if payload_end > frame.len() {
            return Err(TransportError::BufferTooSmall);
        }
        let src = vstd::slice::slice_subrange(frame, Self::HEADER_SIZE, payload_end);
        copy_into(output, 0, src);
        assert(output@.take(0) + src@ == src@);
        Ok(Some(payload_len))
    }

    /// Whether the frame of `total_len` bytes at the start of `frame` ends in
    /// the right check code.
    #[verifier::rlimit(30)]
    fn check_code_matches(&self, frame: &[u8], total_len: usize) -> (r: Result<bool, TransportError>)
        requires
            total_len >= check_code_size(self.config.check_code),
        ensures
            check_code_size(self.config.check_code) == 0 ==> r == Ok::<bool, TransportError>(true),
            check_code_size(self.config.check_code) > 0 && total_len > frame@.len() ==> r == Err::<
                bool,
                TransportError,
            >(TransportError::BufferTooSmall),
            check_code_size(self.config.check_code) > 0 && total_len <= frame@.len() ==> r == Ok::<
                bool,
                TransportError,
            >(check_code_valid(self.config.check_code, frame@.take(total_len as int))),
    {
        let check_len = self.config.check_code_len();
        let check_start = total_len - check_len;
        match self.config.check_code {
            RedundancyCheckCode::NoCode => Ok(true),
            RedundancyCheckCode::Crc16 => {
                if total_len > frame.len() {
                    return Err(TransportError::BufferTooSmall);
                }
                let expected = crc16(&frame[0..check_start]);
                let received = read_u16_le(frame, check_start);
                proof {
                    let f = frame@.take(total_len as int);
                    assert(frame@.subrange(0, check_start as int) =~= f.take(f.len() - 2));
                    assert(frame@.subrange(check_start as int, check_start + 2) =~= f.skip(
                        f.len() - 2,
                    ));
                    lemma_le16_bytes_of_value(f.skip(f.len() - 2));
                    lemma_le16_roundtrip(expected);
                }
                Ok(received == expected)
            },
            RedundancyCheckCode::Crc32 => {
                if total_len > frame.len() {
                    return Err(TransportError::BufferTooSmall);
                }
                let expected = crc32(&frame[0..check_start]);
                let received = read_u32_le(frame, check_start);
                proof {
                    let f = frame@.take(total_len as int);
                    assert(frame@.subrange(0, check_start as int) =~= f.take(f.len() - 4));
                    assert(frame@.subrange(check_start as int, check_start + 4) =~= f.skip(
                        f.len() - 4,
                    ));
                    lemma_le32_bytes_of_value(f.skip(f.len() - 4));
                    lemma_le32_roundtrip(expected);
                }
                Ok(received == expected)
            },
        }
    }

    /// Writes the check code of the first `check_start` bytes of `frame` at
    /// `check_start`, ending at `total_len`.
    fn write_check_code(&self, frame: &mut [u8], check_start: usize, total_len: usize) -> (r: Result<
        (),
        TransportError,
    >)
        requires
            check_code_size(self.config.check_code) > 0 && check_start <= total_len && total_len
                <= old(frame)@.len() ==> total_len - check_start == check_code_size(
                self.config.check_code,
            ),
        ensures
            check_code_size(self.config.check_code) == 0 ==> r is Ok && final(frame)@ == old(
                frame,
            )@,
            check_code_size(self.config.check_code) > 0 && (check_start > total_len || total_len
                > old(frame)@.len()) ==> r == Err::<(), TransportError>(
                TransportError::BufferTooSmall,
            ) && final(frame)@ == old(frame)@,
            check_code_size(self.config.check_code) > 0 && check_start <= total_len && total_len
                <= old(frame)@.len() ==> r is Ok && final(frame)@ == old(frame)@.take(
                check_start as int,
            ) + check_code_bytes(self.config.check_code, old(frame)@.take(check_start as int))
                + old(frame)@.skip(total_len as int),
    {
        match self.config.check_code {
            RedundancyCheckCode::NoCode => Ok(()),
            RedundancyCheckCode::Crc16 => {
                if check_start > total_len || total_len > frame.len() {
                    return Err(TransportError::BufferTooSmall);
                }
                let crc = crc16(&frame[0..check_start]);
                assert(frame@.subrange(0, check_start as int) =~= frame@.take(check_start as int));
                write_u16_le(frame, check_start, crc);
                Ok(())
            },
            RedundancyCheckCode::Crc32 => {
                if check_start > total_len || total_len > frame.len() {
                    return Err(TransportError::BufferTooSmall);
                }
                let crc = crc32(&frame[0..check_start]);
                assert(frame@.subrange(0, check_start as int) =~= frame@.take(check_start as int));
                write_u32_le(frame, check_start, crc);
                Ok(())
            },
        }
    }
}

} // verus!
