//! The safety code of the Safety and Retransmission Layer: MD4 (RFC 1320)
//! with a configurable initial value, of which the lower 8 bytes or all 16
//! bytes are appended to each packet.
use crate::rasta_core::byte_order::{le32_bytes, le32_value, read_u32_le, write_u32_le};
use vstd::prelude::*;

verus! {

/// The four 32-bit registers A, B, C, D.
pub type Md4Registers = (u32, u32, u32, u32);

/// The standard MD4 initial value.
pub open spec fn md4_standard_iv() -> Md4Registers {
    (0x6745_2301, 0xefcd_ab89, 0x98ba_dcfe, 0x1032_5476)
}

/// The auxiliary function of each round.
pub open spec fn md4_aux(round: int, b: u32, c: u32, d: u32) -> u32 {
    if round == 0 {
        (b & c) | (!b & d)
    } else if round == 1 {
        (b & c) | (b & d) | (c & d)
    } else {
        b ^ c ^ d
    }
}

/// The additive constant of each round.
pub open spec fn md4_round_constant(round: int) -> u32 {
    if round == 0 {
        0
    } else if round == 1 {
        0x5a82_7999
    } else {
        0x6ed9_eba1
    }
}

/// The message word used by step `i` of `round`.
pub open spec fn md4_word_index(round: int, i: int) -> int {
    if round == 0 {
        i
    } else if round == 1 {
        (i % 4) * 4 + i / 4
    } else {
        (i % 2) * 8 + ((i / 2) % 2) * 4 + ((i / 4) % 2) * 2 + i / 8
    }
}

/// The rotation used by step `i` of `round`.
pub open spec fn md4_shift(round: int, i: int) -> u32 {
    let j = i % 4;
    if round == 0 {
        if j == 0 {
            3
        } else if j == 1 {
            7
        } else if j == 2 {
            11
        } else {
            19
        }
    } else if round == 1 {
        if j == 0 {
            3
        } else if j == 1 {
            5
        } else if j == 2 {
            9
        } else {
            13
        }
    } else {
        if j == 0 {
            3
        } else if j == 1 {
            9
        } else if j == 2 {
            11
        } else {
            15
        }
    }
}

/// Rotation of `x` to the left by `s` bits.
pub open spec fn rotate_left_spec(x: u32, s: u32) -> u32 {
    (x << s) | (x >> ((32 - s) as u32))
}

/// One step: the register in role `a` is replaced, and the roles move on
/// (the next step updates what was `d`).
pub open spec fn md4_step(regs: Md4Registers, x: Seq<u32>, round: int, i: int) -> Md4Registers {
    let (a, b, c, d) = regs;
    let t = a.wrapping_add(md4_aux(round, b, c, d)).wrapping_add(
        x[md4_word_index(round, i)],
    ).wrapping_add(md4_round_constant(round));
    (d, rotate_left_spec(t, md4_shift(round, i)), b, c)
}

/// The registers after the first `n` of the 48 steps.
pub open spec fn md4_steps(regs: Md4Registers, x: Seq<u32>, n: nat) -> Md4Registers
    decreases n,
{
    if n == 0 {
        regs
    } else {
        let m = (n - 1) as int;
        md4_step(md4_steps(regs, x, (n - 1) as nat), x, m / 16, m % 16)
    }
}

/// The sixteen little-endian words of a 64-byte block.
pub open spec fn md4_block_words(block: Seq<u8>) -> Seq<u32> {
    Seq::new(16, |j: int| le32_value(block.subrange(4 * j, 4 * j + 4)))
}

/// The MD4 compression of one 64-byte block into the registers `h`.
pub open spec fn md4_compress(h: Md4Registers, block: Seq<u8>) -> Md4Registers {
    let r = md4_steps(h, md4_block_words(block), 48);
    (h.0.wrapping_add(r.0), h.1.wrapping_add(r.1), h.2.wrapping_add(r.2), h.3.wrapping_add(r.3))
}

/// The registers after compressing every whole 64-byte block of `data`.
pub open spec fn md4_process(h: Md4Registers, data: Seq<u8>) -> Md4Registers
    decreases data.len(),
{
    if data.len() < 64 {
        h
    } else {
        md4_process(md4_compress(h, data.take(64)), data.skip(64))
    }
}

/// The number of zero bytes that padding inserts after the 0x80 byte.
pub open spec fn md4_zero_count(len: nat) -> nat {
    let l = len % 64;
    if l <= 55 {
        (55 - l) as nat
    } else {
        (119 - l) as nat
    }
}

/// The eight little-endian bytes of `v`.
pub open spec fn le64_bytes(v: u64) -> Seq<u8> {
    Seq::new(8, |i: int| ((v >> ((8 * i) as u64)) & 0xff) as u8)
}

/// The message length in bits, modulo 2^64.
pub open spec fn md4_bit_length(len: nat) -> u64 {
    ((len * 8) % 0x1_0000_0000_0000_0000) as u64
}

/// The padded message: a 0x80 byte, zeros, and the bit length, so that the
/// length is a multiple of 64.
pub open spec fn md4_pad(msg: Seq<u8>) -> Seq<u8> {
    msg + seq![0x80u8] + Seq::new(md4_zero_count(msg.len()), |i: int| 0u8) + le64_bytes(
        md4_bit_length(msg.len()),
    )
}

/// The 16 bytes of the registers, each little-endian.
pub open spec fn md4_registers_bytes(h: Md4Registers) -> Seq<u8> {
    le32_bytes(h.0) + le32_bytes(h.1) + le32_bytes(h.2) + le32_bytes(h.3)
}

/// The MD4 digest of `msg` from the initial value `iv`.
pub open spec fn md4_digest(iv: Md4Registers, msg: Seq<u8>) -> Seq<u8> {
    md4_registers_bytes(md4_process(iv, md4_pad(msg)))
}

/// Processing a prefix of whole blocks first and the rest afterwards is
/// processing the whole.
proof fn lemma_process_append(h: Md4Registers, p: Seq<u8>, q: Seq<u8>)
    requires
        p.len() % 64 == 0,
    ensures
        md4_process(h, p + q) == md4_process(md4_process(h, p), q),
    decreases p.len(),
{
    if p.len() == 0 {
        assert(p + q =~= q);
    } else {
        let pq = p + q;
        assert(pq.take(64) =~= p.take(64));
        assert(pq.skip(64) =~= p.skip(64) + q);
        lemma_process_append(md4_compress(h, p.take(64)), p.skip(64), q);
    }
}

/// Processing exactly one block is compressing it.
proof fn lemma_process_one_block(h: Md4Registers, block: Seq<u8>)
    requires
        block.len() == 64,
    ensures
        md4_process(h, block) == md4_compress(h, block),
{
    assert(block.take(64) =~= block);
    let h2 = md4_compress(h, block.take(64));
    assert(block.skip(64).len() == 0);
    assert(md4_process(h2, block.skip(64)) == h2);
}

fn md4_word_index_exec(round: usize, i: usize) -> (k: usize)
    requires
        round < 3,
        i < 16,
    ensures
        k == md4_word_index(round as int, i as int),
        k < 16,
{
    if round == 0 {
        i
    } else if round == 1 {
        (i % 4) * 4 + i / 4
    } else {
        (i % 2) * 8 + ((i / 2) % 2) * 4 + ((i / 4) % 2) * 2 + i / 8
    }
}

fn md4_shift_exec(round: usize, i: usize) -> (s: u32)
    ensures
        s == md4_shift(round as int, i as int),
        1 <= s <= 19,
{
    let j = i % 4;
    if round == 0 {
        if j == 0 {
            3
        } else if j == 1 {
            7
        } else if j == 2 {
            11
        } else {
            19
        }
    } else if round == 1 {
        if j == 0 {
            3
        } else if j == 1 {
            5
        } else if j == 2 {
            9
        } else {
            13
        }
    } else {
        if j == 0 {
            3
        } else if j == 1 {
            9
        } else if j == 2 {
            11
        } else {
            15
        }
    }
}

fn md4_aux_exec(round: usize, b: u32, c: u32, d: u32) -> (f: u32)
    ensures
        f == md4_aux(round as int, b, c, d),
{
    if round == 0 {
        (b & c) | (!b & d)
    } else if round == 1 {
        (b & c) | (b & d) | (c & d)
    } else {
        b ^ c ^ d
    }
}

fn md4_round_constant_exec(round: usize) -> (k: u32)
    ensures
        k == md4_round_constant(round as int),
{
    if round == 0 {
        0
    } else if round == 1 {
        0x5a82_7999
    } else {
        0x6ed9_eba1
    }
}

/// Compresses one 64-byte block into `state`.
#[verifier::rlimit(30)]
fn md4_compress_block(state: &mut [u32; 4], block: &[u8])
    requires
        block@.len() == 64,
    ensures
        (final(state)[0], final(state)[1], final(state)[2], final(state)[3]) == md4_compress(
            (old(state)[0], old(state)[1], old(state)[2], old(state)[3]),
            block@,
        ),
{
    let ghost words = md4_block_words(block@);
    let mut x = [0u32; 16];
    let mut j: usize = 0;
    while j < 16
        invariant
            j <= 16,
            block@.len() == 64,
            words == md4_block_words(block@),
            forall|m: int| 0 <= m < j ==> x@[m] == words[m],
        decreases 16 - j,
    {
        x[j] = read_u32_le(block, 4 * j);
        j = j + 1;
    }
    assert(x@ =~= words);
    let ghost h = (state[0], state[1], state[2], state[3]);
    let mut a = state[0];
    let mut b = state[1];
    let mut c = state[2];
    let mut d = state[3];
    let mut n: usize = 0;
    while n < 48
        invariant
            n <= 48,
            x@ == words,
            (a, b, c, d) == md4_steps(h, words, n as nat),
        decreases 48 - n,
    {
        let round = n / 16;
        let i = n % 16;
        let k = md4_word_index_exec(round, i);
        let s = md4_shift_exec(round, i);
        let t = a.wrapping_add(md4_aux_exec(round, b, c, d)).wrapping_add(x[k]).wrapping_add(
            md4_round_constant_exec(round),
        );
        let rotated = (t << s) | (t >> (32 - s));
        a = d;
        d = c;
        c = b;
        b = rotated;
        n = n + 1;
    }
    state[0] = state[0].wrapping_add(a);
    state[1] = state[1].wrapping_add(b);
    state[2] = state[2].wrapping_add(c);
    state[3] = state[3].wrapping_add(d);
}


/// An MD4 computation in progress: the registers after every whole block
/// absorbed so far, and the bytes of the block that is not yet whole.
pub struct Md4 {
    state: [u32; 4],
    buffer: [u8; 64],
    buffer_len: usize,
    total_len: u64,
    initial: Ghost<Md4Registers>,
    absorbed: Ghost<Seq<u8>>,
}

impl View for Md4 {
    type V = Seq<u8>;

    /// The bytes absorbed so far.
    closed spec fn view(&self) -> Seq<u8> {
        self.absorbed@
    }
}

impl Md4 {
    /// The initial value the computation started from.
    pub closed spec fn initial_value(&self) -> Md4Registers {
        self.initial@
    }

    closed spec fn registers(&self) -> Md4Registers {
        (self.state[0], self.state[1], self.state[2], self.state[3])
    }

    /// The registers and the partial block agree with the stream absorbed.
    closed spec fn stream_inv(&self) -> bool {
        let s = self.absorbed@;
        let bl = self.buffer_len as int;
        &&& self.buffer_len < 64
        &&& s.len() % 64 == bl
        &&& self.buffer@.take(bl) == s.skip(s.len() - bl)
        &&& self.registers() == md4_process(self.initial@, s.take(s.len() - bl))
    }

    /// The computation is consistent with the bytes absorbed so far.
    pub closed spec fn wf(&self) -> bool {
        &&& self.stream_inv()
        &&& self.total_len == self.absorbed@.len()
    }

    /// A computation from the standard MD4 initial value.
    pub fn new() -> (m: Self)
        ensures
            m.wf(),
            m@ == Seq::<u8>::empty(),
            m.initial_value() == md4_standard_iv(),
    {
        Self::with_initial_value([0x6745_2301, 0xefcd_ab89, 0x98ba_dcfe, 0x1032_5476])
    }

    /// A computation from the given initial value (A, B, C, D).
    pub fn with_initial_value(iv: [u32; 4]) -> (m: Self)
        ensures
            m.wf(),
            m@ == Seq::<u8>::empty(),
            m.initial_value() == (iv[0], iv[1], iv[2], iv[3]),
    {
        let m = Md4 {
            state: iv,
            buffer: [0u8; 64],
            buffer_len: 0,
            total_len: 0,
            initial: Ghost((iv[0], iv[1], iv[2], iv[3])),
            absorbed: Ghost(Seq::empty()),
        };
        assert(m.buffer@.take(0) =~= m.absorbed@.skip(0));
        assert(m.absorbed@.take(0) =~= Seq::<u8>::empty());
        m
    }

    #[verifier::rlimit(30)]
    fn absorb_byte(&mut self, byte: u8)
        requires
            old(self).stream_inv(),
        ensures
            final(self).stream_inv(),
            final(self)@ == old(self)@.push(byte),
            final(self).initial == old(self).initial,
            final(self).total_len == old(self).total_len,
    {
        let ghost s = self.absorbed@;
        let ghost bl = self.buffer_len as int;
        let ghost prefix = s.take(s.len() - bl);
        let ghost oldbuf = self.buffer@;
        self.buffer[self.buffer_len] = byte;
        self.buffer_len = self.buffer_len + 1;
        self.absorbed = Ghost(s.push(byte));
        let ghost s2 = s.push(byte);
        assert forall|j: int| 0 <= j < bl + 1 implies #[trigger] self.buffer@.take(bl + 1)[j]
            == s2.skip(s2.len() - (bl + 1))[j] by {
            if j < bl {
                assert(oldbuf.take(bl)[j] == s.skip(s.len() - bl)[j]);
            }
        }
        assert(self.buffer@.take(bl + 1) =~= s2.skip(s2.len() - (bl + 1)));
        assert(s2.take(s2.len() - (bl + 1)) =~= prefix);
        if self.buffer_len == 64 {
            md4_compress_block(&mut self.state, self.buffer.as_slice());
            self.buffer_len = 0;
            proof {
                let block = s2.skip(s2.len() - 64);
                assert(self.buffer@.take(64) =~= self.buffer@);
                lemma_process_append(self.initial@, prefix, block);
                lemma_process_one_block(md4_process(self.initial@, prefix), block);
                assert(prefix + block =~= s2);
                assert(s2.take(s2.len() - 0) =~= s2);
                assert(self.buffer@.take(0) =~= s2.skip(s2.len() - 0));
            }
        }
    }

    /// Absorbs `data`.
    pub fn update(&mut self, data: &[u8])
        requires
            old(self).wf(),
            old(self)@.len() + data@.len() <= u64::MAX,
        ensures
            final(self).wf(),
            final(self)@ == old(self)@ + data@,
            final(self).initial_value() == old(self).initial_value(),
    {
        let n = data.len();
        let mut i: usize = 0;
        while i < n
            invariant
                n == data@.len(),
                i <= n,
                self.wf(),
                self@ == old(self)@ + data@.take(i as int),
                self.initial == old(self).initial,
                old(self)@.len() + data@.len() <= u64::MAX,
            decreases n - i,
        {
            self.absorb_byte(data[i]);
            self.total_len = self.total_len + 1;
            assert(data@.take(i + 1) =~= data@.take(i as int).push(data@[i as int]));
            i = i + 1;
        }
        assert(data@.take(n as int) =~= data@);
    }

    /// Absorbs zero bytes until the partial block holds 56 bytes.
    fn absorb_zeros_to_56(&mut self)
        requires
            old(self).stream_inv(),
        ensures
            final(self).stream_inv(),
            final(self).initial == old(self).initial,
            final(self).total_len == old(self).total_len,
            final(self)@ == old(self)@ + Seq::new(zeros_to_56(old(self)@.len()), |i: int| 0u8),
    {
        let ghost start = self@;
        let ghost z = zeros_to_56(start.len());
        let ghost mut k: nat = 0;
        while self.buffer_len != 56
            invariant
                self.stream_inv(),
                self.initial == old(self).initial,
                self.total_len == old(self).total_len,
                start == old(self)@,
                z == zeros_to_56(start.len()),
                k <= z,
                self@ == start + Seq::new(k, |i: int| 0u8),
            decreases z - k,
        {
            proof {
                lemma_zeros_to_56(start.len(), k);
            }
            self.absorb_byte(0);
            proof {
                assert(Seq::new((k + 1) as nat, |i: int| 0u8) =~= Seq::new(k, |i: int| 0u8).push(0));
                k = k + 1;
            }
        }
        proof {
            lemma_zeros_to_56(start.len(), k);
        }
    }

    /// Absorbs the eight little-endian bytes of `v`.
    fn absorb_u64_le(&mut self, v: u64)
        requires
            old(self).stream_inv(),
        ensures
            final(self).stream_inv(),
            final(self).initial == old(self).initial,
            final(self).total_len == old(self).total_len,
            final(self)@ == old(self)@ + le64_bytes(v),
    {
        let mut b: usize = 0;
        while b < 8
            invariant
                b <= 8,
                self.stream_inv(),
                self.initial == old(self).initial,
                self.total_len == old(self).total_len,
                self@ == old(self)@ + le64_bytes(v).take(b as int),
            decreases 8 - b,
        {
            let byte = ((v >> (8 * b as u64)) & 0xff) as u8;
            self.absorb_byte(byte);
            assert(le64_bytes(v).take(b + 1) =~= le64_bytes(v).take(b as int).push(byte));
            b = b + 1;
        }
        assert(le64_bytes(v).take(8) =~= le64_bytes(v));
    }

    /// The digest of everything absorbed.
    #[verifier::rlimit(30)]
    pub fn finalize(self) -> (digest: [u8; 16])
        requires
            self.wf(),
        ensures
            digest@ == md4_digest(self.initial_value(), self@),
    {
        let ghost msg = self@;
        let bit_len = self.total_len.wrapping_mul(8);
        let mut m = self;
        m.absorb_byte(0x80);
        m.absorb_zeros_to_56();
        m.absorb_u64_le(bit_len);
        proof {
            lemma_zero_count(msg.len());
            assert(m@ =~= md4_pad(msg));
            assert(m@.len() % 64 == 0);
            assert(m@.take(m@.len() - 0) =~= m@);
        }
        let mut digest = [0u8; 16];
        write_u32_le(&mut digest, 0, m.state[0]);
        write_u32_le(&mut digest, 4, m.state[1]);
        write_u32_le(&mut digest, 8, m.state[2]);
        write_u32_le(&mut digest, 12, m.state[3]);
        assert(digest@ =~= md4_registers_bytes(m.registers()));
        digest
    }
}

/// The number of zero bytes that bring a stream of `len` bytes to 56 modulo 64.
spec fn zeros_to_56(len: nat) -> nat {
    let l = len % 64;
    if l <= 56 {
        (56 - l) as nat
    } else {
        (120 - l) as nat
    }
}

proof fn lemma_zeros_to_56(len: nat, k: nat)
    requires
        k <= zeros_to_56(len),
    ensures
        ((len + k) % 64 == 56) <==> (k == zeros_to_56(len)),
{
}

proof fn lemma_zero_count(len: nat)
    ensures
        md4_zero_count(len) == zeros_to_56(len + 1),
        (len + 1 + md4_zero_count(len) + 8) % 64 == 0,
{
}


/// Absorbing a message in two parts gives the digest of the whole message:
/// `update(a)` followed by `update(b)` finalizes to the digest of `a + b`.
pub proof fn lemma_updates_compose(iv: Md4Registers, a: Seq<u8>, b: Seq<u8>)
    ensures
        md4_digest(iv, Seq::<u8>::empty() + a + b) == md4_digest(iv, a + b),
{
    assert(Seq::<u8>::empty() + a + b =~= a + b);
}

/// Which part of the MD4 digest protects a packet.
#[derive(Debug, Clone, Copy, PartialEq, Eq, Structural)]
pub enum SafetyCodeMode {
    NoCode,
    LowerMd4,
    FullMd4,
}

/// The safety code of a RaSTA network: its mode and the MD4 initial value
/// that separates the network from others.
#[derive(Debug, Clone, Copy)]
pub struct SafetyCodeConfig {
    pub mode: SafetyCodeMode,
    pub initial_value: [u32; 4],
}

/// The number of safety-code bytes at the end of a packet.
pub open spec fn safety_code_size(mode: SafetyCodeMode) -> nat {
    match mode {
        SafetyCodeMode::NoCode => 0,
        SafetyCodeMode::LowerMd4 => 8,
        SafetyCodeMode::FullMd4 => 16,
    }
}

/// The initial value of a configuration, as registers.
pub open spec fn config_iv(config: SafetyCodeConfig) -> Md4Registers {
    (config.initial_value[0], config.initial_value[1], config.initial_value[2], config.initial_value[3])
}

/// The safety code that protects `data`: the first `safety_code_size` bytes
/// of its MD4 digest from the configured initial value.
pub closed spec fn safety_code_of(config: SafetyCodeConfig, data: Seq<u8>) -> Seq<u8> {
    md4_digest(config_iv(config), data).take(safety_code_size(config.mode) as int)
}

/// The safety code has the configured size, and is a prefix of the digest.
pub broadcast proof fn lemma_safety_code_of(config: SafetyCodeConfig, data: Seq<u8>)
    ensures
        #[trigger] safety_code_of(config, data).len() == safety_code_size(config.mode),
        safety_code_of(config, data) == md4_digest(config_iv(config), data).take(
            safety_code_size(config.mode) as int,
        ),
{
    assert(md4_registers_bytes(md4_process(config_iv(config), md4_pad(data))).len() == 16);
}

impl Default for SafetyCodeConfig {
    /// The lower 8 bytes of MD4 with the standard initial value.
    fn default() -> (c: Self)
        ensures
            c.mode == SafetyCodeMode::LowerMd4,
            config_iv(c) == md4_standard_iv(),
    {
        Self {
            mode: SafetyCodeMode::LowerMd4,
            initial_value: [0x6745_2301, 0xefcd_ab89, 0x98ba_dcfe, 0x1032_5476],
        }
    }
}

impl SafetyCodeConfig {
    /// The number of safety-code bytes at the end of a packet.
    pub fn code_len(&self) -> (n: usize)
        ensures
            n == safety_code_size(self.mode),
    {
        match self.mode {
            SafetyCodeMode::NoCode => 0,
            SafetyCodeMode::LowerMd4 => 8,
            SafetyCodeMode::FullMd4 => 16,
        }
    }

    /// The MD4 digest of `data` from the configured initial value; its first
    /// `code_len()` bytes are the safety code.
    pub fn digest(&self, data: &[u8]) -> (d: [u8; 16])
        ensures
            d@ == md4_digest(config_iv(*self), data@),
            d@.take(safety_code_size(self.mode) as int) == safety_code_of(*self, data@),
    {
        let mut md4 = Md4::with_initial_value(self.initial_value);
        let n = data.len();
        assert(n == data@.len());
        assert(usize::MAX <= u64::MAX);
        md4.update(data);
        md4.finalize()
    }
}

} // verus!
