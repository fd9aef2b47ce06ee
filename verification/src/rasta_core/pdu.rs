//! Packets (PDUs) of the Safety and Retransmission Layer and their wire
//! format: eight little-endian header fields, the payload, and the safety
//! code.
use crate::rasta_core::byte_order::{
    copy_into, le16_bytes, le16_value, le32_bytes, le32_value, lemma_le16_bytes_of_value,
    lemma_le16_roundtrip, lemma_le32_bytes_of_value, lemma_le32_roundtrip, read_u16_le, read_u32_le, write_u16_le, write_u32_le,
};
use crate::rasta_core::safety_code::{
    lemma_safety_code_of, safety_code_of, safety_code_size, SafetyCodeConfig,
};
use vstd::prelude::*;

verus! {

/// The largest payload a packet carries.
pub const MAX_PAYLOAD: usize = 256;

/// Bytes before the payload.
pub const PACKET_HEADER_SIZE: usize = 28;

#[derive(Debug, Clone, Copy, PartialEq, Eq, Structural)]
pub enum PacketType {
    ConnectionRequest,
    ConnectionResponse,
    RetransmissionRequest,
    RetransmissionResponse,
    DisconnectionRequest,
    Heartbeat,
    Data,
    RetransmittedData,
}

/// The message type number of each packet type.
pub open spec fn packet_type_code(t: PacketType) -> u16 {
    match t {
        PacketType::ConnectionRequest => 6200,
        PacketType::ConnectionResponse => 6201,
        PacketType::RetransmissionRequest => 6212,
        PacketType::RetransmissionResponse => 6213,
        PacketType::DisconnectionRequest => 6216,
        PacketType::Heartbeat => 6220,
        PacketType::Data => 6240,
        PacketType::RetransmittedData => 6241,
    }
}

/// The packet type that a message type number stands for.
pub open spec fn packet_type_of_code(code: u16) -> Option<PacketType> {
    if code == 6200 {
        Some(PacketType::ConnectionRequest)
    } else if code == 6201 {
        Some(PacketType::ConnectionResponse)
    } else if code == 6212 {
        Some(PacketType::RetransmissionRequest)
    } else if code == 6213 {
        Some(PacketType::RetransmissionResponse)
    } else if code == 6216 {
        Some(PacketType::DisconnectionRequest)
    } else if code == 6220 {
        Some(PacketType::Heartbeat)
    } else if code == 6240 {
        Some(PacketType::Data)
    } else if code == 6241 {
        Some(PacketType::RetransmittedData)
    } else {
        None
    }
}

impl PacketType {
    pub fn code(&self) -> (c: u16)
        ensures
            c == packet_type_code(*self),
    {
        match self {
            PacketType::ConnectionRequest => 6200,
            PacketType::ConnectionResponse => 6201,
            PacketType::RetransmissionRequest => 6212,
            PacketType::RetransmissionResponse => 6213,
            PacketType::DisconnectionRequest => 6216,
            PacketType::Heartbeat => 6220,
            PacketType::Data => 6240,
            PacketType::RetransmittedData => 6241,
        }
    }

    pub fn from_code(code: u16) -> (t: Option<PacketType>)
        ensures
            t == packet_type_of_code(code),
    {
        if code == 6200 {
            Some(PacketType::ConnectionRequest)
        } else if code == 6201 {
            Some(PacketType::ConnectionResponse)
        } else if code == 6212 {
            Some(PacketType::RetransmissionRequest)
        } else if code == 6213 {
            Some(PacketType::RetransmissionResponse)
        } else if code == 6216 {
            Some(PacketType::DisconnectionRequest)
        } else if code == 6220 {
            Some(PacketType::Heartbeat)
        } else if code == 6240 {
            Some(PacketType::Data)
        } else if code == 6241 {
            Some(PacketType::RetransmittedData)
        } else {
            None
        }
    }
}

/// Why bytes could not be read as a packet, or a packet not written.
#[derive(Debug, Clone, Copy, PartialEq, Eq, Structural)]
pub enum PduError {
    BufferTooSmall,
    PayloadTooLarge,
    TooShort,
    InvalidLength,
    UnknownType,
    SafetyCodeMismatch,
}

#[derive(Debug, Clone, Copy)]
pub struct Packet {
    pub receiver_id: u32,
    pub sender_id: u32,
    pub sequence_number: u32,
    pub confirmed_sequence_number: u32,
    pub timestamp: u32,
    pub confirmed_timestamp: u32,
    pub packet_type: PacketType,
    pub payload: [u8; 256],
    pub payload_len: usize,
}

/// The payload bytes that a packet carries.
pub open spec fn packet_payload(p: Packet) -> Seq<u8> {
    p.payload@.take(p.payload_len as int)
}

/// The header and payload of `p` on the wire, with a length field that
/// counts `code_size` safety-code bytes after them.
#[verifier::opaque]
pub open spec fn packet_body(p: Packet, code_size: nat) -> Seq<u8> {
    let total = 28 + p.payload_len + code_size;
    le16_bytes(total as u16) + le16_bytes(packet_type_code(p.packet_type)) + le32_bytes(
        p.receiver_id,
    ) + le32_bytes(p.sender_id) + le32_bytes(p.sequence_number) + le32_bytes(
        p.confirmed_sequence_number,
    ) + le32_bytes(p.timestamp) + le32_bytes(p.confirmed_timestamp) + packet_payload(p)
}

/// The bytes that carry `p` under the safety code `config`.
pub open spec fn encode_packet(config: SafetyCodeConfig, p: Packet) -> Seq<u8> {
    let body = packet_body(p, safety_code_size(config.mode));
    body + safety_code_of(config, body)
}

/// Why `data` is not a packet under `config`, checked in this order; `None`
/// when it is one.
pub open spec fn packet_error(config: SafetyCodeConfig, data: Seq<u8>) -> Option<PduError> {
    let cs = safety_code_size(config.mode);
    if data.len() < 28 + cs {
        Some(PduError::TooShort)
    } else if le16_value(data) != data.len() {
        Some(PduError::InvalidLength)
    } else if data.len() - 28 - cs > 256 {
        Some(PduError::PayloadTooLarge)
    } else if packet_type_of_code(le16_value(data.skip(2))) is None {
        Some(PduError::UnknownType)
    } else if data.skip(data.len() - cs) != safety_code_of(config, data.take(data.len() - cs)) {
        Some(PduError::SafetyCodeMismatch)
    } else {
        None
    }
}

/// The 32-bit header field at `pos`.
pub open spec fn field32(data: Seq<u8>, pos: int) -> u32 {
    le32_value(data.subrange(pos, pos + 4))
}

/// `p` is the packet that the bytes `data` carry under `config`.
pub open spec fn decodes_to(config: SafetyCodeConfig, data: Seq<u8>, p: Packet) -> bool {
    let cs = safety_code_size(config.mode);
    &&& Some(p.packet_type) == packet_type_of_code(le16_value(data.skip(2)))
    &&& p.receiver_id == field32(data, 4)
    &&& p.sender_id == field32(data, 8)
    &&& p.sequence_number == field32(data, 12)
    &&& p.confirmed_sequence_number == field32(data, 16)
    &&& p.timestamp == field32(data, 20)
    &&& p.confirmed_timestamp == field32(data, 24)
    &&& p.payload_len == data.len() - 28 - cs
    &&& packet_payload(p) == data.subrange(28, data.len() - cs)
}

/// A known message type number is the number of the type it stands for.
proof fn lemma_type_code_inverse(code: u16, t: PacketType)
    requires
        packet_type_of_code(code) == Some(t),
    ensures
        packet_type_code(t) == code,
{
}

/// Bytes that read as a packet are exactly the encoding of that packet:
/// every packet has one representation on the wire.
#[verifier::rlimit(40)]
pub proof fn lemma_parsed_packet_reencodes(config: SafetyCodeConfig, data: Seq<u8>, p: Packet)
    requires
        packet_error(config, data) is None,
        decodes_to(config, data, p),
    ensures
        encode_packet(config, p) == data,
{
    let cs = safety_code_size(config.mode);
    let len = data.len();
    let body_len = len - cs;
    let b = packet_body(p, cs);
    let t = data.take(body_len);
    lemma_body_layout(p, cs);
    lemma_safety_code_of(config, b);
    assert(data.subrange(0, 2)[0] == data[0] && data.subrange(0, 2)[1] == data[1]);
    lemma_le16_bytes_of_value(data.subrange(0, 2));
    assert(le16_value(data.subrange(0, 2)) == le16_value(data));
    assert(data.subrange(2, 4) =~= data.skip(2).subrange(0, 2));
    lemma_le16_bytes_of_value(data.subrange(2, 4));
    assert(le16_value(data.subrange(2, 4)) == le16_value(data.skip(2)));
    lemma_type_code_inverse(le16_value(data.skip(2)), p.packet_type);
    lemma_le32_bytes_of_value(data.subrange(4, 8));
    lemma_le32_bytes_of_value(data.subrange(8, 12));
    lemma_le32_bytes_of_value(data.subrange(12, 16));
    lemma_le32_bytes_of_value(data.subrange(16, 20));
    lemma_le32_bytes_of_value(data.subrange(20, 24));
    lemma_le32_bytes_of_value(data.subrange(24, 28));
    assert forall|i: int| 0 <= i < body_len implies #[trigger] t[i] == b[i] by {
        if i < 2 {
            assert(data.subrange(0, 2)[i] == b.subrange(0, 2)[i]);
        } else if i < 4 {
            assert(data.subrange(2, 4)[i - 2] == b.subrange(2, 4)[i - 2]);
        } else if i < 8 {
            assert(data.subrange(4, 8)[i - 4] == b.subrange(4, 8)[i - 4]);
        } else if i < 12 {
            assert(data.subrange(8, 12)[i - 8] == b.subrange(8, 12)[i - 8]);
        } else if i < 16 {
            assert(data.subrange(12, 16)[i - 12] == b.subrange(12, 16)[i - 12]);
        } else if i < 20 {
            assert(data.subrange(16, 20)[i - 16] == b.subrange(16, 20)[i - 16]);
        } else if i < 24 {
            assert(data.subrange(20, 24)[i - 20] == b.subrange(20, 24)[i - 20]);
        } else if i < 28 {
            assert(data.subrange(24, 28)[i - 24] == b.subrange(24, 28)[i - 24]);
        } else {
            assert(data.subrange(28, body_len)[i - 28] == b.subrange(28, body_len)[i - 28]);
        }
    }
    assert(t =~= b);
    assert(encode_packet(config, p) =~= data);
}

/// A packet read from bytes carries at most `MAX_PAYLOAD` payload bytes.
pub proof fn lemma_parsed_payload_fits(config: SafetyCodeConfig, data: Seq<u8>, p: Packet)
    requires
        packet_error(config, data) is None,
        decodes_to(config, data, p),
    ensures
        p.payload_len <= MAX_PAYLOAD,
{
}

/// Where each field of a packet body lies.
#[verifier::rlimit(40)]
proof fn lemma_body_layout(p: Packet, cs: nat)
    requires
        p.payload_len <= 256,
    ensures
        packet_body(p, cs).len() == 28 + p.payload_len,
        packet_body(p, cs).subrange(0, 2) == le16_bytes((28 + p.payload_len + cs) as u16),
        packet_body(p, cs).subrange(2, 4) == le16_bytes(packet_type_code(p.packet_type)),
        packet_body(p, cs).subrange(4, 8) == le32_bytes(p.receiver_id),
        packet_body(p, cs).subrange(8, 12) == le32_bytes(p.sender_id),
        packet_body(p, cs).subrange(12, 16) == le32_bytes(p.sequence_number),
        packet_body(p, cs).subrange(16, 20) == le32_bytes(p.confirmed_sequence_number),
        packet_body(p, cs).subrange(20, 24) == le32_bytes(p.timestamp),
        packet_body(p, cs).subrange(24, 28) == le32_bytes(p.confirmed_timestamp),
        packet_body(p, cs).subrange(28, 28 + p.payload_len) == packet_payload(p),
{
    reveal(packet_body);
    let total = 28 + p.payload_len + cs;
    let h1 = le16_bytes(total as u16) + le16_bytes(packet_type_code(p.packet_type));
    let h2 = h1 + le32_bytes(p.receiver_id);
    let h3 = h2 + le32_bytes(p.sender_id);
    let h4 = h3 + le32_bytes(p.sequence_number);
    let h5 = h4 + le32_bytes(p.confirmed_sequence_number);
    let h6 = h5 + le32_bytes(p.timestamp);
    let h7 = h6 + le32_bytes(p.confirmed_timestamp);
    let b = h7 + packet_payload(p);
    assert(b == packet_body(p, cs));
    assert(h1.subrange(0, 2) =~= le16_bytes(total as u16));
    assert(h1.subrange(2, 4) =~= le16_bytes(packet_type_code(p.packet_type)));
    assert(h7.subrange(0, 4) =~= h1) by {
        assert(h7.subrange(0, 4) =~= h6.subrange(0, 4));
        assert(h6.subrange(0, 4) =~= h5.subrange(0, 4));
        assert(h5.subrange(0, 4) =~= h4.subrange(0, 4));
        assert(h4.subrange(0, 4) =~= h3.subrange(0, 4));
        assert(h3.subrange(0, 4) =~= h2.subrange(0, 4));
        assert(h2.subrange(0, 4) =~= h1);
    }
    assert(h7.subrange(0, 8) =~= h2) by {
        assert(h7.subrange(0, 8) =~= h6.subrange(0, 8));
        assert(h6.subrange(0, 8) =~= h5.subrange(0, 8));
        assert(h5.subrange(0, 8) =~= h4.subrange(0, 8));
        assert(h4.subrange(0, 8) =~= h3.subrange(0, 8));
        assert(h3.subrange(0, 8) =~= h2);
    }
    assert(h7.subrange(0, 12) =~= h3) by {
        assert(h7.subrange(0, 12) =~= h6.subrange(0, 12));
        assert(h6.subrange(0, 12) =~= h5.subrange(0, 12));
        assert(h5.subrange(0, 12) =~= h4.subrange(0, 12));
        assert(h4.subrange(0, 12) =~= h3);
    }
    assert(h7.subrange(0, 16) =~= h4) by {
        assert(h7.subrange(0, 16) =~= h6.subrange(0, 16));
        assert(h6.subrange(0, 16) =~= h5.subrange(0, 16));
        assert(h5.subrange(0, 16) =~= h4);
    }
    assert(h7.subrange(0, 20) =~= h5) by {
        assert(h7.subrange(0, 20) =~= h6.subrange(0, 20));
        assert(h6.subrange(0, 20) =~= h5);
    }
    assert(h7.subrange(0, 24) =~= h6);
    assert(b.subrange(0, 28) =~= h7);
    assert(b.subrange(0, 2) =~= h1.subrange(0, 2));
    assert(b.subrange(2, 4) =~= h1.subrange(2, 4));
    assert(b.subrange(4, 8) =~= h2.subrange(4, 8));
    assert(b.subrange(8, 12) =~= h3.subrange(8, 12));
    assert(b.subrange(12, 16) =~= h4.subrange(12, 16));
    assert(b.subrange(16, 20) =~= h5.subrange(16, 20));
    assert(b.subrange(20, 24) =~= h6.subrange(20, 24));
    assert(b.subrange(24, 28) =~= h7.subrange(24, 28));
    assert(b.subrange(28, 28 + p.payload_len) =~= packet_payload(p));
    assert(h2.subrange(4, 8) =~= le32_bytes(p.receiver_id));
    assert(h3.subrange(8, 12) =~= le32_bytes(p.sender_id));
    assert(h4.subrange(12, 16) =~= le32_bytes(p.sequence_number));
    assert(h5.subrange(16, 20) =~= le32_bytes(p.confirmed_sequence_number));
    assert(h6.subrange(20, 24) =~= le32_bytes(p.timestamp));
    assert(h7.subrange(24, 28) =~= le32_bytes(p.confirmed_timestamp));
}

/// Reading back the bytes of a packet gives the packet: its header fields,
/// its type and its payload.
#[verifier::rlimit(40)]
pub proof fn lemma_packet_roundtrip(config: SafetyCodeConfig, p: Packet)
    requires
        p.payload_len <= 256,
    ensures
        packet_error(config, encode_packet(config, p)) is None,
        decodes_to(config, encode_packet(config, p), p),
{
    let cs = safety_code_size(config.mode);
    let total = 28 + p.payload_len + cs;
    let body = packet_body(p, cs);
    let data = encode_packet(config, p);
    lemma_body_layout(p, cs);
    lemma_safety_code_of(config, body);
    lemma_le16_roundtrip(total as u16);
    lemma_le16_roundtrip(packet_type_code(p.packet_type));
    lemma_le32_roundtrip(p.receiver_id);
    lemma_le32_roundtrip(p.sender_id);
    lemma_le32_roundtrip(p.sequence_number);
    lemma_le32_roundtrip(p.confirmed_sequence_number);
    lemma_le32_roundtrip(p.timestamp);
    lemma_le32_roundtrip(p.confirmed_timestamp);
    assert(data.len() == total);
    assert(data.take(data.len() - cs) =~= body);
    assert(data.skip(data.len() - cs) =~= safety_code_of(config, body));
    assert(le16_value(data) == le16_value(body.subrange(0, 2)));
    assert(le16_value(data.skip(2)) == le16_value(body.subrange(2, 4)));
    assert(data.subrange(4, 8) =~= body.subrange(4, 8));
    assert(data.subrange(8, 12) =~= body.subrange(8, 12));
    assert(data.subrange(12, 16) =~= body.subrange(12, 16));
    assert(data.subrange(16, 20) =~= body.subrange(16, 20));
    assert(data.subrange(20, 24) =~= body.subrange(20, 24));
    assert(data.subrange(24, 28) =~= body.subrange(24, 28));
    assert(data.subrange(28, data.len() - cs) =~= body.subrange(28, 28 + p.payload_len));
}


/// A write of `bytes` at `k` extends a prefix that agrees with `b`.
#[verifier::rlimit(30)]
proof fn lemma_extend_prefix(
    old_buf: Seq<u8>,
    new_buf: Seq<u8>,
    b: Seq<u8>,
    k: int,
    bytes: Seq<u8>,
    end: int,
)
    requires
        0 <= k,
        k + bytes.len() <= end <= old_buf.len(),
        k + bytes.len() <= b.len(),
        new_buf == old_buf.take(k) + bytes + old_buf.skip(k + bytes.len()),
        old_buf.subrange(0, k) == b.subrange(0, k),
        b.subrange(k, k + bytes.len()) == bytes,
    ensures
        new_buf.len() == old_buf.len(),
        new_buf.subrange(0, k + bytes.len()) == b.subrange(0, k + bytes.len()),
        new_buf.skip(end) == old_buf.skip(end),
{
    assert(new_buf.subrange(0, k + bytes.len()) =~= b.subrange(0, k + bytes.len())) by {
        assert forall|i: int| 0 <= i < k + bytes.len() implies new_buf[i] == b[i] by {
            if i < k {
                assert(old_buf.subrange(0, k)[i] == b.subrange(0, k)[i]);
            } else {
                assert(b.subrange(k, k + bytes.len())[i - k] == bytes[i - k]);
            }
        }
    }
    assert(new_buf.skip(end) =~= old_buf.skip(end));
}

/// Appending the code after a written body leaves body, code, then the
/// untouched rest of the buffer.
proof fn lemma_append_code(
    before_code: Seq<u8>,
    after: Seq<u8>,
    original: Seq<u8>,
    body: Seq<u8>,
    code: Seq<u8>,
    body_len: int,
)
    requires
        0 <= body_len,
        body.len() == body_len,
        body_len + code.len() <= before_code.len(),
        before_code.len() == original.len(),
        before_code.take(body_len) == body,
        before_code.skip(body_len) == original.skip(body_len),
        after == before_code.take(body_len) + code + before_code.skip(body_len + code.len()),
    ensures
        after == body + code + original.skip(body_len + code.len()),
{
    assert(before_code.skip(body_len + code.len()) =~= original.skip(body_len + code.len())) by {
        assert forall|i: int| 0 <= i < original.len() - (body_len + code.len()) implies
            #[trigger] before_code.skip(body_len + code.len())[i] == original.skip(body_len + code.len())[i] by {
            assert(before_code.skip(body_len)[i + code.len()] == original.skip(body_len)[i + code.len()]);
        }
    }
}

impl Packet {
    /// Writes the header fields and the payload at the start of `buffer`.
    #[verifier::rlimit(30)]
    fn write_body(&self, buffer: &mut [u8], total: usize)
        requires
            self.payload_len <= MAX_PAYLOAD,
            28 + self.payload_len <= total <= old(buffer)@.len(),
            total - (28 + self.payload_len) <= 16,
        ensures
            final(buffer)@.len() == old(buffer)@.len(),
            final(buffer)@.take(28 + self.payload_len) == packet_body(
                *self,
                (total - 28 - self.payload_len) as nat,
            ),
            final(buffer)@.skip(28 + self.payload_len) == old(buffer)@.skip(28 + self.payload_len),
    {
        let ghost cs = (total - 28 - self.payload_len) as nat;
        let ghost b = packet_body(*self, cs);
        let ghost end = 28 + self.payload_len;
        let ghost b0 = buffer@;
        proof {
            lemma_body_layout(*self, cs);
            assert(b0.subrange(0, 0) =~= b.subrange(0, 0));
        }
        write_u16_le(buffer, 0, total as u16);
        proof { lemma_extend_prefix(b0, buffer@, b, 0, le16_bytes(total as u16), end); }
        let ghost b1 = buffer@;
        write_u16_le(buffer, 2, self.packet_type.code());
        proof { lemma_extend_prefix(b1, buffer@, b, 2, le16_bytes(packet_type_code(self.packet_type)), end); }
        let ghost b2 = buffer@;
        write_u32_le(buffer, 4, self.receiver_id);
        proof { lemma_extend_prefix(b2, buffer@, b, 4, le32_bytes(self.receiver_id), end); }
        let ghost b3 = buffer@;
        write_u32_le(buffer, 8, self.sender_id);
        proof { lemma_extend_prefix(b3, buffer@, b, 8, le32_bytes(self.sender_id), end); }
        let ghost b4 = buffer@;
        write_u32_le(buffer, 12, self.sequence_number);
        proof { lemma_extend_prefix(b4, buffer@, b, 12, le32_bytes(self.sequence_number), end); }
        let ghost b5 = buffer@;
        write_u32_le(buffer, 16, self.confirmed_sequence_number);
        proof { lemma_extend_prefix(b5, buffer@, b, 16, le32_bytes(self.confirmed_sequence_number), end); }
        let ghost b6 = buffer@;
        write_u32_le(buffer, 20, self.timestamp);
        proof { lemma_extend_prefix(b6, buffer@, b, 20, le32_bytes(self.timestamp), end); }
        let ghost b7 = buffer@;
        write_u32_le(buffer, 24, self.confirmed_timestamp);
        proof { lemma_extend_prefix(b7, buffer@, b, 24, le32_bytes(self.confirmed_timestamp), end); }
        let ghost b8 = buffer@;
        let payload = vstd::slice::slice_subrange(self.payload.as_slice(), 0, self.payload_len);
        copy_into(buffer, PACKET_HEADER_SIZE, payload);
        proof {
            assert(payload@ =~= packet_payload(*self));
            lemma_extend_prefix(b8, buffer@, b, 28, packet_payload(*self), end);
            assert(buffer@.take(end) =~= buffer@.subrange(0, end));
            assert(b.subrange(0, end) =~= b);
        }
    }

    /// Writes the packet, followed by its safety code, at the start of
    /// `buffer` and returns the number of bytes written.
    #[verifier::rlimit(30)]
    pub fn serialize(&self, buffer: &mut [u8], safety: &SafetyCodeConfig) -> (r: Result<
        usize,
        PduError,
    >)
        ensures
            self.payload_len > MAX_PAYLOAD ==> r == Err::<usize, PduError>(PduError::PayloadTooLarge),
            self.payload_len <= MAX_PAYLOAD && 28 + self.payload_len + safety_code_size(safety.mode)
                > old(buffer)@.len() ==> r == Err::<usize, PduError>(PduError::BufferTooSmall),
            r is Err ==> final(buffer)@ == old(buffer)@,
            r matches Ok(n) ==> {
                &&& self.payload_len <= MAX_PAYLOAD
                &&& n == 28 + self.payload_len + safety_code_size(safety.mode)
                &&& final(buffer)@ == encode_packet(*safety, *self) + old(buffer)@.skip(n as int)
            },
            self.payload_len <= MAX_PAYLOAD && 28 + self.payload_len + safety_code_size(safety.mode)
                <= old(buffer)@.len() ==> r is Ok,
    {
        if self.payload_len > MAX_PAYLOAD {
            return Err(PduError::PayloadTooLarge);
        }
        let code_len = safety.code_len();
        let body_len = PACKET_HEADER_SIZE + self.payload_len;
        let total = body_len + code_len;
        if total > buffer.len() {
            return Err(PduError::BufferTooSmall);
        }
        let ghost old_buf = buffer@;
        let ghost cs = safety_code_size(safety.mode);
        self.write_body(buffer, total);
        let ghost body = packet_body(*self, cs);
        let ghost before_code = buffer@;
        proof {
            lemma_safety_code_of(*safety, body);
        }
        if code_len > 0 {
            let digest = safety.digest(vstd::slice::slice_subrange(buffer, 0, body_len));
            let code = vstd::slice::slice_subrange(digest.as_slice(), 0, code_len);
            proof {
                assert(buffer@.subrange(0, body_len as int) =~= buffer@.take(body_len as int));
                assert(code@ == safety_code_of(*safety, body));
            }
            copy_into(buffer, body_len, code);
            proof {
                lemma_append_code(before_code, buffer@, old_buf, body, code@, body_len as int);
            }
        } else {
            proof {
                let e = Seq::<u8>::empty();
                assert(buffer@ =~= before_code.take(body_len as int) + e + before_code.skip(body_len + e.len()));
                lemma_append_code(before_code, buffer@, old_buf, body, e, body_len as int);
            }
        }
        Ok(total)
    }

    /// Reads the packet that `data` holds, checking its length field, its
    /// type and its safety code.
    #[verifier::loop_isolation(false)]
    #[verifier::rlimit(30)]
    pub fn parse(data: &[u8], safety: &SafetyCodeConfig) -> (r: Result<Packet, PduError>)
        ensures
            packet_error(*safety, data@) matches Some(e) ==> r == Err::<Packet, PduError>(e),
            packet_error(*safety, data@) is None ==> (r matches Ok(p) && decodes_to(
                *safety,
                data@,
                p,
            )),
            r matches Ok(p) ==> forall|i: int|
                p.payload_len <= i < 256 ==> #[trigger] p.payload@[i] == 0u8,
    {
        let code_len = safety.code_len();
        let len = data.len();
        if len < PACKET_HEADER_SIZE + code_len {
            return Err(PduError::TooShort);
        }
        let declared = read_u16_le(data, 0);
        assert(le16_value(data@) == le16_value(data@.subrange(0, 2)));
        if declared as usize != len {
            return Err(PduError::InvalidLength);
        }
        let payload_len = len - PACKET_HEADER_SIZE - code_len;
        if payload_len > MAX_PAYLOAD {
            return Err(PduError::PayloadTooLarge);
        }
        let type_code = read_u16_le(data, 2);
        assert(le16_value(data@.skip(2)) == le16_value(data@.subrange(2, 4)));
        let packet_type = match PacketType::from_code(type_code) {
            Some(t) => t,
            None => return Err(PduError::UnknownType),
        };
        let body_len = len - code_len;
        if code_len > 0 {
            let digest = safety.digest(vstd::slice::slice_subrange(data, 0, body_len));
            let received = vstd::slice::slice_subrange(data, body_len, len);
            let mut i: usize = 0;
            while i < code_len
                invariant
                    i <= code_len,
                    code_len == safety_code_size(safety.mode),
                    code_len <= 16,
                    received@.len() == code_len,
                    forall|j: int| 0 <= j < i ==> received@[j] == digest@[j],
                decreases code_len - i,
            {
                if received[i] != digest[i] {
                    proof {
                        lemma_safety_code_of(*safety, data@.take(body_len as int));
                        assert(data@.subrange(0, body_len as int) =~= data@.take(body_len as int));
                        assert(received@ =~= data@.skip(body_len as int));
                        assert(data@.skip(body_len as int)[i as int] != safety_code_of(
                            *safety,
                            data@.take(body_len as int),
                        )[i as int]);
                    }
                    return Err(PduError::SafetyCodeMismatch);
                }
                i = i + 1;
            }
            proof {
                lemma_safety_code_of(*safety, data@.take(body_len as int));
                assert(data@.subrange(0, body_len as int) =~= data@.take(body_len as int));
                assert(received@ =~= data@.skip(body_len as int));
                assert(data@.skip(body_len as int) =~= safety_code_of(
                    *safety,
                    data@.take(body_len as int),
                ));
            }
        } else {
            proof {
                lemma_safety_code_of(*safety, data@.take(body_len as int));
                assert(data@.skip(body_len as int) =~= safety_code_of(
                    *safety,
                    data@.take(body_len as int),
                ));
            }
        }
        let mut payload = [0u8; 256];
        let src = vstd::slice::slice_subrange(data, PACKET_HEADER_SIZE, body_len);
        copy_into(&mut payload, 0, src);
        let p = Packet {
            receiver_id: read_u32_le(data, 4),
            sender_id: read_u32_le(data, 8),
            sequence_number: read_u32_le(data, 12),
            confirmed_sequence_number: read_u32_le(data, 16),
            timestamp: read_u32_le(data, 20),
            confirmed_timestamp: read_u32_le(data, 24),
            packet_type,
            payload,
            payload_len,
        };
        assert(packet_payload(p) =~= data@.subrange(28, data@.len() - code_len));
        Ok(p)
    }
}

} // verus!
