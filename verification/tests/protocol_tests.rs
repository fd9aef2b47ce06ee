use rasta_stack::adapters::embedded_ethernet::{EmbeddedEthernetAdapter, EmbeddedEthernetDriver};
use rasta_stack::adapters::mock_transport::MockTransport;
use rasta_stack::adapters::standard_clock::StdClock;
use rasta_stack::adapters::standard_timer::{deadline_passed, StdTimer};
use rasta_stack::application::service_interface::{ConnectionStatus, RastaService};
use rasta_stack::platform::clock::Clock;
use rasta_stack::platform::timer::Timer;
use rasta_stack::platform::transport::{Transport, TransportError};
use rasta_stack::rasta_core::connection::{empty_packet, ConnectionError, RastaConfig, RastaConnection};
use rasta_stack::rasta_core::connection_state_machine::RastaState;
use rasta_stack::rasta_core::heartbeat::Heartbeat;
use rasta_stack::rasta_core::pdu::{Packet, PacketType, PduError};
use rasta_stack::rasta_core::redundancy_management::{
    crc16, crc32, send_outcome, RedundancyCheckCode, RedundancyConfig, RedundancyLayer,
};
use rasta_stack::rasta_core::retransmission::RetransmissionBuffer;
use rasta_stack::rasta_core::safety_code::{Md4, SafetyCodeConfig, SafetyCodeMode};
use rasta_stack::rasta_core::sequencing::{SequenceHandler, SequenceResult};
use rasta_stack::rasta_core::time_supervision::{TimeSupervisionError, TimeSupervisor};
use std::cell::RefCell;
use std::collections::VecDeque;
use std::rc::Rc;

type Wire = Rc<RefCell<VecDeque<Vec<u8>>>>;

/// A channel end: frames sent go to `outbox`, frames received come from `inbox`.
struct WireTransport {
    outbox: Wire,
    inbox: Wire,
    fail_receive: bool,
    fail_send: bool,
}

impl WireTransport {
    fn new(outbox: Wire, inbox: Wire) -> Self {
        Self { outbox, inbox, fail_receive: false, fail_send: false }
    }
}

impl Transport for WireTransport {
    fn send(&mut self, data: &[u8]) -> Result<(), TransportError> {
        if self.fail_send {
            return Err(TransportError::SendFailed);
        }
        self.outbox.borrow_mut().push_back(data.to_vec());
        Ok(())
    }
    fn receive(&mut self, buffer: &mut [u8]) -> Result<usize, TransportError> {
        if self.fail_receive {
            return Err(TransportError::ReceiveFailed);
        }
        match self.inbox.borrow_mut().pop_front() {
            Some(frame) => {
                buffer[..frame.len()].copy_from_slice(&frame);
                Ok(frame.len())
            }
            None => Ok(0),
        }
    }
}

fn wire() -> Wire {
    Rc::new(RefCell::new(VecDeque::new()))
}

struct FixedClock {
    time: Rc<RefCell<u32>>,
}
impl Clock for FixedClock {
    fn now_ms(&self) -> u32 {
        *self.time.borrow()
    }
}

struct FlagTimer {
    running: bool,
    expired: bool,
}
impl Timer for FlagTimer {
    fn start(&mut self, _duration_ms: u32) {
        self.running = true;
    }
    fn expired(&self) -> bool {
        self.running && self.expired
    }
    fn stop(&mut self) {
        self.running = false;
    }
}

fn config(sender_id: u32, remote_id: u32) -> RastaConfig {
    RastaConfig {
        sender_id,
        remote_id,
        safety_code: SafetyCodeConfig::default(),
        redundancy: RedundancyConfig::default(),
        t_max: 2000,
        initial_seq: 0,
        heartbeat_interval_ms: 500,
        n_send_max: 16,
    }
}

fn data_packet(seq: u32, payload: &[u8]) -> Packet {
    let mut p = Packet {
        receiver_id: 1,
        sender_id: 2,
        sequence_number: seq,
        confirmed_sequence_number: 0,
        timestamp: 0,
        confirmed_timestamp: 0,
        packet_type: PacketType::Data,
        payload: [0u8; 256],
        payload_len: payload.len(),
    };
    p.payload[..payload.len()].copy_from_slice(payload);
    p
}

fn frame_with(seq: u32, payload: &[u8]) -> Vec<u8> {
    let total = payload.len() + 8;
    let mut f = vec![0u8; total];
    f[..2].copy_from_slice(&(total as u16).to_le_bytes());
    f[4..8].copy_from_slice(&seq.to_le_bytes());
    f[8..].copy_from_slice(payload);
    f
}

#[test]
fn crc_known_values() {
    assert_eq!(crc16(b"123456789"), 0x29B1);
    assert_eq!(crc32(b"123456789"), 0xCBF4_3926);
    assert_eq!(crc16(b""), 0xFFFF);
    assert_eq!(crc32(b""), 0);
}

#[test]
fn md4_more_vectors() {
    let mut a = Md4::new();
    a.update(b"a");
    assert_eq!(
        a.finalize(),
        [0xbd, 0xe5, 0x2c, 0xb3, 0x1d, 0xe3, 0x3e, 0x46, 0x24, 0x5e, 0x05, 0xfb, 0xdb, 0xd6, 0xfb, 0x24]
    );
    let mut m = Md4::new();
    m.update(b"message digest");
    assert_eq!(
        m.finalize(),
        [0xd9, 0x13, 0x0a, 0x81, 0x64, 0x54, 0x9f, 0xe8, 0x18, 0x87, 0x48, 0x06, 0xe1, 0xc7, 0x01, 0x4b]
    );
    let long = b"12345678901234567890123456789012345678901234567890123456789012345678901234567890";
    let mut l = Md4::new();
    l.update(long);
    let whole = l.finalize();
    assert_eq!(
        whole,
        [0xe3, 0x3b, 0x4d, 0xdc, 0x9c, 0x38, 0xf2, 0x19, 0x9c, 0x3e, 0x7b, 0x16, 0x4f, 0xcc, 0x05, 0x36]
    );
    let mut pieces = Md4::new();
    pieces.update(&long[..7]);
    pieces.update(&long[7..64]);
    pieces.update(&long[64..]);
    assert_eq!(pieces.finalize(), whole);
}

#[test]
fn md4_initial_value_separates_networks() {
    let standard = Md4::new().finalize();
    let custom = Md4::with_initial_value([1, 2, 3, 4]).finalize();
    assert_ne!(standard, custom);
    let same = Md4::with_initial_value([0x6745_2301, 0xefcd_ab89, 0x98ba_dcfe, 0x1032_5476]).finalize();
    assert_eq!(standard, same);
}

#[test]
fn safety_code_lengths() {
    let mut c = SafetyCodeConfig::default();
    assert_eq!(c.mode, SafetyCodeMode::LowerMd4);
    assert_eq!(c.code_len(), 8);
    c.mode = SafetyCodeMode::FullMd4;
    assert_eq!(c.code_len(), 16);
    c.mode = SafetyCodeMode::NoCode;
    assert_eq!(c.code_len(), 0);
    let d = c.digest(b"abc");
    assert_eq!(d[0], 0xa4);
}

#[test]
fn packet_roundtrip_in_every_safety_mode() {
    for mode in [SafetyCodeMode::NoCode, SafetyCodeMode::LowerMd4, SafetyCodeMode::FullMd4] {
        let safety = SafetyCodeConfig { mode, initial_value: [9, 8, 7, 6] };
        let mut p = data_packet(77, b"payload bytes");
        p.confirmed_sequence_number = 76;
        p.timestamp = 123_456;
        p.confirmed_timestamp = 123_000;
        p.packet_type = PacketType::RetransmittedData;
        let mut buf = [0u8; 512];
        let n = p.serialize(&mut buf, &safety).unwrap();
        assert_eq!(n, 28 + 13 + safety.code_len());
        assert_eq!(u16::from_le_bytes([buf[0], buf[1]]) as usize, n);
        let q = Packet::parse(&buf[..n], &safety).unwrap();
        assert_eq!(q.sequence_number, 77);
        assert_eq!(q.confirmed_sequence_number, 76);
        assert_eq!(q.timestamp, 123_456);
        assert_eq!(q.confirmed_timestamp, 123_000);
        assert_eq!(q.packet_type, PacketType::RetransmittedData);
        assert_eq!(&q.payload[..q.payload_len], b"payload bytes");
        assert!(q.payload[q.payload_len..].iter().all(|b| *b == 0));
    }
}

#[test]
fn packet_errors() {
    let safety = SafetyCodeConfig::default();
    let p = data_packet(1, b"xyz");
    let mut buf = [0u8; 512];
    let n = p.serialize(&mut buf, &safety).unwrap();

    assert_eq!(Packet::parse(&buf[..20], &safety).err(), Some(PduError::TooShort));
    assert_eq!(Packet::parse(&buf[..n - 1], &safety).err(), Some(PduError::InvalidLength));

    let mut corrupt = buf;
    corrupt[30] ^= 0x01;
    assert_eq!(Packet::parse(&corrupt[..n], &safety).err(), Some(PduError::SafetyCodeMismatch));

    let mut unknown = buf;
    unknown[2] = 0;
    unknown[3] = 0;
    assert_eq!(Packet::parse(&unknown[..n], &safety).err(), Some(PduError::UnknownType));

    let other_network = SafetyCodeConfig { mode: SafetyCodeMode::LowerMd4, initial_value: [1, 2, 3, 4] };
    assert_eq!(Packet::parse(&buf[..n], &other_network).err(), Some(PduError::SafetyCodeMismatch));

    let big = 28 + 257 + 8;
    let mut too_big = [0u8; 512];
    too_big[..2].copy_from_slice(&(big as u16).to_le_bytes());
    assert_eq!(Packet::parse(&too_big[..big], &safety).err(), Some(PduError::PayloadTooLarge));

    let mut oversized = p;
    oversized.payload_len = 300;
    assert_eq!(oversized.serialize(&mut buf, &safety).err(), Some(PduError::PayloadTooLarge));
    let mut small = [0u8; 30];
    assert_eq!(p.serialize(&mut small, &safety).err(), Some(PduError::BufferTooSmall));
    assert_eq!(small, [0u8; 30]);
}

#[test]
fn packet_type_codes() {
    let all = [
        (PacketType::ConnectionRequest, 6200),
        (PacketType::ConnectionResponse, 6201),
        (PacketType::RetransmissionRequest, 6212),
        (PacketType::RetransmissionResponse, 6213),
        (PacketType::DisconnectionRequest, 6216),
        (PacketType::Heartbeat, 6220),
        (PacketType::Data, 6240),
        (PacketType::RetransmittedData, 6241),
    ];
    for (t, c) in all {
        assert_eq!(t.code(), c);
        assert_eq!(PacketType::from_code(c), Some(t));
    }
    assert_eq!(PacketType::from_code(6202), None);
}

#[test]
fn redundancy_frames_roundtrip_with_check_codes() {
    for code in [RedundancyCheckCode::NoCode, RedundancyCheckCode::Crc16, RedundancyCheckCode::Crc32] {
        let (a, b, spare) = (wire(), wire(), wire());
        let cfg = RedundancyConfig { check_code: code };
        let mut sender = RedundancyLayer::with_config(
            WireTransport::new(a.clone(), spare.clone()),
            WireTransport::new(b.clone(), spare.clone()),
            cfg,
        );
        sender.send(b"first").unwrap();
        sender.send(b"second").unwrap();
        let frame = a.borrow()[0].clone();
        assert_eq!(frame, b.borrow()[0]);
        let extra = match code {
            RedundancyCheckCode::NoCode => 0,
            RedundancyCheckCode::Crc16 => 2,
            RedundancyCheckCode::Crc32 => 4,
        };
        assert_eq!(frame.len(), 8 + 5 + extra);
        if code == RedundancyCheckCode::Crc16 {
            assert_eq!(&frame[13..], &crc16(&frame[..13]).to_le_bytes());
        }
        if code == RedundancyCheckCode::Crc32 {
            assert_eq!(&frame[13..], &crc32(&frame[..13]).to_le_bytes());
        }
        let mut receiver = RedundancyLayer::with_config(
            WireTransport::new(spare.clone(), a.clone()),
            WireTransport::new(spare.clone(), b.clone()),
            cfg,
        );
        let mut out = [0u8; 64];
        let n = receiver.receive(&mut out).unwrap();
        assert_eq!(&out[..n], b"first");
        // channel B's copy of the first frame is a duplicate
        let n = receiver.receive(&mut out).unwrap();
        assert_eq!(&out[..n], b"second");
        let n = receiver.receive(&mut out).unwrap();
        assert_eq!(n, 0);
    }
}

#[test]
fn redundancy_rejects_corrupted_check_code_and_bad_length() {
    let (a, spare) = (wire(), wire());
    let cfg = RedundancyConfig { check_code: RedundancyCheckCode::Crc16 };
    let mut sender = RedundancyLayer::with_config(
        WireTransport::new(a.clone(), spare.clone()),
        WireTransport::new(spare.clone(), spare.clone()),
        cfg,
    );
    sender.send(b"data").unwrap();
    let mut frame = a.borrow_mut().pop_front().unwrap();
    frame[9] ^= 0xff;
    let inbox = wire();
    inbox.borrow_mut().push_back(frame);
    inbox.borrow_mut().push_back(frame_with(0, b"no-crc"));
    let mut receiver = RedundancyLayer::with_config(
        WireTransport::new(spare.clone(), inbox.clone()),
        WireTransport::new(spare.clone(), wire()),
        cfg,
    );
    let mut out = [0u8; 32];
    assert_eq!(receiver.receive(&mut out).unwrap(), 0);
    assert_eq!(receiver.receive(&mut out).unwrap(), 0);
    assert_eq!(out, [0u8; 32]);
}

#[test]
fn redundancy_send_limits_and_failures() {
    let (a, b) = (wire(), wire());
    let mut layer = RedundancyLayer::new(WireTransport::new(a.clone(), wire()), WireTransport::new(b.clone(), wire()));
    let big = [0u8; 513];
    assert_eq!(layer.send(&big), Err(TransportError::BufferTooSmall));
    assert!(a.borrow().is_empty());
    assert_eq!(layer.send(&big[..512]), Ok(()));

    let mut a_fail = WireTransport::new(wire(), wire());
    a_fail.fail_send = true;
    let mut b_fail = WireTransport::new(wire(), wire());
    b_fail.fail_send = true;
    let mut failing = RedundancyLayer::new(a_fail, b_fail);
    assert_eq!(failing.send(b"x"), Err(TransportError::SendFailed));

    let mut one_fails = WireTransport::new(wire(), wire());
    one_fails.fail_send = true;
    let other = wire();
    let mut half = RedundancyLayer::new(one_fails, WireTransport::new(other.clone(), wire()));
    assert_eq!(half.send(b"x"), Ok(()));
    assert_eq!(other.borrow().len(), 1);
}

#[test]
fn redundancy_receive_failures() {
    let mut a = WireTransport::new(wire(), wire());
    a.fail_receive = true;
    let mut b = WireTransport::new(wire(), wire());
    b.fail_receive = true;
    let mut layer = RedundancyLayer::new(a, b);
    let mut out = [0u8; 16];
    assert_eq!(layer.receive(&mut out), Err(TransportError::ReceiveFailed));

    let mut a = WireTransport::new(wire(), wire());
    a.fail_receive = true;
    let inbox = wire();
    inbox.borrow_mut().push_back(frame_with(5, b"ok"));
    let mut layer = RedundancyLayer::new(a, WireTransport::new(wire(), inbox));
    assert_eq!(layer.receive(&mut out), Ok(2));
    assert_eq!(&out[..2], b"ok");

    let inbox = wire();
    inbox.borrow_mut().push_back(frame_with(0, b"too long for the buffer"));
    let mut layer = RedundancyLayer::new(WireTransport::new(wire(), inbox), WireTransport::new(wire(), wire()));
    let mut tiny = [0u8; 4];
    assert_eq!(layer.receive(&mut tiny), Err(TransportError::BufferTooSmall));
}

#[test]
fn redundancy_discards_older_sequence_numbers() {
    let inbox = wire();
    inbox.borrow_mut().push_back(frame_with(10, b"ten"));
    inbox.borrow_mut().push_back(frame_with(9, b"nine"));
    inbox.borrow_mut().push_back(frame_with(12, b"twelve"));
    let mut layer = RedundancyLayer::new(WireTransport::new(wire(), inbox), WireTransport::new(wire(), wire()));
    let mut out = [0u8; 16];
    assert_eq!(layer.receive(&mut out), Ok(3));
    assert_eq!(layer.receive(&mut out), Ok(0));
    assert_eq!(layer.receive(&mut out), Ok(6));
    assert_eq!(&out[..6], b"twelve");
}

#[test]
fn time_supervision_wraps_around() {
    let s = TimeSupervisor::new(100);
    assert_eq!(s.future_tolerance_ms, TimeSupervisor::DEFAULT_FUTURE_TOLERANCE_MS);
    assert!(s.validate(50, u32::MAX - 20).is_ok());
    assert_eq!(s.validate(500, u32::MAX - 20), Err(TimeSupervisionError::TimestampTooOld));
    assert!(s.validate(u32::MAX - 20, 50).is_ok());
    assert_eq!(s.validate(u32::MAX - 200, 50), Err(TimeSupervisionError::TimestampTooFarInFuture));
    assert!(s.validate(1000, 900).is_ok());
    assert_eq!(s.validate(1000, 899), Err(TimeSupervisionError::TimestampTooOld));
    assert!(s.validate(1000, 1100).is_ok());
    assert_eq!(s.validate(1000, 1101), Err(TimeSupervisionError::TimestampTooFarInFuture));
}

#[test]
fn sequence_numbers_wrap_and_duplicates() {
    let mut sh = SequenceHandler::with_initial_tx(u32::MAX);
    assert_eq!(sh.next_tx(), u32::MAX);
    assert_eq!(sh.next_tx(), 0);
    sh.accept_initial_rx(u32::MAX - 1);
    assert_eq!(sh.validate_rx(u32::MAX), SequenceResult::InOrder);
    assert_eq!(sh.validate_rx(0), SequenceResult::InOrder);
    assert_eq!(sh.validate_rx(0), SequenceResult::Duplicate);
    assert_eq!(sh.validate_rx(5), SequenceResult::Gap(1));
    assert_eq!(sh.confirmed_rx(), 0);
}

#[test]
fn heartbeat_due_after_interval() {
    let mut h = Heartbeat::new(500);
    assert!(!h.is_due(499));
    assert!(h.is_due(500));
    h.mark_sent(u32::MAX - 100);
    assert!(!h.is_due(10));
    assert!(h.is_due(400));
}

#[test]
fn retransmission_buffer_capacity_and_partial_clear() {
    let mut rb = RetransmissionBuffer::new();
    for seq in 0..16u32 {
        assert!(rb.store(data_packet(seq, b"")));
    }
    assert!(!rb.store(data_packet(16, b"")));
    assert_eq!(rb.count(), 16);
    rb.clear_up_to(9);
    assert_eq!(rb.count(), 6);
    assert_eq!(rb.entry(0).unwrap().sequence_number, 10);
    assert!(rb.get_packet(3).is_none());
    assert_eq!(rb.get_packet(15).unwrap().sequence_number, 15);
    assert!(rb.entry(6).is_none());
    let taken = rb.take_all();
    assert_eq!(rb.count(), 0);
    assert_eq!(taken.count(), 6);
}

fn connection_pair() -> (
    RastaConnection<WireTransport, WireTransport, FlagTimer, FixedClock>,
    RastaConnection<WireTransport, WireTransport, FlagTimer, FixedClock>,
    Rc<RefCell<u32>>,
) {
    let (ab1, ab2, ba1, ba2) = (wire(), wire(), wire(), wire());
    let time = Rc::new(RefCell::new(0u32));
    let a = RastaConnection::new(
        WireTransport::new(ab1.clone(), ba1.clone()),
        WireTransport::new(ab2.clone(), ba2.clone()),
        FlagTimer { running: false, expired: false },
        FixedClock { time: time.clone() },
        config(1, 2),
    );
    let b = RastaConnection::new(
        WireTransport::new(ba1, ab1),
        WireTransport::new(ba2, ab2),
        FlagTimer { running: false, expired: false },
        FixedClock { time: time.clone() },
        config(2, 1),
    );
    (a, b, time)
}

#[test]
fn handshake_data_and_disconnect_between_two_connections() {
    let (mut a, mut b, time) = connection_pair();
    a.connect().unwrap();
    assert_eq!(a.state_machine.current_state, RastaState::Start);
    b.process().unwrap();
    assert_eq!(b.state_machine.current_state, RastaState::Start);
    a.process().unwrap();
    assert_eq!(a.state_machine.current_state, RastaState::Up);
    b.process().unwrap();
    assert_eq!(b.state_machine.current_state, RastaState::Up);

    *time.borrow_mut() = 100;
    a.send_packet(PacketType::Data, b"one").unwrap();
    a.send_packet(PacketType::Data, b"two").unwrap();
    b.process().unwrap();
    b.process().unwrap();
    b.process().unwrap();
    assert!(b.has_received_data());
    let mut out = [0u8; 8];
    assert_eq!(b.receive_data(&mut out), Ok(3));
    assert_eq!(&out[..3], b"one");
    assert_eq!(b.receive_data(&mut out), Ok(3));
    assert_eq!(&out[..3], b"two");
    assert_eq!(b.receive_data(&mut out), Ok(0));
    assert!(!b.has_received_data());

    a.disconnect().unwrap();
    assert_eq!(a.state_machine.current_state, RastaState::Down);
    b.process().unwrap();
    b.process().unwrap();
    assert_eq!(b.state_machine.current_state, RastaState::Down);
    assert_eq!(a.disconnect(), Err(ConnectionError::StateTransitionInvalid));
}

#[test]
fn lost_packet_triggers_retransmission() {
    let (mut a, mut b, time) = connection_pair();
    a.connect().unwrap();
    b.process().unwrap();
    a.process().unwrap();
    b.process().unwrap();
    *time.borrow_mut() = 10;
    a.send_packet(PacketType::Data, b"lost").unwrap();
    // drop both copies of the data frame on their way to B
    b.redundancy = RedundancyLayer::new(
        WireTransport::new(wire(), wire()),
        WireTransport::new(wire(), wire()),
    );
    let (ab1, ba1) = (wire(), wire());
    let (ab2, ba2) = (wire(), wire());
    a.redundancy = RedundancyLayer::new(WireTransport::new(ab1.clone(), ba1.clone()), WireTransport::new(ab2.clone(), ba2.clone()));
    b.redundancy = RedundancyLayer::new(WireTransport::new(ba1, ab1.clone()), WireTransport::new(ba2, ab2.clone()));
    a.send_packet(PacketType::Data, b"next").unwrap();
    b.process().unwrap();
    assert_eq!(b.state_machine.current_state, RastaState::Retransmission);
    assert!(!b.has_received_data());
    a.process().unwrap();
    b.process().unwrap();
    assert_eq!(b.state_machine.current_state, RastaState::Up);
    for _ in 0..6 {
        b.process().unwrap();
    }
    let mut out = [0u8; 8];
    assert_eq!(b.receive_data(&mut out), Ok(4));
    assert_eq!(&out[..4], b"lost");
    assert_eq!(b.receive_data(&mut out), Ok(4));
    assert_eq!(&out[..4], b"next");
}

#[test]
fn duplicate_data_packet_is_delivered_once() {
    let (mut a, mut b, _time) = connection_pair();
    a.connect().unwrap();
    b.process().unwrap();
    a.process().unwrap();
    b.process().unwrap();
    b.transition(RastaState::Retransmission).unwrap();
    b.transition(RastaState::Up).unwrap();
    let expected = b.sequence.expected_rx_seq;
    let mut p = data_packet(expected, b"once");
    p.receiver_id = 2;
    p.sender_id = 1;
    b.handle_packet(&p, 0).unwrap();
    b.handle_packet(&p, 0).unwrap();
    let mut out = [0u8; 8];
    assert_eq!(b.receive_data(&mut out), Ok(4));
    assert_eq!(b.receive_data(&mut out), Ok(0));
}

#[test]
fn packets_for_others_and_stale_timestamps_are_ignored() {
    let (mut a, mut b, time) = connection_pair();
    a.connect().unwrap();
    b.process().unwrap();
    a.process().unwrap();
    b.process().unwrap();
    let expected = b.sequence.expected_rx_seq;
    let mut stranger = data_packet(expected, b"x");
    stranger.receiver_id = 2;
    stranger.sender_id = 99;
    b.handle_packet(&stranger, 0).unwrap();
    assert!(!b.has_received_data());
    let mut stale = data_packet(expected, b"x");
    stale.receiver_id = 2;
    stale.sender_id = 1;
    stale.confirmed_timestamp = 0;
    *time.borrow_mut() = 5000;
    b.handle_packet(&stale, 5000).unwrap();
    assert!(!b.has_received_data());
    assert_eq!(b.sequence.expected_rx_seq, expected);
}

#[test]
fn handshake_timeout_returns_to_down() {
    let (ab, ba) = (wire(), wire());
    let time = Rc::new(RefCell::new(0u32));
    let mut a = RastaConnection::new(
        WireTransport::new(ab.clone(), ba.clone()),
        WireTransport::new(wire(), wire()),
        FlagTimer { running: false, expired: true },
        FixedClock { time },
        config(1, 2),
    );
    a.connect().unwrap();
    assert_eq!(a.process(), Err(ConnectionError::Timeout));
    assert_eq!(a.state_machine.current_state, RastaState::Down);
}

#[test]
fn send_limits_of_a_connection() {
    let (mut a, _b, _time) = connection_pair();
    let big = [0u8; 257];
    assert_eq!(
        a.send_packet(PacketType::Data, &big),
        Err(ConnectionError::Packet(PduError::PayloadTooLarge))
    );
    let mut cfg = config(1, 2);
    cfg.n_send_max = 2;
    let mut small = RastaConnection::new(
        WireTransport::new(wire(), wire()),
        WireTransport::new(wire(), wire()),
        FlagTimer { running: false, expired: false },
        FixedClock { time: Rc::new(RefCell::new(0)) },
        cfg,
    );
    assert_eq!(small.send_packet(PacketType::Data, b"1"), Ok(()));
    assert_eq!(small.send_packet(PacketType::Data, b"2"), Ok(()));
    assert_eq!(small.send_packet(PacketType::Data, b"3"), Err(ConnectionError::SendBufferFull));
    assert_eq!(small.send_packet(PacketType::Heartbeat, b""), Ok(()));
    assert_eq!(small.sequence.next_tx_seq, 3);
}

#[test]
fn receive_data_keeps_payload_larger_than_output() {
    let (mut a, mut b, _time) = connection_pair();
    a.connect().unwrap();
    b.process().unwrap();
    a.process().unwrap();
    b.process().unwrap();
    a.send_packet(PacketType::Data, b"0123456789").unwrap();
    b.process().unwrap();
    let mut tiny = [0u8; 4];
    assert_eq!(b.receive_data(&mut tiny), Err(ConnectionError::BufferTooSmall));
    assert!(b.has_received_data());
    let mut out = [0u8; 16];
    assert_eq!(b.receive_data(&mut out), Ok(10));
}

#[test]
fn service_status_and_api() {
    let (ab, ba) = (wire(), wire());
    let mut api = RastaService::new(
        WireTransport::new(ab.clone(), ba.clone()),
        WireTransport::new(wire(), wire()),
        FlagTimer { running: false, expired: false },
        FixedClock { time: Rc::new(RefCell::new(0)) },
        config(1, 2),
    );
    assert_eq!(api.status(), ConnectionStatus::Down);
    assert_eq!(api.send_data(b"x"), Err(ConnectionError::StateTransitionInvalid));
    assert_eq!(api.close_connection(), Err(ConnectionError::StateTransitionInvalid));
    api.open_connection().unwrap();
    assert_eq!(api.status(), ConnectionStatus::Opening);
    assert_eq!(api.open_connection(), Err(ConnectionError::StateTransitionInvalid));
    assert_eq!(api.send_data(b"x"), Err(ConnectionError::StateTransitionInvalid));
    assert!(!api.has_received_data());
    assert_eq!(api.poll(), Ok(()));
    let mut out = [0u8; 4];
    assert_eq!(api.receive_data(&mut out), Ok(0));
    api.close_connection().unwrap();
    assert_eq!(api.status(), ConnectionStatus::Down);
    assert_eq!(ConnectionStatus::from(RastaState::Closed), ConnectionStatus::Closing);
    assert_eq!(ConnectionStatus::from(RastaState::Retransmission), ConnectionStatus::Retransmission);
    assert_eq!(ConnectionStatus::from(RastaState::Up), ConnectionStatus::Up);
}

struct LoopbackDriver {
    frames: VecDeque<Vec<u8>>,
}
impl EmbeddedEthernetDriver for LoopbackDriver {
    fn send_frame(&mut self, data: &[u8]) -> Result<(), TransportError> {
        self.frames.push_back(data.to_vec());
        Ok(())
    }
    fn receive_frame(&mut self, buffer: &mut [u8]) -> Result<usize, TransportError> {
        match self.frames.pop_front() {
            Some(f) => {
                buffer[..f.len()].copy_from_slice(&f);
                Ok(f.len())
            }
            None => Ok(0),
        }
    }
}

#[test]
fn embedded_ethernet_adapter_passes_frames_through() {
    let mut adapter = EmbeddedEthernetAdapter::new(LoopbackDriver { frames: VecDeque::new() });
    adapter.send(b"frame").unwrap();
    assert_eq!(adapter.driver().frames.len(), 1);
    let mut buf = [0u8; 8];
    assert_eq!(adapter.receive(&mut buf), Ok(5));
    assert_eq!(&buf[..5], b"frame");
    adapter.driver_mut().frames.push_back(vec![1, 2]);
    assert_eq!(adapter.receive(&mut buf), Ok(2));
    assert_eq!(adapter.receive(&mut buf), Ok(0));
}

#[test]
fn std_timer_and_clock() {
    let mut t = StdTimer::new();
    assert!(!t.expired());
    t.start(0);
    assert!(t.expired());
    t.stop();
    assert!(!t.expired());
    t.start(60_000);
    assert!(!t.expired());
    let d = StdTimer::default();
    assert!(!d.expired());
    let c = StdClock;
    let first = c.now_ms();
    let second = c.now_ms();
    assert!(second.wrapping_sub(first) < 60_000);
}

#[test]
fn parsed_packet_serializes_to_the_same_bytes() {
    let safety = SafetyCodeConfig { mode: SafetyCodeMode::FullMd4, initial_value: [5, 6, 7, 8] };
    let mut p = data_packet(4242, b"canonical");
    p.packet_type = PacketType::Heartbeat;
    p.payload[200] = 0x55; // bytes past payload_len are not part of the packet
    let mut first = [0u8; 512];
    let n = p.serialize(&mut first, &safety).unwrap();
    let q = Packet::parse(&first[..n], &safety).unwrap();
    let mut second = [0u8; 512];
    let m = q.serialize(&mut second, &safety).unwrap();
    assert_eq!(n, m);
    assert_eq!(&first[..n], &second[..m]);
}

#[test]
fn received_frame_resent_gives_the_same_bytes() {
    let original = frame_with(0, b"abc");
    let inbox = wire();
    inbox.borrow_mut().push_back(original.clone());
    let mut receiver = RedundancyLayer::new(WireTransport::new(wire(), inbox), WireTransport::new(wire(), wire()));
    let mut out = [0u8; 8];
    let n = receiver.receive(&mut out).unwrap();
    let sent = wire();
    let mut sender = RedundancyLayer::new(WireTransport::new(sent.clone(), wire()), WireTransport::new(wire(), wire()));
    sender.send(&out[..n]).unwrap();
    assert_eq!(sent.borrow()[0], original);
}

#[test]
fn no_heartbeat_right_after_sending() {
    let mut h = Heartbeat::new(500);
    h.mark_sent(1234);
    assert!(!h.is_due(1234));
}

#[test]
fn empty_packet_is_all_zero() {
    let p = empty_packet();
    assert_eq!(p.receiver_id, 0);
    assert_eq!(p.sender_id, 0);
    assert_eq!(p.sequence_number, 0);
    assert_eq!(p.confirmed_sequence_number, 0);
    assert_eq!(p.timestamp, 0);
    assert_eq!(p.confirmed_timestamp, 0);
    assert_eq!(p.packet_type, PacketType::Data);
    assert!(p.payload.iter().all(|b| *b == 0));
    assert_eq!(p.payload_len, 0);
}

/// A channel whose every receive reports `error`.
struct ErrorTransport {
    error: TransportError,
}

impl Transport for ErrorTransport {
    fn send(&mut self, _data: &[u8]) -> Result<(), TransportError> {
        Err(self.error)
    }
    fn receive(&mut self, _buffer: &mut [u8]) -> Result<usize, TransportError> {
        Err(self.error)
    }
}

#[test]
fn send_outcome_fails_only_when_both_channels_refuse() {
    let refused: Result<(), TransportError> = Err(TransportError::NotConnected);
    assert_eq!(send_outcome(Ok(()), Ok(())), Ok(()));
    assert_eq!(send_outcome(refused, Ok(())), Ok(()));
    assert_eq!(send_outcome(Ok(()), refused), Ok(()));
    assert_eq!(send_outcome(refused, refused), Err(TransportError::SendFailed));
}

#[test]
fn redundant_send_reaches_channel_b_when_a_fails() {
    let b_out = wire();
    let mut layer = RedundancyLayer::new(
        ErrorTransport { error: TransportError::NotConnected },
        WireTransport::new(b_out.clone(), wire()),
    );
    assert_eq!(layer.send(b"ab"), Ok(()));
    assert_eq!(b_out.borrow().front().unwrap().as_slice(), &[10u8, 0, 0, 0, 0, 0, 0, 0, 0x61, 0x62][..]);
}

#[test]
fn redundancy_receive_nothing_on_either_channel() {
    let mut layer = RedundancyLayer::new(WireTransport::new(wire(), wire()), WireTransport::new(wire(), wire()));
    let mut out = [7u8; 8];
    assert_eq!(layer.receive(&mut out), Ok(0));
    assert_eq!(out, [7u8; 8]);
}

#[test]
fn redundancy_receive_passes_other_channel_errors_at_once() {
    let b_in = wire();
    b_in.borrow_mut().push_back(frame_with(0, b"late"));
    let mut layer = RedundancyLayer::new(
        ErrorTransport { error: TransportError::NotConnected },
        WireTransport::new(wire(), b_in.clone()),
    );
    let mut out = [0u8; 8];
    assert_eq!(layer.receive(&mut out), Err(TransportError::NotConnected));
    assert_eq!(b_in.borrow().len(), 1);
    assert_eq!(out, [0u8; 8]);
}

#[test]
fn redundancy_receive_goes_on_after_a_bad_frame() {
    let a_in = wire();
    let mut bad = frame_with(0, b"bad");
    bad[0] = 99;
    a_in.borrow_mut().push_back(bad);
    let b_in = wire();
    b_in.borrow_mut().push_back(frame_with(0, b"good"));
    let mut layer = RedundancyLayer::new(WireTransport::new(wire(), a_in), WireTransport::new(wire(), b_in));
    let mut out = [0u8; 8];
    assert_eq!(layer.receive(&mut out), Ok(4));
    assert_eq!(&out[..4], b"good");
}

#[test]
fn redundancy_receive_leaves_channel_b_unread_after_a_delivers() {
    let a_in = wire();
    a_in.borrow_mut().push_back(frame_with(0, b"first"));
    let b_in = wire();
    b_in.borrow_mut().push_back(frame_with(0, b"first"));
    let mut layer = RedundancyLayer::new(WireTransport::new(wire(), a_in), WireTransport::new(wire(), b_in.clone()));
    let mut out = [0u8; 8];
    assert_eq!(layer.receive(&mut out), Ok(5));
    assert_eq!(b_in.borrow().len(), 1);
    assert_eq!(layer.receive(&mut out), Ok(0));
    assert!(b_in.borrow().is_empty());
}

#[test]
fn deadline_passes_when_elapsed_reaches_duration() {
    assert!(!deadline_passed(99, 100));
    assert!(deadline_passed(100, 100));
    assert!(deadline_passed(101, 100));
    assert!(deadline_passed(0, 0));
}

#[test]
fn crc16_with_its_crc_appended_leaves_zero() {
    for data in [&b""[..], &b"123456789"[..], &b"RaSTA frame"[..]] {
        let c = crc16(data);
        let mut all = data.to_vec();
        all.extend_from_slice(&c.to_be_bytes());
        assert_eq!(crc16(&all), 0);
    }
}

#[test]
fn crc32_with_its_crc_appended_gives_the_residue() {
    for data in [&b""[..], &b"123456789"[..], &b"RaSTA frame"[..]] {
        let c = crc32(data);
        let mut all = data.to_vec();
        all.extend_from_slice(&c.to_le_bytes());
        assert_eq!(crc32(&all), 0x2144_DF1C);
    }
}

#[test]
fn every_single_bit_flip_breaks_the_check_code() {
    for code in [RedundancyCheckCode::Crc16, RedundancyCheckCode::Crc32] {
        let sent = wire();
        let cfg = RedundancyConfig { check_code: code };
        let mut tx = RedundancyLayer::with_config(WireTransport::new(sent.clone(), wire()), WireTransport::new(wire(), wire()), cfg);
        assert_eq!(tx.send(b"abc"), Ok(()));
        let frame = sent.borrow().front().unwrap().clone();
        for byte in 0..frame.len() {
            for bit in 0..8 {
                let mut bad = frame.clone();
                bad[byte] ^= 1 << bit;
                let inbox = wire();
                inbox.borrow_mut().push_back(bad);
                let mut rx = RedundancyLayer::with_config(WireTransport::new(wire(), inbox), WireTransport::new(wire(), wire()), cfg);
                let mut out = [0u8; 16];
                assert_eq!(rx.receive(&mut out), Ok(0));
            }
        }
    }
}

#[test]
fn sent_frames_are_numbered_in_order() {
    let sent = wire();
    let mut tx = RedundancyLayer::new(WireTransport::new(sent.clone(), wire()), WireTransport::new(wire(), wire()));
    for _ in 0..5 {
        assert_eq!(tx.send(b"x"), Ok(()));
    }
    let frames = sent.borrow();
    for (i, f) in frames.iter().enumerate() {
        assert_eq!(&f[4..8], &(i as u32).to_le_bytes());
    }
}

#[test]
fn frames_outside_the_window_are_dropped() {
    let inbox = wire();
    inbox.borrow_mut().push_back(frame_with(0x7fff_ffff, b"edge"));
    inbox.borrow_mut().push_back(frame_with(0, b"back"));
    let mut layer = RedundancyLayer::new(WireTransport::new(wire(), inbox), WireTransport::new(wire(), wire()));
    let mut out = [0u8; 8];
    assert_eq!(layer.receive(&mut out), Ok(4));
    assert_eq!(&out[..4], b"edge");
    assert_eq!(layer.receive(&mut out), Ok(0));
}

#[test]
fn mock_transport_accepts_everything_and_delivers_nothing() {
    let mut m = MockTransport::new();
    assert_eq!(m.send(b"frame"), Ok(()));
    let mut buf = [3u8; 4];
    assert_eq!(m.receive(&mut buf), Ok(0));
    assert_eq!(buf, [3u8; 4]);
}
