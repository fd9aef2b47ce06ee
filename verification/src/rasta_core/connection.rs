//! One RaSTA connection: the Safety and Retransmission Layer on top of the
//! redundancy layer, driven by a clock and a timer of the platform.
use crate::platform::clock::Clock;
use crate::platform::timer::Timer;
use crate::platform::transport::{Transport, TransportError};
use crate::rasta_core::byte_order::{copy_into, le16_value};
use crate::rasta_core::connection_state_machine::{transition_allowed, RastaState, StateMachine};
use crate::rasta_core::heartbeat::{elapsed_ms, Heartbeat};
use crate::rasta_core::pdu::{
    decodes_to, encode_packet, field32, lemma_packet_roundtrip, packet_error, packet_payload, Packet,
    PacketType, PduError, MAX_PAYLOAD,
};
use crate::rasta_core::redundancy_management::{
    decode_frame, encode_frame, lemma_frame_roundtrip, lemma_sends_chain, lemma_sends_push, new_send_failed, receive_outcome,
    send_outcome_spec, sends_extend, ChannelSends, RedundancyConfig, RedundancyLayer,
};
use crate::rasta_core::retransmission::{unconfirmed, RetransmissionBuffer, RETRANSMISSION_CAPACITY};
use crate::rasta_core::safety_code::SafetyCodeConfig;
use crate::rasta_core::sequencing::{seq_next, sequence_verdict, SequenceHandler, SequenceResult};
use crate::rasta_core::time_supervision::{supervision_result, TimeSupervisor};
use vstd::prelude::*;

verus! {

/// How many received data packets wait for the application at most.
pub const RECEIVE_QUEUE_CAPACITY: usize = 8;

#[derive(Debug, Clone, Copy)]
pub struct RastaConfig {
    pub sender_id: u32,
    pub remote_id: u32,
    pub safety_code: SafetyCodeConfig,
    pub redundancy: RedundancyConfig,
    pub t_max: u32,
    pub initial_seq: u32,
    pub heartbeat_interval_ms: u32,
    pub n_send_max: u16,
}

#[derive(Debug, Clone, Copy, PartialEq, Eq, Structural)]
pub enum ConnectionError {
    StateTransitionInvalid,
    Transport(TransportError),
    Packet(PduError),
    SendBufferFull,
    ReceiveQueueFull,
    BufferTooSmall,
    Timeout,
}

/// Received data packets in arrival order, waiting for the application.
pub struct ReceiveQueue {
    packets: [Packet; 8],
    len: usize,
}

impl View for ReceiveQueue {
    type V = Seq<Packet>;

    closed spec fn view(&self) -> Seq<Packet> {
        self.packets@.take(self.len as int)
    }
}

impl ReceiveQueue {
    pub closed spec fn wf(&self) -> bool {
        self.len <= RECEIVE_QUEUE_CAPACITY
    }

    pub fn new() -> (q: Self)
        ensures
            q.wf(),
            q@ == Seq::<Packet>::empty(),
    {
        let q = ReceiveQueue { packets: [empty_packet(); 8], len: 0 };
        assert(q@ =~= Seq::<Packet>::empty());
        q
    }

    pub fn is_empty(&self) -> (e: bool)
        requires
            self.wf(),
        ensures
            e == (self@.len() == 0),
    {
        self.len == 0
    }

    pub fn is_full(&self) -> (f: bool)
        requires
            self.wf(),
        ensures
            f == (self@.len() >= RECEIVE_QUEUE_CAPACITY),
    {
        self.len >= RECEIVE_QUEUE_CAPACITY
    }

    /// Appends `p`; refuses it (`false`) when full.
    pub fn push(&mut self, p: Packet) -> (ok: bool)
        requires
            old(self).wf(),
        ensures
            final(self).wf(),
            ok == (old(self)@.len() < RECEIVE_QUEUE_CAPACITY),
            ok ==> final(self)@ == old(self)@.push(p),
            !ok ==> final(self)@ == old(self)@,
    {
        if self.len >= RECEIVE_QUEUE_CAPACITY {
            return false;
        }
        self.packets[self.len] = p;
        self.len = self.len + 1;
        assert(self@ =~= old(self)@.push(p));
        true
    }

    /// The oldest packet.
    pub fn front(&self) -> (p: Option<Packet>)
        requires
            self.wf(),
        ensures
            self@.len() == 0 ==> p is None,
            self@.len() > 0 ==> p == Some(self@[0]),
    {
        if self.len == 0 {
            None
        } else {
            Some(self.packets[0])
        }
    }

    /// Removes the oldest packet.
    pub fn pop_front(&mut self)
        requires
            old(self).wf(),
            old(self)@.len() > 0,
        ensures
            final(self).wf(),
            final(self)@ == old(self)@.drop_first(),
    {
        let n = self.len;
        let mut i: usize = 1;
        while i < n
            invariant
                1 <= i <= n,
                n == old(self).len,
                n <= RECEIVE_QUEUE_CAPACITY,
                self.len == n,
                forall|k: int| 0 <= k < i - 1 ==> self.packets@[k] == old(self).packets@[k + 1],
                forall|k: int| i - 1 <= k < RECEIVE_QUEUE_CAPACITY ==> self.packets@[k] == old(self).packets@[k],
            decreases n - i,
        {
            let p = self.packets[i];
            self.packets[i - 1] = p;
            i = i + 1;
        }
        self.len = n - 1;
        assert(self@ =~= old(self)@.drop_first());
    }
}

/// A packet with every field zero.
pub fn empty_packet() -> (p: Packet)
    ensures
        p.receiver_id == 0,
        p.sender_id == 0,
        p.sequence_number == 0,
        p.confirmed_sequence_number == 0,
        p.timestamp == 0,
        p.confirmed_timestamp == 0,
        p.packet_type == PacketType::Data,
        p.payload@ == Seq::new(256, |i: int| 0u8),
        p.payload_len == 0,
{
    Packet {
        receiver_id: 0,
        sender_id: 0,
        sequence_number: 0,
        confirmed_sequence_number: 0,
        timestamp: 0,
        confirmed_timestamp: 0,
        packet_type: PacketType::Data,
        payload: [0u8; 256],
        payload_len: 0,
    }
}

/// Packets that carry application data and are kept for retransmission.
pub open spec fn carries_data(t: PacketType) -> bool {
    t == PacketType::Data || t == PacketType::RetransmittedData
}

/// How many unconfirmed data packets may be outstanding.
pub open spec fn send_window(config: RastaConfig) -> nat {
    if config.n_send_max < RETRANSMISSION_CAPACITY {
        config.n_send_max as nat
    } else {
        RETRANSMISSION_CAPACITY as nat
    }
}


/// The payload of a connection request: protocol version "0303", the
/// send window, and eight reserved bytes.
pub open spec fn connection_request_payload(n_send_max: u16) -> Seq<u8> {
    seq![0x30u8, 0x33u8, 0x30u8, 0x33u8, (n_send_max % 256) as u8, (n_send_max / 256) as u8]
        + Seq::new(8, |i: int| 0u8)
}

/// A connection request carries 14 bytes: the protocol version "0303" in
/// ASCII, the send window read back little-endian as the configured value,
/// and eight zero bytes.
pub proof fn lemma_connection_request_payload(n_send_max: u16)
    ensures
        connection_request_payload(n_send_max).len() == 14,
        connection_request_payload(n_send_max).subrange(0, 4) == seq![0x30u8, 0x33u8, 0x30u8, 0x33u8],
        le16_value(connection_request_payload(n_send_max).subrange(4, 6)) == n_send_max,
        forall|i: int| 6 <= i < 14 ==> #[trigger] connection_request_payload(n_send_max)[i] == 0u8,
{
    let p = connection_request_payload(n_send_max);
    assert(p.subrange(0, 4) =~= seq![0x30u8, 0x33u8, 0x30u8, 0x33u8]);
    assert(p.subrange(4, 6)[0] == (n_send_max % 256) as u8 && p.subrange(4, 6)[1] == (n_send_max / 256) as u8);
}

/// The packet that the connection sends: addressed to the peer, numbered
/// `seq`, confirming `confirmed_seq` and `confirmed_ts`, carrying `data`.
pub open spec fn outgoing_packet(
    p: Packet,
    config: RastaConfig,
    packet_type: PacketType,
    seq: u32,
    confirmed_seq: u32,
    confirmed_ts: u32,
    data: Seq<u8>,
) -> bool {
    &&& p.receiver_id == config.remote_id
    &&& p.sender_id == config.sender_id
    &&& p.sequence_number == seq
    &&& p.confirmed_sequence_number == confirmed_seq
    &&& p.confirmed_timestamp == confirmed_ts
    &&& p.packet_type == packet_type
    &&& packet_payload(p) == data
    &&& p.payload_len <= MAX_PAYLOAD
}

/// Heartbeats and data packets: the packets that flow in sequence once the
/// connection is up.
pub open spec fn is_flow(t: PacketType) -> bool {
    t == PacketType::Heartbeat || carries_data(t)
}

/// The packet comes from the configured peer and is meant for this end.
pub open spec fn addressed_to_us(config: RastaConfig, p: Packet) -> bool {
    p.receiver_id == config.sender_id && p.sender_id == config.remote_id
}

/// The packet's confirmed timestamp passes time supervision at `now_ms`.
pub open spec fn is_timely(sup: TimeSupervisor, now_ms: u32, p: Packet) -> bool {
    supervision_result(sup.t_max_ms, sup.future_tolerance_ms, now_ms, p.confirmed_timestamp) is Ok
}

/// The state after receiving `p` in `state`, when `expected` is the next
/// expected sequence number and `timely` says whether `p` passed time
/// supervision.
pub open spec fn next_state(state: RastaState, p: Packet, expected: u32, timely: bool) -> RastaState {
    let t = p.packet_type;
    let v = sequence_verdict(expected, p.sequence_number);
    if t == PacketType::DisconnectionRequest {
        RastaState::Down
    } else if t == PacketType::ConnectionRequest {
        if state == RastaState::Down {
            RastaState::Start
        } else {
            state
        }
    } else if t == PacketType::ConnectionResponse {
        if state == RastaState::Start {
            RastaState::Up
        } else {
            state
        }
    } else if t == PacketType::RetransmissionResponse {
        if state == RastaState::Retransmission {
            RastaState::Up
        } else {
            state
        }
    } else if is_flow(t) {
        if state == RastaState::Start && v == SequenceResult::InOrder {
            RastaState::Up
        } else if state == RastaState::Up && timely && v is Gap {
            RastaState::Retransmission
        } else {
            state
        }
    } else {
        state
    }
}

/// Receiving `p` in `state` accepts it as the next packet in sequence.
pub open spec fn accepts_in_order(state: RastaState, p: Packet, expected: u32, timely: bool) -> bool {
    &&& is_flow(p.packet_type)
    &&& sequence_verdict(expected, p.sequence_number) == SequenceResult::InOrder
    &&& (state == RastaState::Start || ((state == RastaState::Up || state
        == RastaState::Retransmission) && timely))
}

/// Receiving `p` in `state` hands its payload to the application.
pub open spec fn delivers(state: RastaState, p: Packet, expected: u32, timely: bool) -> bool {
    carries_data(p.packet_type) && accepts_in_order(state, p, expected, timely)
}

/// Receiving a packet of type `t` in `state` (re)starts the receiving
/// sequence at the packet's sequence number.
pub open spec fn synchronizes(state: RastaState, t: PacketType) -> bool {
    ||| (state == RastaState::Down && t == PacketType::ConnectionRequest)
    ||| (state == RastaState::Start && t == PacketType::ConnectionResponse)
    ||| (state == RastaState::Retransmission && t == PacketType::RetransmissionResponse)
}

/// Receiving a packet of type `t` in `state` is answered by exactly one
/// packet: a connection response, or the first heartbeat.
pub open spec fn answers(state: RastaState, t: PacketType) -> bool {
    ||| (state == RastaState::Down && t == PacketType::ConnectionRequest)
    ||| (state == RastaState::Start && t == PacketType::ConnectionResponse)
}

/// `after` is `before` having reacted to the packet `p` from its peer at
/// local time `now_ms`: the state moved as `next_state` says and the
/// payload was queued when `delivers` says so.
pub open spec fn reacted_to<T1: Transport, T2: Transport, TimerCtx: Timer, C: Clock>(
    before: RastaConnection<T1, T2, TimerCtx, C>,
    after: RastaConnection<T1, T2, TimerCtx, C>,
    p: Packet,
    now_ms: u32,
) -> bool {
    let state = before.state_machine.current_state;
    let expected = before.sequence.expected_rx_seq;
    let timely = is_timely(before.time_supervisor, now_ms, p);
    &&& addressed_to_us(before.config, p)
    &&& after.state_machine.current_state == next_state(state, p, expected, timely)
    &&& delivers(state, p, expected, timely) ==> after.rx_queue@ == before.rx_queue@.push(p)
    &&& !delivers(state, p, expected, timely) ==> after.rx_queue@ == before.rx_queue@
}

/// `after` is `before` having read the channels once with outcome `read`,
/// with the clock reading `now_ms`: when the read holds no packet, state and
/// receive queue are as they were; a packet from elsewhere is ignored; a
/// packet from the peer is reacted to.
pub open spec fn round_outcome<T1: Transport, T2: Transport, TimerCtx: Timer, C: Clock>(
    before: RastaConnection<T1, T2, TimerCtx, C>,
    after: RastaConnection<T1, T2, TimerCtx, C>,
    read: Option<Seq<u8>>,
    now_ms: u32,
) -> bool {
    let unchanged = after.state_machine == before.state_machine && after.rx_queue@
        == before.rx_queue@;
    if read is Some && packet_error(before.config.safety_code, read.unwrap()) is None {
        exists|p: Packet|
            #[trigger] decodes_to(before.config.safety_code, read.unwrap(), p) && (addressed_to_us(
                before.config,
                p,
            ) ==> reacted_to(before, after, p, now_ms)) && (!addressed_to_us(before.config, p)
                ==> unchanged)
    } else {
        unchanged
    }
}

/// The read `read` holds a data packet from the peer while the receive
/// queue of `before` is full.
pub open spec fn queue_full_read<T1: Transport, T2: Transport, TimerCtx: Timer, C: Clock>(
    before: RastaConnection<T1, T2, TimerCtx, C>,
    read: Option<Seq<u8>>,
) -> bool {
    &&& read is Some
    &&& packet_error(before.config.safety_code, read.unwrap()) is None
    &&& before.rx_queue@.len() >= RECEIVE_QUEUE_CAPACITY
    &&& exists|p: Packet|
        #[trigger] decodes_to(before.config.safety_code, read.unwrap(), p) && addressed_to_us(
            before.config,
            p,
        ) && carries_data(p.packet_type)
}

/// The read `read` holds a valid packet from the peer.
pub open spec fn read_from_peer<T1: Transport, T2: Transport, TimerCtx: Timer, C: Clock>(
    before: RastaConnection<T1, T2, TimerCtx, C>,
    read: Option<Seq<u8>>,
) -> bool {
    &&& read is Some
    &&& packet_error(before.config.safety_code, read.unwrap()) is None
    &&& exists|p: Packet|
        #[trigger] decodes_to(before.config.safety_code, read.unwrap(), p) && addressed_to_us(
            before.config,
            p,
        )
}

/// A heartbeat is due for `h` at the clock reading `now_ms`: the interval
/// has passed since the last packet was sent.
pub open spec fn heartbeat_due(h: Heartbeat, now_ms: u32) -> bool {
    elapsed_ms(h.last_sent_ms, now_ms) >= h.interval_ms
}

/// Sending after a round leaves state and queue, so the round's outcome
/// stands.
proof fn lemma_round_outcome_kept<T1: Transport, T2: Transport, TimerCtx: Timer, C: Clock>(
    before: RastaConnection<T1, T2, TimerCtx, C>,
    mid: RastaConnection<T1, T2, TimerCtx, C>,
    after: RastaConnection<T1, T2, TimerCtx, C>,
    read: Option<Seq<u8>>,
    now_ms: u32,
)
    requires
        round_outcome(before, mid, read, now_ms),
        after.state_machine == mid.state_machine,
        after.rx_queue@ == mid.rx_queue@,
    ensures
        round_outcome(before, after, read, now_ms),
{
    if read is Some && packet_error(before.config.safety_code, read.unwrap()) is None {
        let p = choose|p: Packet|
            #[trigger] decodes_to(before.config.safety_code, read.unwrap(), p) && (addressed_to_us(
                before.config,
                p,
            ) ==> reacted_to(before, mid, p, now_ms)) && (!addressed_to_us(before.config, p) ==> (
            mid.state_machine == before.state_machine && mid.rx_queue@ == before.rx_queue@));
        assert(decodes_to(before.config.safety_code, read.unwrap(), p));
        if addressed_to_us(before.config, p) {
            assert(reacted_to(before, after, p, now_ms));
        }
    }
}

/// Every state change that receiving a packet causes is a transition the
/// state machine allows.
pub proof fn lemma_reaction_is_allowed_transition(
    state: RastaState,
    p: Packet,
    expected: u32,
    timely: bool,
)
    ensures
        next_state(state, p, expected, timely) == state || transition_allowed(
            state,
            next_state(state, p, expected, timely),
        ),
{
}

/// A data packet that was delivered is not delivered again when it arrives
/// a second time.
pub proof fn lemma_delivered_once(state: RastaState, p: Packet, expected: u32, timely: bool, later: RastaState)
    requires
        delivers(state, p, expected, timely),
    ensures
        !delivers(later, p, seq_next(p.sequence_number), timely),
{
    crate::rasta_core::sequencing::lemma_accepted_then_duplicate(p.sequence_number);
}

/// `after` is `before` having handed the redundancy layer one frame: the
/// encoding (under the safety code) of a packet of `packet_type` carrying
/// `data`, addressed to the peer, numbered with the next sending number and
/// confirming `confirmed_seq` and `confirmed_ts`.
pub open spec fn frame_sent<T1: Transport, T2: Transport, TimerCtx: Timer, C: Clock>(
    before: RastaConnection<T1, T2, TimerCtx, C>,
    after: RastaConnection<T1, T2, TimerCtx, C>,
    packet_type: PacketType,
    data: Seq<u8>,
    confirmed_seq: u32,
    confirmed_ts: u32,
) -> bool {
    exists|p: Packet|
        #[trigger] outgoing_packet(
            p,
            before.config,
            packet_type,
            before.sequence.next_tx_seq,
            confirmed_seq,
            confirmed_ts,
            data,
        ) && after.redundancy.frames_sent() == before.redundancy.frames_sent().push(
            encode_frame(
                before.redundancy.configuration().check_code,
                before.redundancy.next_tx_seq(),
                encode_packet(before.config.safety_code, p),
            ),
        ) && after.send_times() == before.send_times().push(p.timestamp)
}

/// `after` is `before` having sent one packet of `packet_type` carrying
/// `data`, confirming the last received number and timestamp; a data packet
/// is also kept for retransmission.
pub open spec fn sent_packet<T1: Transport, T2: Transport, TimerCtx: Timer, C: Clock>(
    before: RastaConnection<T1, T2, TimerCtx, C>,
    after: RastaConnection<T1, T2, TimerCtx, C>,
    packet_type: PacketType,
    data: Seq<u8>,
) -> bool {
    exists|p: Packet|
        #[trigger] outgoing_packet(
            p,
            before.config,
            packet_type,
            before.sequence.next_tx_seq,
            before.sequence.last_rx_seq,
            before.last_remote_timestamp,
            data,
        ) && after.redundancy.frames_sent() == before.redundancy.frames_sent().push(
            encode_frame(
                before.redundancy.configuration().check_code,
                before.redundancy.next_tx_seq(),
                encode_packet(before.config.safety_code, p),
            ),
        ) && after.send_times() == before.send_times().push(p.timestamp) && (carries_data(packet_type) ==> after.retransmission@
            == before.retransmission@.push(p)) && (!carries_data(packet_type)
            ==> after.retransmission@ == before.retransmission@)
}

/// Every packet that sending hands to the redundancy layer carries, as its
/// timestamp (bytes 20 to 24 of the packet in the frame), the clock reading
/// taken for that send; the peer echoes it back for time supervision.
pub proof fn lemma_sent_packet_carries_send_time<T1: Transport, T2: Transport, TimerCtx: Timer, C: Clock>(
    before: RastaConnection<T1, T2, TimerCtx, C>,
    after: RastaConnection<T1, T2, TimerCtx, C>,
    packet_type: PacketType,
    data: Seq<u8>,
)
    requires
        sent_packet(before, after, packet_type, data),
    ensures
        after.send_times().len() == before.send_times().len() + 1,
        decode_frame(before.redundancy.configuration().check_code, after.redundancy.frames_sent().last())
            matches Some((_, bytes)) && packet_error(before.config.safety_code, bytes) is None
            && field32(bytes, 20) == after.send_times().last(),
{
    let p = choose|p: Packet|
        #[trigger] outgoing_packet(
            p,
            before.config,
            packet_type,
            before.sequence.next_tx_seq,
            before.sequence.last_rx_seq,
            before.last_remote_timestamp,
            data,
        ) && after.redundancy.frames_sent() == before.redundancy.frames_sent().push(
            encode_frame(
                before.redundancy.configuration().check_code,
                before.redundancy.next_tx_seq(),
                encode_packet(before.config.safety_code, p),
            ),
        ) && after.send_times() == before.send_times().push(p.timestamp) && (carries_data(packet_type)
            ==> after.retransmission@ == before.retransmission@.push(p)) && (!carries_data(packet_type)
            ==> after.retransmission@ == before.retransmission@);
    let bytes = encode_packet(before.config.safety_code, p);
    let code = before.redundancy.configuration().check_code;
    lemma_packet_roundtrip(before.config.safety_code, p);
    assert(bytes.len() <= 300);
    lemma_frame_roundtrip(code, before.redundancy.next_tx_seq(), bytes);
}

/// A frame handed over as `frame_sent` says holds one valid packet: of the
/// given type, with the given payload, numbered with the sending number and
/// stamped with the clock reading taken for the send.
pub proof fn lemma_frame_sent_packet<T1: Transport, T2: Transport, TimerCtx: Timer, C: Clock>(
    before: RastaConnection<T1, T2, TimerCtx, C>,
    after: RastaConnection<T1, T2, TimerCtx, C>,
    packet_type: PacketType,
    data: Seq<u8>,
    confirmed_seq: u32,
    confirmed_ts: u32,
)
    requires
        frame_sent(before, after, packet_type, data, confirmed_seq, confirmed_ts),
    ensures
        after.redundancy.frames_sent().len() == before.redundancy.frames_sent().len() + 1,
        after.send_times().len() == before.send_times().len() + 1,
        decode_frame(before.redundancy.configuration().check_code, after.redundancy.frames_sent().last())
            matches Some((_, bytes)) && packet_error(before.config.safety_code, bytes) is None
            && forall|q: Packet|
            #[trigger] decodes_to(before.config.safety_code, bytes, q) ==> {
                &&& q.packet_type == packet_type
                &&& packet_payload(q) == data
                &&& q.sequence_number == before.sequence.next_tx_seq
                &&& q.timestamp == after.send_times().last()
            },
{
    let p = choose|p: Packet|
        #[trigger] outgoing_packet(
            p,
            before.config,
            packet_type,
            before.sequence.next_tx_seq,
            confirmed_seq,
            confirmed_ts,
            data,
        ) && after.redundancy.frames_sent() == before.redundancy.frames_sent().push(
            encode_frame(
                before.redundancy.configuration().check_code,
                before.redundancy.next_tx_seq(),
                encode_packet(before.config.safety_code, p),
            ),
        ) && after.send_times() == before.send_times().push(p.timestamp);
    let bytes = encode_packet(before.config.safety_code, p);
    let code = before.redundancy.configuration().check_code;
    lemma_packet_roundtrip(before.config.safety_code, p);
    assert(bytes.len() <= 300);
    lemma_frame_roundtrip(code, before.redundancy.next_tx_seq(), bytes);
}

/// A packet sent from an intermediate state `mid` that shares `before`'s
/// numbering and redundancy layer is a frame sent from `before`.
proof fn lemma_frame_sent_from<T1: Transport, T2: Transport, TimerCtx: Timer, C: Clock>(
    before: RastaConnection<T1, T2, TimerCtx, C>,
    mid: RastaConnection<T1, T2, TimerCtx, C>,
    after: RastaConnection<T1, T2, TimerCtx, C>,
    packet_type: PacketType,
    data: Seq<u8>,
)
    requires
        sent_packet(mid, after, packet_type, data),
        mid.config == before.config,
        mid.sequence.next_tx_seq == before.sequence.next_tx_seq,
        mid.redundancy.frames_sent() == before.redundancy.frames_sent(),
        mid.redundancy.configuration() == before.redundancy.configuration(),
        mid.redundancy.next_tx_seq() == before.redundancy.next_tx_seq(),
        mid.send_times() == before.send_times(),
    ensures
        frame_sent(
            before,
            after,
            packet_type,
            data,
            mid.sequence.last_rx_seq,
            mid.last_remote_timestamp,
        ),
{
    let p = choose|p: Packet|
        #[trigger] outgoing_packet(
            p,
            mid.config,
            packet_type,
            mid.sequence.next_tx_seq,
            mid.sequence.last_rx_seq,
            mid.last_remote_timestamp,
            data,
        ) && after.redundancy.frames_sent() == mid.redundancy.frames_sent().push(
            encode_frame(
                mid.redundancy.configuration().check_code,
                mid.redundancy.next_tx_seq(),
                encode_packet(mid.config.safety_code, p),
            ),
        ) && after.send_times() == mid.send_times().push(p.timestamp) && (carries_data(packet_type) ==> after.retransmission@ == mid.retransmission@.push(p))
            && (!carries_data(packet_type) ==> after.retransmission@ == mid.retransmission@);
    assert(outgoing_packet(
        p,
        before.config,
        packet_type,
        before.sequence.next_tx_seq,
        mid.sequence.last_rx_seq,
        mid.last_remote_timestamp,
        data,
    ));
}

/// `again` is `p` sent once more: a retransmitted-data packet with the same
/// payload.
pub open spec fn resent_as(p: Packet, again: Packet) -> bool {
    again.packet_type == PacketType::RetransmittedData && packet_payload(again) == packet_payload(p)
}

/// The packets `after` resend the packets `before`, one for one and in order.
pub open spec fn resends(before: Seq<Packet>, after: Seq<Packet>) -> bool {
    &&& after.len() == before.len()
    &&& forall|i: int| 0 <= i < before.len() ==> #[trigger] resent_as(before[i], after[i])
}

/// Receiving `p` in `state` is answered by a retransmission request: a gap
/// in the sequence of an established connection.
pub open spec fn requests_retransmission(state: RastaState, p: Packet, expected: u32, timely: bool) -> bool {
    &&& state == RastaState::Up
    &&& is_flow(p.packet_type)
    &&& timely
    &&& sequence_verdict(expected, p.sequence_number) is Gap
}

/// Receiving `p` in `state` sends nothing.
pub open spec fn is_silent(state: RastaState, p: Packet, expected: u32, timely: bool) -> bool {
    &&& !answers(state, p.packet_type)
    &&& !requests_retransmission(state, p, expected, timely)
    &&& !(p.packet_type == PacketType::RetransmissionRequest && (state == RastaState::Up || state
        == RastaState::Retransmission))
}

/// The records of receives and clock readings are as they were, and the
/// record of sends continues the earlier one.
pub open spec fn records_kept<T1: Transport, T2: Transport, TimerCtx: Timer, C: Clock>(
    before: RastaConnection<T1, T2, TimerCtx, C>,
    after: RastaConnection<T1, T2, TimerCtx, C>,
) -> bool {
    &&& after.redundancy.reads() == before.redundancy.reads()
    &&& after.redundancy.channel_reads() == before.redundancy.channel_reads()
    &&& after.clock_readings() == before.clock_readings()
    &&& after.timer_answers() == before.timer_answers()
    &&& sends_extend(before.redundancy.send_results(), after.redundancy.send_results())
}

/// What sending a packet answers when the two channels returned `sends`.
pub open spec fn send_answer(sends: ChannelSends) -> Result<(), ConnectionError> {
    match send_outcome_spec(sends.0, sends.1) {
        Ok(()) => Ok(()),
        Err(e) => Err(ConnectionError::Transport(e)),
    }
}

/// `r` is the failure of a send between `before` and `after`: a frame that
/// both channels refused.
pub open spec fn send_failure<T1: Transport, T2: Transport, TimerCtx: Timer, C: Clock>(
    before: RastaConnection<T1, T2, TimerCtx, C>,
    after: RastaConnection<T1, T2, TimerCtx, C>,
    r: Result<(), ConnectionError>,
) -> bool {
    &&& r == Err::<(), ConnectionError>(ConnectionError::Transport(TransportError::SendFailed))
    &&& new_send_failed(before.redundancy.send_results(), after.redundancy.send_results())
}

pub struct RastaConnection<T1: Transport, T2: Transport, TimerCtx: Timer, C: Clock> {
    pub state_machine: StateMachine,
    pub sequence: SequenceHandler,
    pub redundancy: RedundancyLayer<T1, T2>,
    pub retransmission: RetransmissionBuffer,
    pub rx_queue: ReceiveQueue,
    pub time_supervisor: TimeSupervisor,
    pub heartbeat: Heartbeat,
    pub last_remote_timestamp: u32,
    pub timer: TimerCtx,
    pub clock: C,
    pub config: RastaConfig,
    pub clock_log: Ghost<Seq<u32>>,
    pub timer_log: Ghost<Seq<bool>>,
    pub send_log: Ghost<Seq<u32>>,
}

impl<T1: Transport, T2: Transport, TimerCtx: Timer, C: Clock> RastaConnection<T1, T2, TimerCtx, C> {
    /// The clock reading of every protocol round so far, in order.
    pub open spec fn clock_readings(&self) -> Seq<u32> {
        self.clock_log@
    }

    /// What the handshake timer answered each time a protocol round asked
    /// whether it had expired, in order.
    pub open spec fn timer_answers(&self) -> Seq<bool> {
        self.timer_log@
    }

    /// The clock reading taken for each packet sent, in order.
    pub open spec fn send_times(&self) -> Seq<u32> {
        self.send_log@
    }

    /// The buffers are within their capacities, no more packets wait for
    /// confirmation than the send window allows, and every stored packet fits
    /// the payload limit.
    pub open spec fn wf(&self) -> bool {
        &&& self.retransmission.wf()
        &&& self.retransmission@.len() <= send_window(self.config)
        &&& self.rx_queue.wf()
        &&& forall|i: int|
            0 <= i < self.retransmission@.len() ==> #[trigger] self.retransmission@[i].payload_len
                <= MAX_PAYLOAD
        &&& forall|i: int|
            0 <= i < self.rx_queue@.len() ==> #[trigger] self.rx_queue@[i].payload_len
                <= MAX_PAYLOAD
    }

    pub fn new(transport_a: T1, transport_b: T2, timer: TimerCtx, clock: C, config: RastaConfig) -> (c: Self)
        ensures
            c.wf(),
            c.config == config,
            c.state_machine.current_state == RastaState::Down,
            c.sequence.next_tx_seq == config.initial_seq,
            c.sequence.expected_rx_seq == 0,
            c.retransmission@ == Seq::<Packet>::empty(),
            c.rx_queue@ == Seq::<Packet>::empty(),
            c.time_supervisor.t_max_ms == config.t_max,
            c.heartbeat.interval_ms == config.heartbeat_interval_ms,
            c.redundancy.configuration() == config.redundancy,
            c.clock_readings() == Seq::<u32>::empty(),
            c.timer_answers() == Seq::<bool>::empty(),
            c.send_times() == Seq::<u32>::empty(),
            c.timer == timer,
    {
        RastaConnection {
            state_machine: StateMachine::new(),
            sequence: SequenceHandler::with_initial_tx(config.initial_seq),
            redundancy: RedundancyLayer::with_config(transport_a, transport_b, config.redundancy),
            retransmission: RetransmissionBuffer::new(),
            rx_queue: ReceiveQueue::new(),
            time_supervisor: TimeSupervisor::new(config.t_max),
            heartbeat: Heartbeat::new(config.heartbeat_interval_ms),
            last_remote_timestamp: 0,
            timer,
            clock,
            config,
            clock_log: Ghost(Seq::empty()),
            timer_log: Ghost(Seq::empty()),
            send_log: Ghost(Seq::empty()),
        }
    }

    /// Moves the state machine to `next` when the transition is allowed.
    pub fn transition(&mut self, next: RastaState) -> (r: Result<(), ConnectionError>)
        ensures
            r is Ok == transition_allowed(old(self).state_machine.current_state, next),
            r is Ok ==> final(self).state_machine.current_state == next,
            r is Err ==> r == Err::<(), ConnectionError>(ConnectionError::StateTransitionInvalid)
                && final(self).state_machine == old(self).state_machine,
            final(self).sequence == old(self).sequence,
            final(self).retransmission == old(self).retransmission,
            final(self).rx_queue == old(self).rx_queue,
            final(self).config == old(self).config,
            final(self).time_supervisor == old(self).time_supervisor,
            final(self).last_remote_timestamp == old(self).last_remote_timestamp,
            final(self).redundancy == old(self).redundancy,
            final(self).clock_readings() == old(self).clock_readings(),
            final(self).timer_answers() == old(self).timer_answers(),
            final(self).timer == old(self).timer,
            final(self).send_times() == old(self).send_times(),
    {
        if self.state_machine.transition(next) {
            Ok(())
        } else {
            Err(ConnectionError::StateTransitionInvalid)
        }
    }

    /// Numbers, frames and sends one packet of `packet_type` carrying
    /// `data`. Data packets are kept for retransmission first; a full send
    /// window refuses them.
    #[verifier::rlimit(30)]
    pub fn send_packet(&mut self, packet_type: PacketType, data: &[u8]) -> (r: Result<
        (),
        ConnectionError,
    >)
        requires
            old(self).wf(),
        ensures
            r != Err::<(), ConnectionError>(ConnectionError::Timeout),
            records_kept(*old(self), *final(self)),
            final(self).timer == old(self).timer,
            final(self).wf(),
            final(self).state_machine == old(self).state_machine,
            final(self).rx_queue == old(self).rx_queue,
            final(self).config == old(self).config,
            final(self).last_remote_timestamp == old(self).last_remote_timestamp,
            final(self).time_supervisor == old(self).time_supervisor,
            final(self).sequence.expected_rx_seq == old(self).sequence.expected_rx_seq,
            final(self).sequence.last_rx_seq == old(self).sequence.last_rx_seq,
            data@.len() > MAX_PAYLOAD ==> r == Err::<(), ConnectionError>(
                ConnectionError::Packet(PduError::PayloadTooLarge),
            ),
            data@.len() <= MAX_PAYLOAD && carries_data(packet_type) && old(self).retransmission@.len()
                >= send_window(old(self).config) ==> r == Err::<(), ConnectionError>(
                ConnectionError::SendBufferFull,
            ),
            r == Err::<(), ConnectionError>(ConnectionError::Packet(PduError::PayloadTooLarge)) || r
                == Err::<(), ConnectionError>(ConnectionError::SendBufferFull) ==> {
                &&& final(self).sequence == old(self).sequence
                &&& final(self).retransmission@ == old(self).retransmission@
                &&& final(self).redundancy.frames_sent() == old(self).redundancy.frames_sent()
                &&& final(self).redundancy.send_results() == old(self).redundancy.send_results()
            },
            data@.len() <= MAX_PAYLOAD && !(carries_data(packet_type) && old(self).retransmission@.len() >= send_window(old(self).config)) ==> {
                &&& final(self).sequence.next_tx_seq == seq_next(old(self).sequence.next_tx_seq)
                &&& final(self).redundancy.send_results().len() == old(self).redundancy.send_results().len() + 1
                &&& final(self).redundancy.send_results().drop_last() == old(self).redundancy.send_results()
                &&& r == send_answer(final(self).redundancy.send_results().last())
                &&& sent_packet(*old(self), *final(self), packet_type, data@)
                &&& final(self).heartbeat.last_sent_ms == final(self).send_times().last()
                &&& final(self).heartbeat.interval_ms == old(self).heartbeat.interval_ms
            },
    {
        if data.len() > MAX_PAYLOAD {
            return Err(ConnectionError::Packet(PduError::PayloadTooLarge));
        }
        let is_data = match packet_type {
            PacketType::Data | PacketType::RetransmittedData => true,
            _ => false,
        };
        let window: usize = if (self.config.n_send_max as usize) < RETRANSMISSION_CAPACITY {
            self.config.n_send_max as usize
        } else {
            RETRANSMISSION_CAPACITY
        };
        if is_data && self.retransmission.count() >= window {
            return Err(ConnectionError::SendBufferFull);
        }
        let now = self.clock.now_ms();
        self.send_log = Ghost(self.send_log@.push(now));
        let mut payload = [0u8; 256];
        copy_into(&mut payload, 0, data);
        let packet = Packet {
            receiver_id: self.config.remote_id,
            sender_id: self.config.sender_id,
            sequence_number: self.sequence.next_tx(),
            confirmed_sequence_number: self.sequence.confirmed_rx(),
            timestamp: now,
            confirmed_timestamp: self.last_remote_timestamp,
            packet_type,
            payload,
            payload_len: data.len(),
        };
        assert(packet_payload(packet) =~= data@);
        assert(outgoing_packet(
            packet,
            old(self).config,
            packet_type,
            old(self).sequence.next_tx_seq,
            old(self).sequence.last_rx_seq,
            old(self).last_remote_timestamp,
            data@,
        ));
        if is_data {
            let stored = self.retransmission.store(packet);
            assert(stored);
        }
        let mut wire = [0u8; 512];
        let len = match packet.serialize(&mut wire, &self.config.safety_code) {
            Ok(n) => n,
            Err(e) => return Err(ConnectionError::Packet(e)),
        };
        self.heartbeat.mark_sent(now);
        let ghost encoded = encode_packet(self.config.safety_code, packet);
        proof {
            assert(wire@.len() == 512);
            assert(wire@ == encoded + Seq::new(512, |i: int| 0u8).skip(len as int));
            assert(encoded.len() == len);
            assert(wire@.subrange(0, len as int) =~= encoded);
        }
        let frame = vstd::slice::slice_subrange(wire.as_slice(), 0, len);
        assert(frame@ =~= encoded);
        let ghost before_send = *self;
        let res = self.redundancy.send(frame);
        proof {
            assert(outgoing_packet(
                packet,
                old(self).config,
                packet_type,
                old(self).sequence.next_tx_seq,
                old(self).sequence.last_rx_seq,
                old(self).last_remote_timestamp,
                data@,
            ));
            assert(before_send.redundancy == old(self).redundancy);
        }
        match res {
            Ok(()) => Ok(()),
            Err(e) => Err(ConnectionError::Transport(e)),
        }
    }

    /// Starts the handshake: from `Down`, moves to `Start`, starts the
    /// connection timer and sends a connection request.
    pub fn connect(&mut self) -> (r: Result<(), ConnectionError>)
        requires
            old(self).wf(),
        ensures
            final(self).wf(),
            final(self).config == old(self).config,
            old(self).state_machine.current_state != RastaState::Down ==> {
                &&& r == Err::<(), ConnectionError>(ConnectionError::StateTransitionInvalid)
                &&& final(self).state_machine == old(self).state_machine
                &&& final(self).sequence == old(self).sequence
            },
            old(self).state_machine.current_state == RastaState::Down ==> {
                &&& final(self).state_machine.current_state == RastaState::Start
                &&& final(self).timer.is_running()
                &&& final(self).timer.duration() == old(self).config.t_max
                &&& final(self).sequence.next_tx_seq == seq_next(old(self).sequence.next_tx_seq)
                &&& final(self).redundancy.send_results().len() == old(self).redundancy.send_results().len() + 1
                &&& final(self).redundancy.send_results().drop_last() == old(self).redundancy.send_results()
                &&& r == send_answer(final(self).redundancy.send_results().last())
                &&& frame_sent(
                    *old(self),
                    *final(self),
                    PacketType::ConnectionRequest,
                    connection_request_payload(old(self).config.n_send_max),
                    old(self).sequence.last_rx_seq,
                    old(self).last_remote_timestamp,
                )
            },
    {
        if self.state_machine.current_state != RastaState::Down {
            return Err(ConnectionError::StateTransitionInvalid);
        }
        let _ = self.transition(RastaState::Start);
        self.timer.start(self.config.t_max);
        let payload = Self::connection_payload(self.config.n_send_max);
        let ghost mid = *self;
        let res = self.send_packet(PacketType::ConnectionRequest, payload.as_slice());
        proof {
            lemma_frame_sent_from(*old(self), mid, *self, PacketType::ConnectionRequest, payload@);
        }
        res
    }

    /// The payload of connection requests and responses.
    fn connection_payload(n_send_max: u16) -> (p: [u8; 14])
        ensures
            p@ == connection_request_payload(n_send_max),
    {
        let mut p = [0u8; 14];
        p[0] = 0x30;
        p[1] = 0x33;
        p[2] = 0x30;
        p[3] = 0x33;
        p[4] = (n_send_max % 256) as u8;
        p[5] = (n_send_max / 256) as u8;
        assert(p@ =~= connection_request_payload(n_send_max));
        p
    }

    /// Closes the connection: sends a disconnection request and ends in
    /// `Down`. Fails when the connection is already down.
    pub fn disconnect(&mut self) -> (r: Result<(), ConnectionError>)
        requires
            old(self).wf(),
        ensures
            final(self).wf(),
            final(self).config == old(self).config,
            old(self).state_machine.current_state == RastaState::Down ==> {
                &&& r == Err::<(), ConnectionError>(ConnectionError::StateTransitionInvalid)
                &&& final(self).state_machine == old(self).state_machine
                &&& final(self).sequence == old(self).sequence
            },
            old(self).state_machine.current_state != RastaState::Down ==> {
                &&& final(self).state_machine.current_state == RastaState::Down
                &&& !final(self).timer.is_running()
                &&& final(self).redundancy.send_results().len() == old(self).redundancy.send_results().len() + 1
                &&& final(self).redundancy.send_results().drop_last() == old(self).redundancy.send_results()
                &&& r == send_answer(final(self).redundancy.send_results().last())
                &&& frame_sent(
                    *old(self),
                    *final(self),
                    PacketType::DisconnectionRequest,
                    Seq::new(4, |i: int| 0u8),
                    old(self).sequence.last_rx_seq,
                    old(self).last_remote_timestamp,
                )
            },
    {
        let state = self.state_machine.current_state;
        if state == RastaState::Down {
            return Err(ConnectionError::StateTransitionInvalid);
        }
        if state != RastaState::Closed {
            let _ = self.transition(RastaState::Closed);
        }
        let reason = [0u8; 4];
        assert(reason@ =~= Seq::new(4, |i: int| 0u8));
        let ghost mid = *self;
        let res = self.send_packet(PacketType::DisconnectionRequest, reason.as_slice());
        proof {
            lemma_frame_sent_from(*old(self), mid, *self, PacketType::DisconnectionRequest, reason@);
        }
        let _ = self.transition(RastaState::Down);
        self.timer.stop();
        res
    }

    /// Reacts to one received packet at local time `now_ms`: packets from
    /// elsewhere are ignored; the state moves as `next_state` says, an
    /// in-order data packet is queued for the application, and responses,
    /// retransmission requests and retransmissions are sent as needed.
    #[verifier::rlimit(30)]
    pub fn handle_packet(&mut self, packet: &Packet, now_ms: u32) -> (r: Result<(), ConnectionError>)
        requires
            old(self).wf(),
            packet.payload_len <= MAX_PAYLOAD,
        ensures
            r != Err::<(), ConnectionError>(ConnectionError::Timeout),
            records_kept(*old(self), *final(self)),
            ({
                let state = old(self).state_machine.current_state;
                let t = packet.packet_type;
                let starts = addressed_to_us(old(self).config, *packet) && state == RastaState::Down && t == PacketType::ConnectionRequest;
                let stops = addressed_to_us(old(self).config, *packet) && r != Err::<(), ConnectionError>(ConnectionError::ReceiveQueueFull) && (t == PacketType::DisconnectionRequest || (state == RastaState::Start && final(self).state_machine.current_state == RastaState::Up));
                &&& starts ==> final(self).timer.is_running() && final(self).timer.duration() == old(self).config.t_max
                &&& stops ==> !final(self).timer.is_running()
                &&& !starts && !stops ==> final(self).timer == old(self).timer
            }),
            r is Err ==> send_failure(*old(self), *final(self), r) || (r == Err::<(), ConnectionError>(
                ConnectionError::ReceiveQueueFull,
            ) && addressed_to_us(old(self).config, *packet) && carries_data(packet.packet_type)
                && old(self).rx_queue@.len() >= RECEIVE_QUEUE_CAPACITY),
            r is Ok ==> !new_send_failed(old(self).redundancy.send_results(), final(self).redundancy.send_results()),
            final(self).wf(),
            final(self).config == old(self).config,
            final(self).time_supervisor == old(self).time_supervisor,
            !addressed_to_us(old(self).config, *packet) ==> {
                &&& r is Ok
                &&& *final(self) == *old(self)
                &&& final(self).state_machine == old(self).state_machine
                &&& final(self).sequence == old(self).sequence
                &&& final(self).rx_queue@ == old(self).rx_queue@
                &&& final(self).retransmission@ == old(self).retransmission@
                &&& final(self).redundancy == old(self).redundancy
            },
            addressed_to_us(old(self).config, *packet) && carries_data(packet.packet_type) && old(self).rx_queue@.len() >= RECEIVE_QUEUE_CAPACITY ==> {
                &&& r == Err::<(), ConnectionError>(ConnectionError::ReceiveQueueFull)
                &&& final(self).state_machine == old(self).state_machine
                &&& final(self).sequence == old(self).sequence
                &&& final(self).rx_queue@ == old(self).rx_queue@
                &&& final(self).redundancy == old(self).redundancy
            },
            addressed_to_us(old(self).config, *packet) && !(carries_data(packet.packet_type) && old(self).rx_queue@.len() >= RECEIVE_QUEUE_CAPACITY) ==> {
                let timely = is_timely(old(self).time_supervisor, now_ms, *packet);
                let state = old(self).state_machine.current_state;
                let expected = old(self).sequence.expected_rx_seq;
                &&& final(self).state_machine.current_state == next_state(state, *packet, expected, timely)
                &&& delivers(state, *packet, expected, timely) ==> final(self).rx_queue@ == old(self).rx_queue@.push(*packet)
                &&& !delivers(state, *packet, expected, timely) ==> final(self).rx_queue@ == old(self).rx_queue@
                &&& accepts_in_order(state, *packet, expected, timely) ==> final(self).sequence.expected_rx_seq == seq_next(packet.sequence_number)
                &&& accepts_in_order(state, *packet, expected, timely) ==> {
                    &&& final(self).last_remote_timestamp == packet.timestamp
                    &&& final(self).retransmission@ == unconfirmed(
                        old(self).retransmission@,
                        packet.confirmed_sequence_number,
                    )
                }
                &&& synchronizes(state, packet.packet_type) ==> {
                    &&& final(self).sequence.expected_rx_seq == seq_next(packet.sequence_number)
                    &&& final(self).last_remote_timestamp == packet.timestamp
                }
                &&& answers(state, packet.packet_type) ==> final(self).sequence.next_tx_seq
                    == seq_next(old(self).sequence.next_tx_seq)
                &&& (state == RastaState::Down && packet.packet_type == PacketType::ConnectionRequest)
                    ==> frame_sent(
                    *old(self),
                    *final(self),
                    PacketType::ConnectionResponse,
                    connection_request_payload(old(self).config.n_send_max),
                    packet.sequence_number,
                    packet.timestamp,
                )
                &&& (state == RastaState::Start && packet.packet_type == PacketType::ConnectionResponse)
                    ==> frame_sent(
                    *old(self),
                    *final(self),
                    PacketType::Heartbeat,
                    Seq::empty(),
                    packet.sequence_number,
                    packet.timestamp,
                )
                &&& requests_retransmission(state, *packet, expected, timely) ==> frame_sent(
                    *old(self),
                    *final(self),
                    PacketType::RetransmissionRequest,
                    Seq::empty(),
                    old(self).sequence.last_rx_seq,
                    old(self).last_remote_timestamp,
                )
                &&& is_silent(state, *packet, expected, timely) ==> final(self).redundancy
                    == old(self).redundancy
                &&& (packet.packet_type == PacketType::RetransmissionRequest && (state
                    == RastaState::Up || state == RastaState::Retransmission) && r is Ok) ==> {
                    &&& resends(
                        unconfirmed(old(self).retransmission@, packet.confirmed_sequence_number),
                        final(self).retransmission@,
                    )
                    &&& final(self).redundancy.frames_sent().len() == old(
                        self).redundancy.frames_sent().len() + 1 + unconfirmed(
                        old(self).retransmission@,
                        packet.confirmed_sequence_number,
                    ).len()
                }
            },
    {
        if packet.receiver_id != self.config.sender_id || packet.sender_id != self.config.remote_id {
            return Ok(());
        }
        let is_data = match packet.packet_type {
            PacketType::Data | PacketType::RetransmittedData => true,
            _ => false,
        };
        if is_data && self.rx_queue.is_full() {
            return Err(ConnectionError::ReceiveQueueFull);
        }
        let state = self.state_machine.current_state;
        match packet.packet_type {
            PacketType::DisconnectionRequest => {
                if state != RastaState::Down {
                    let _ = self.transition(RastaState::Down);
                }
                self.timer.stop();
                Ok(())
            },
            PacketType::ConnectionRequest => {
                if state == RastaState::Down {
                    self.sequence.accept_initial_rx(packet.sequence_number);
                    self.last_remote_timestamp = packet.timestamp;
                    let _ = self.transition(RastaState::Start);
                    self.timer.start(self.config.t_max);
                    let payload = Self::connection_payload(self.config.n_send_max);
                    let ghost mid = *self;
                    let res = self.send_packet(PacketType::ConnectionResponse, payload.as_slice());
                    proof {
                        lemma_sends_push(mid.redundancy.send_results(), self.redundancy.send_results());
                        lemma_frame_sent_from(
                            *old(self),
                            mid,
                            *self,
                            PacketType::ConnectionResponse,
                            payload@,
                        );
                    }
                    res
                } else {
                    Ok(())
                }
            },
            PacketType::ConnectionResponse => {
                if state == RastaState::Start {
                    self.sequence.accept_initial_rx(packet.sequence_number);
                    self.last_remote_timestamp = packet.timestamp;
                    self.confirm(packet.confirmed_sequence_number);
                    let _ = self.transition(RastaState::Up);
                    self.timer.stop();
                    let empty: [u8; 0] = [];
                    assert(empty@ =~= Seq::<u8>::empty());
                    let ghost mid = *self;
                    let res = self.send_packet(PacketType::Heartbeat, empty.as_slice());
                    proof {
                        lemma_sends_push(mid.redundancy.send_results(), self.redundancy.send_results());
                        lemma_frame_sent_from(*old(self), mid, *self, PacketType::Heartbeat, empty@);
                    }
                    res
                } else {
                    Ok(())
                }
            },
            PacketType::RetransmissionRequest => {
                if state == RastaState::Up || state == RastaState::Retransmission {
                    self.retransmit(packet.confirmed_sequence_number)
                } else {
                    Ok(())
                }
            },
            PacketType::RetransmissionResponse => {
                if state == RastaState::Retransmission {
                    self.sequence.accept_initial_rx(packet.sequence_number);
                    self.last_remote_timestamp = packet.timestamp;
                    self.confirm(packet.confirmed_sequence_number);
                    let _ = self.transition(RastaState::Up);
                    Ok(())
                } else {
                    Ok(())
                }
            },
            PacketType::Heartbeat | PacketType::Data | PacketType::RetransmittedData => {
                self.accept_flow_packet(packet, now_ms, is_data)
            },
        }
    }

    /// Drops the stored packets that the peer has confirmed.
    fn confirm(&mut self, confirmed: u32)
        requires
            old(self).wf(),
        ensures
            final(self).wf(),
            final(self).state_machine == old(self).state_machine,
            final(self).sequence == old(self).sequence,
            final(self).rx_queue == old(self).rx_queue,
            final(self).config == old(self).config,
            final(self).time_supervisor == old(self).time_supervisor,
            final(self).last_remote_timestamp == old(self).last_remote_timestamp,
            final(self).retransmission@ == unconfirmed(old(self).retransmission@, confirmed),
            final(self).redundancy == old(self).redundancy,
            final(self).clock_readings() == old(self).clock_readings(),
            final(self).timer_answers() == old(self).timer_answers(),
            final(self).timer == old(self).timer,
            final(self).send_times() == old(self).send_times(),
    {
        let ghost before = self.retransmission@;
        self.retransmission.clear_up_to(confirmed);
        assert forall|i: int| 0 <= i < self.retransmission@.len() implies #[trigger] self.retransmission@[i].payload_len <= MAX_PAYLOAD by {
            assert(before.contains(self.retransmission@[i]));
        }
    }

    /// Answers a retransmission request: drops what the peer confirmed,
    /// sends a retransmission response, then sends every packet still
    /// unconfirmed again, renumbered.
    fn retransmit(&mut self, confirmed: u32) -> (r: Result<(), ConnectionError>)
        requires
            old(self).wf(),
        ensures
            r != Err::<(), ConnectionError>(ConnectionError::Timeout),
            records_kept(*old(self), *final(self)),
            final(self).timer == old(self).timer,
            r is Err ==> send_failure(*old(self), *final(self), r),
            final(self).wf(),
            final(self).state_machine == old(self).state_machine,
            final(self).rx_queue == old(self).rx_queue,
            final(self).config == old(self).config,
            final(self).time_supervisor == old(self).time_supervisor,
            final(self).sequence.expected_rx_seq == old(self).sequence.expected_rx_seq,
            r is Ok ==> {
                &&& resends(unconfirmed(old(self).retransmission@, confirmed), final(self).retransmission@)
                &&& final(self).redundancy.frames_sent().len() == old(self).redundancy.frames_sent().len()
                    + 1 + unconfirmed(old(self).retransmission@, confirmed).len()
                &&& !new_send_failed(old(self).redundancy.send_results(), final(self).redundancy.send_results())
            },
    {
        self.confirm(confirmed);
        let pending = self.retransmission.take_all();
        let ghost base = self.redundancy.frames_sent().len();
        let ghost sends0 = old(self).redundancy.send_results();
        let empty: [u8; 0] = [];
        let ghost before_resp = *self;
        let resp = self.send_packet(PacketType::RetransmissionResponse, empty.as_slice());
        proof {
            lemma_sends_push(before_resp.redundancy.send_results(), self.redundancy.send_results());
        }
        if resp.is_err() {
            return resp;
        }
        let n = pending.count();
        let mut i: usize = 0;
        while i < n
            invariant
                self.wf(),
                pending.wf(),
                n == pending@.len(),
                n <= send_window(self.config),
                i <= n,
                pending@ == unconfirmed(old(self).retransmission@, confirmed),
                forall|k: int| 0 <= k < pending@.len() ==> #[trigger] pending@[k].payload_len <= MAX_PAYLOAD,
                self.state_machine == old(self).state_machine,
                self.rx_queue == old(self).rx_queue,
                self.config == old(self).config,
                self.time_supervisor == old(self).time_supervisor,
                self.sequence.expected_rx_seq == old(self).sequence.expected_rx_seq,
                base == old(self).redundancy.frames_sent().len(),
                sends0 == old(self).redundancy.send_results(),
                self.timer == old(self).timer,
                records_kept(*old(self), *self),
                !new_send_failed(sends0, self.redundancy.send_results()),
                self.redundancy.frames_sent().len() == base + 1 + i,
                self.retransmission@.len() == i,
                forall|k: int| 0 <= k < i ==> #[trigger] resent_as(pending@[k], self.retransmission@[k]),
            decreases n - i,
        {
            if let Some(q) = pending.entry(i) {
                let data = vstd::slice::slice_subrange(q.payload.as_slice(), 0, q.payload_len);
                assert(data@ == packet_payload(q));
                let ghost before = self.retransmission@;
                let ghost mid = *self;
                let res = self.send_packet(PacketType::RetransmittedData, data);
                proof {
                    lemma_sends_push(mid.redundancy.send_results(), self.redundancy.send_results());
                    lemma_sends_chain(sends0, mid.redundancy.send_results(), self.redundancy.send_results());
                }
                if res.is_err() {
                    return res;
                }
                assert forall|k: int| 0 <= k < i + 1 implies #[trigger] resent_as(pending@[k], self.retransmission@[k]) by {
                    if k < i {
                        assert(self.retransmission@[k] == before[k]);
                    }
                }
            }
            i = i + 1;
        }
        Ok(())
    }

    /// Heartbeats and data packets.
    #[verifier::rlimit(30)]
    fn accept_flow_packet(&mut self, packet: &Packet, now_ms: u32, is_data: bool) -> (r: Result<
        (),
        ConnectionError,
    >)
        requires
            old(self).wf(),
            is_flow(packet.packet_type),
            is_data == carries_data(packet.packet_type),
            is_data ==> old(self).rx_queue@.len() < RECEIVE_QUEUE_CAPACITY,
            packet.payload_len <= MAX_PAYLOAD,
        ensures
            r != Err::<(), ConnectionError>(ConnectionError::Timeout),
            records_kept(*old(self), *final(self)),
            old(self).state_machine.current_state == RastaState::Start && final(self).state_machine.current_state == RastaState::Up
                ==> !final(self).timer.is_running(),
            !(old(self).state_machine.current_state == RastaState::Start && final(self).state_machine.current_state == RastaState::Up)
                ==> final(self).timer == old(self).timer,
            r is Err ==> send_failure(*old(self), *final(self), r),
            r is Ok ==> !new_send_failed(old(self).redundancy.send_results(), final(self).redundancy.send_results()),
            final(self).wf(),
            final(self).config == old(self).config,
            final(self).time_supervisor == old(self).time_supervisor,
            ({
                let timely = is_timely(old(self).time_supervisor, now_ms, *packet);
                let state = old(self).state_machine.current_state;
                let expected = old(self).sequence.expected_rx_seq;
                &&& final(self).state_machine.current_state == next_state(state, *packet, expected, timely)
                &&& delivers(state, *packet, expected, timely) ==> final(self).rx_queue@ == old(self).rx_queue@.push(*packet)
                &&& !delivers(state, *packet, expected, timely) ==> final(self).rx_queue@ == old(self).rx_queue@
                &&& accepts_in_order(state, *packet, expected, timely) ==> final(self).sequence.expected_rx_seq == seq_next(packet.sequence_number)
                &&& accepts_in_order(state, *packet, expected, timely) ==> {
                    &&& final(self).last_remote_timestamp == packet.timestamp
                    &&& final(self).retransmission@ == unconfirmed(
                        old(self).retransmission@,
                        packet.confirmed_sequence_number,
                    )
                }
                &&& requests_retransmission(state, *packet, expected, timely) ==> frame_sent(
                    *old(self),
                    *final(self),
                    PacketType::RetransmissionRequest,
                    Seq::empty(),
                    old(self).sequence.last_rx_seq,
                    old(self).last_remote_timestamp,
                )
                &&& !requests_retransmission(state, *packet, expected, timely) ==> final(
                    self).redundancy == old(self).redundancy
            }),
    {
        let state = self.state_machine.current_state;
        match state {
            RastaState::Start => {
                let verdict = self.sequence.validate_rx(packet.sequence_number);
                if verdict == SequenceResult::InOrder {
                    self.last_remote_timestamp = packet.timestamp;
                    self.confirm(packet.confirmed_sequence_number);
                    let _ = self.transition(RastaState::Up);
                    self.timer.stop();
                    if is_data {
                        let _ = self.rx_queue.push(*packet);
                    }
                }
                Ok(())
            },
            RastaState::Up | RastaState::Retransmission => {
                if self.time_supervisor.validate(now_ms, packet.confirmed_timestamp).is_err() {
                    return Ok(());
                }
                match self.sequence.validate_rx(packet.sequence_number) {
                    SequenceResult::InOrder => {
                        self.last_remote_timestamp = packet.timestamp;
                        self.confirm(packet.confirmed_sequence_number);
                        if is_data {
                            let _ = self.rx_queue.push(*packet);
                        }
                        Ok(())
                    },
                    SequenceResult::Gap(_) => {
                        if state == RastaState::Up {
                            let _ = self.transition(RastaState::Retransmission);
                            let empty: [u8; 0] = [];
                            assert(empty@ =~= Seq::<u8>::empty());
                            let ghost mid = *self;
                            let res = self.send_packet(
                                PacketType::RetransmissionRequest,
                                empty.as_slice(),
                            );
                            proof {
                                lemma_sends_push(mid.redundancy.send_results(), self.redundancy.send_results());
                                lemma_frame_sent_from(
                                    *old(self),
                                    mid,
                                    *self,
                                    PacketType::RetransmissionRequest,
                                    empty@,
                                );
                            }
                            res
                        } else {
                            Ok(())
                        }
                    },
                    SequenceResult::Duplicate => Ok(()),
                }
            },
            _ => Ok(()),
        }
    }

    /// One round of the protocol: reads the clock (recorded in
    /// `clock_readings`), supervises the handshake timer, reads the channels
    /// once and reacts to the packet received, if any, and sends a heartbeat
    /// when one is due. Frames that do not hold a valid packet are discarded;
    /// a channel error is returned as a transport error.
    #[verifier::rlimit(60)]
    pub fn process(&mut self) -> (r: Result<(), ConnectionError>)
        requires
            old(self).wf(),
        ensures
            final(self).wf(),
            final(self).config == old(self).config,
            final(self).state_machine.current_state == old(self).state_machine.current_state
                || transition_allowed(
                old(self).state_machine.current_state,
                final(self).state_machine.current_state,
            ),
            final(self).rx_queue@ == old(self).rx_queue@ || exists|p: Packet|
                addressed_to_us(old(self).config, p) && carries_data(p.packet_type)
                    && #[trigger] old(self).rx_queue@.push(p) == final(self).rx_queue@,
            final(self).clock_readings().len() == old(self).clock_readings().len() + 1,
            final(self).clock_readings().drop_last() == old(self).clock_readings(),
            sends_extend(old(self).redundancy.send_results(), final(self).redundancy.send_results()),
            old(self).state_machine.current_state == RastaState::Start ==> {
                &&& final(self).timer_answers().len() == old(self).timer_answers().len() + 1
                &&& final(self).timer_answers().drop_last() == old(self).timer_answers()
                &&& (r == Err::<(), ConnectionError>(ConnectionError::Timeout)
                    <==> final(self).timer_answers().last())
            },
            old(self).state_machine.current_state != RastaState::Start ==> {
                &&& final(self).timer_answers() == old(self).timer_answers()
                &&& r != Err::<(), ConnectionError>(ConnectionError::Timeout)
            },
            r == Err::<(), ConnectionError>(ConnectionError::Timeout) ==> {
                &&& final(self).state_machine.current_state == RastaState::Down
                &&& !final(self).timer.is_running()
                &&& final(self).redundancy == old(self).redundancy
            },
            r != Err::<(), ConnectionError>(ConnectionError::Timeout) ==> {
                &&& final(self).redundancy.reads().len() == old(self).redundancy.reads().len() + 1
                &&& final(self).redundancy.reads().drop_last() == old(self).redundancy.reads()
                &&& final(self).redundancy.channel_reads().len() == old(self).redundancy.channel_reads().len() + 1
                &&& final(self).redundancy.channel_reads().drop_last() == old(self).redundancy.channel_reads()
            },
            ({
                let received = receive_outcome(
                    old(self).redundancy.configuration().check_code,
                    old(self).redundancy.expected_rx_seq(),
                    final(self).redundancy.channel_reads().last(),
                    520,
                ).0;
                let read = final(self).redundancy.reads().last();
                r != Err::<(), ConnectionError>(ConnectionError::Timeout) ==> {
                    &&& received matches Err(e) ==> r == Err::<(), ConnectionError>(ConnectionError::Transport(e))
                    &&& received is Ok && r is Err ==> send_failure(*old(self), *final(self), r) || (r
                        == Err::<(), ConnectionError>(ConnectionError::ReceiveQueueFull)
                        && queue_full_read(*old(self), read))
                    &&& received is Ok && queue_full_read(*old(self), read) ==> r == Err::<
                        (),
                        ConnectionError,
                    >(ConnectionError::ReceiveQueueFull)
                    &&& received is Ok && !read_from_peer(*old(self), read) && old(self).state_machine.current_state == RastaState::Up
                        && heartbeat_due(old(self).heartbeat, final(self).clock_readings().last()) ==> frame_sent(
                        *old(self),
                        *final(self),
                        PacketType::Heartbeat,
                        Seq::empty(),
                        old(self).sequence.last_rx_seq,
                        old(self).last_remote_timestamp,
                    )
                    &&& received is Ok && !read_from_peer(*old(self), read) && !(old(self).state_machine.current_state == RastaState::Up
                        && heartbeat_due(old(self).heartbeat, final(self).clock_readings().last())) ==> {
                        &&& final(self).redundancy.frames_sent() == old(self).redundancy.frames_sent()
                        &&& final(self).send_times() == old(self).send_times()
                    }
                }
            }),
            r is Ok ==> !new_send_failed(old(self).redundancy.send_results(), final(self).redundancy.send_results()),
            r is Ok ==> round_outcome(
                *old(self),
                *final(self),
                final(self).redundancy.reads().last(),
                final(self).clock_readings().last(),
            ),
    {
        let now = self.clock.now_ms();
        self.clock_log = Ghost(self.clock_log@.push(now));
        if self.state_machine.current_state == RastaState::Start {
            let expired = self.timer.expired();
            self.timer_log = Ghost(self.timer_log@.push(expired));
            if expired {
                self.timer.stop();
                let _ = self.transition(RastaState::Down);
                return Err(ConnectionError::Timeout);
            }
        }
        let ghost start = *self;
        let mut frame = [0u8; 520];
        let n = match self.redundancy.receive(&mut frame) {
            Ok(n) => n,
            Err(e) => return Err(ConnectionError::Transport(e)),
        };
        let ghost received_state = *self;
        if n > 0 {
            let received = vstd::slice::slice_subrange(frame.as_slice(), 0, n);
            match Packet::parse(received, &self.config.safety_code) {
                Ok(packet) => {
                    proof {
                        crate::rasta_core::pdu::lemma_parsed_payload_fits(self.config.safety_code, received@, packet);
                        lemma_reaction_is_allowed_transition(
                            self.state_machine.current_state,
                            packet,
                            self.sequence.expected_rx_seq,
                            is_timely(self.time_supervisor, now, packet),
                        );
                        assert(received@ =~= self.redundancy.reads().last().unwrap());
                        if queue_full_read(*old(self), self.redundancy.reads().last()) {
                            let q = choose|q: Packet|
                                #[trigger] decodes_to(self.config.safety_code, received@, q)
                                    && addressed_to_us(self.config, q) && carries_data(q.packet_type);
                            assert(decodes_to(self.config.safety_code, received@, q));
                        }
                    }
                    let ghost before = *self;
                    let handled = self.handle_packet(&packet, now);
                    proof {
                        if handled is Err && !send_failure(before, *self, handled) {
                            assert(decodes_to(self.config.safety_code, received@, packet));
                            assert(queue_full_read(*old(self), self.redundancy.reads().last()));
                        }
                    }
                    if handled.is_err() {
                        return handled;
                    }
                    proof {
                        assert(decodes_to(self.config.safety_code, received@, packet));
                        if addressed_to_us(before.config, packet) {
                            assert(reacted_to(*old(self), *self, packet, now));
                            assert(read_from_peer(*old(self), self.redundancy.reads().last()));
                        }
                    }
                },
                Err(_) => {
                    assert(received@ =~= self.redundancy.reads().last().unwrap());
                },
            }
        }
        let ghost handled_state = *self;
        assert(round_outcome(*old(self), handled_state, handled_state.redundancy.reads().last(), now));
        if self.state_machine.current_state == RastaState::Up && self.heartbeat.is_due(now) {
            let empty: [u8; 0] = [];
            let ghost mid = *self;
            let sent = self.send_packet(PacketType::Heartbeat, empty.as_slice());
            proof {
                assert(empty@ =~= Seq::<u8>::empty());
                if !read_from_peer(*old(self), handled_state.redundancy.reads().last()) {
                    lemma_frame_sent_from(*old(self), mid, *self, PacketType::Heartbeat, empty@);
                }
                lemma_sends_push(mid.redundancy.send_results(), self.redundancy.send_results());
                lemma_sends_chain(start.redundancy.send_results(), mid.redundancy.send_results(), self.redundancy.send_results());
            }
            if sent.is_err() {
                return sent;
            }
        }
        proof {
            lemma_round_outcome_kept(*old(self), handled_state, *self, handled_state.redundancy.reads().last(), now);
        }
        Ok(())
    }

    /// Hands the oldest received payload to the application: copies it to
    /// the start of `output` and returns its length, or 0 when nothing
    /// waits. A payload longer than `output` stays queued.
    pub fn receive_data(&mut self, output: &mut [u8]) -> (r: Result<usize, ConnectionError>)
        requires
            old(self).wf(),
        ensures
            final(self).wf(),
            final(self).state_machine == old(self).state_machine,
            final(self).sequence == old(self).sequence,
            final(self).retransmission == old(self).retransmission,
            final(self).config == old(self).config,
            old(self).rx_queue@.len() == 0 ==> r == Ok::<usize, ConnectionError>(0) && final(self).rx_queue@ == old(self).rx_queue@ && final(output)@ == old(output)@,
            old(self).rx_queue@.len() > 0 && old(self).rx_queue@[0].payload_len > old(output)@.len()
                ==> r == Err::<usize, ConnectionError>(ConnectionError::BufferTooSmall) && final(self).rx_queue@ == old(self).rx_queue@ && final(output)@ == old(output)@,
            old(self).rx_queue@.len() > 0 && old(self).rx_queue@[0].payload_len <= old(output)@.len()
                ==> {
                &&& r == Ok::<usize, ConnectionError>(old(self).rx_queue@[0].payload_len)
                &&& final(self).rx_queue@ == old(self).rx_queue@.drop_first()
                &&& final(output)@ == packet_payload(old(self).rx_queue@[0]) + old(output)@.skip(
                    old(self).rx_queue@[0].payload_len as int,
                )
            },
    {
        let front = self.rx_queue.front();
        match front {
            None => Ok(0),
            Some(p) => {
                assert(p.payload_len <= MAX_PAYLOAD);
                if p.payload_len > output.len() {
                    return Err(ConnectionError::BufferTooSmall);
                }
                let src = vstd::slice::slice_subrange(p.payload.as_slice(), 0, p.payload_len);
                copy_into(output, 0, src);
                assert(output@.take(0) + src@ =~= src@);
                self.rx_queue.pop_front();
                assert forall|i: int| 0 <= i < self.rx_queue@.len() implies #[trigger] self.rx_queue@[i].payload_len <= MAX_PAYLOAD by {
                    assert(self.rx_queue@[i] == old(self).rx_queue@[i + 1]);
                }
                Ok(p.payload_len)
            },
        }
    }

    /// Whether a received payload waits for the application.
    pub fn has_received_data(&self) -> (b: bool)
        requires
            self.wf(),
        ensures
            b == (self.rx_queue@.len() > 0),
    {
        !self.rx_queue.is_empty()
    }
}

} // verus!
