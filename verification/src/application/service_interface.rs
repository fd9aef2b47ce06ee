//! The RaSTA service API: open and close a connection, send and receive
//! data, poll, and read the connection status.
use crate::platform::clock::Clock;
use crate::platform::timer::Timer;
use crate::platform::transport::Transport;
use crate::rasta_core::connection::{
    addressed_to_us, carries_data, connection_request_payload, frame_sent, queue_full_read, round_outcome,
    send_answer, send_failure, sent_packet, send_window, ConnectionError, RastaConfig, RastaConnection,
};
use crate::rasta_core::redundancy_management::{new_send_failed, receive_outcome, sends_extend};
use crate::rasta_core::connection_state_machine::{transition_allowed, RastaState};
use crate::rasta_core::pdu::{packet_payload, Packet, PacketType, PduError, MAX_PAYLOAD};
use crate::rasta_core::sequencing::seq_next;
use vstd::prelude::*;

verus! {

#[derive(Debug, Clone, Copy, PartialEq, Eq, Structural)]
pub enum ConnectionStatus {
    Down,
    Opening,
    Up,
    Retransmission,
    Closing,
}

/// The status that the application sees in each protocol state.
pub open spec fn status_of(state: RastaState) -> ConnectionStatus {
    match state {
        RastaState::Down => ConnectionStatus::Down,
        RastaState::Start => ConnectionStatus::Opening,
        RastaState::Up => ConnectionStatus::Up,
        RastaState::Retransmission => ConnectionStatus::Retransmission,
        RastaState::Closed => ConnectionStatus::Closing,
    }
}

impl From<RastaState> for ConnectionStatus {
    fn from(state: RastaState) -> (s: Self) {
        match state {
            RastaState::Down => ConnectionStatus::Down,
            RastaState::Start => ConnectionStatus::Opening,
            RastaState::Up => ConnectionStatus::Up,
            RastaState::Retransmission => ConnectionStatus::Retransmission,
            RastaState::Closed => ConnectionStatus::Closing,
        }
    }
}

impl vstd::std_specs::convert::FromSpecImpl<RastaState> for ConnectionStatus {
    open spec fn obeys_from_spec() -> bool {
        true
    }

    open spec fn from_spec(v: RastaState) -> ConnectionStatus {
        status_of(v)
    }
}

pub struct RastaService<T1: Transport, T2: Transport, TimerCtx: Timer, C: Clock> {
    connection: RastaConnection<T1, T2, TimerCtx, C>,
}

pub type RastaApi<T1, T2, TimerCtx, C> = RastaService<T1, T2, TimerCtx, C>;

impl<T1: Transport, T2: Transport, TimerCtx: Timer, C: Clock> RastaService<T1, T2, TimerCtx, C> {
    /// The connection the service drives.
    pub closed spec fn conn(&self) -> RastaConnection<T1, T2, TimerCtx, C> {
        self.connection
    }

    pub open spec fn wf(&self) -> bool {
        self.conn().wf()
    }

    pub fn new(transport_a: T1, transport_b: T2, timer: TimerCtx, clock: C, config: RastaConfig) -> (s: Self)
        ensures
            s.wf(),
            s.conn().config == config,
            s.conn().state_machine.current_state == RastaState::Down,
            s.conn().rx_queue@ == Seq::<Packet>::empty(),
            s.conn().retransmission@ == Seq::<Packet>::empty(),
            s.conn().sequence.next_tx_seq == config.initial_seq,
    {
        Self { connection: RastaConnection::new(transport_a, transport_b, timer, clock, config) }
    }

    /// Starts the handshake; fails unless the connection is down.
    pub fn open_connection(&mut self) -> (r: Result<(), ConnectionError>)
        requires
            old(self).wf(),
        ensures
            final(self).wf(),
            final(self).conn().config == old(self).conn().config,
            old(self).conn().state_machine.current_state != RastaState::Down ==> {
                &&& r == Err::<(), ConnectionError>(ConnectionError::StateTransitionInvalid)
                &&& final(self).conn().state_machine == old(self).conn().state_machine
            },
            old(self).conn().state_machine.current_state == RastaState::Down ==> {
                &&& final(self).conn().state_machine.current_state == RastaState::Start
                &&& final(self).conn().timer.is_running()
                &&& final(self).conn().timer.duration() == old(self).conn().config.t_max
                &&& final(self).conn().redundancy.send_results().len() == old(self).conn().redundancy.send_results().len() + 1
                &&& final(self).conn().redundancy.send_results().drop_last() == old(self).conn().redundancy.send_results()
                &&& r == send_answer(final(self).conn().redundancy.send_results().last())
                &&& frame_sent(
                    old(self).conn(),
                    final(self).conn(),
                    PacketType::ConnectionRequest,
                    connection_request_payload(old(self).conn().config.n_send_max),
                    old(self).conn().sequence.last_rx_seq,
                    old(self).conn().last_remote_timestamp,
                )
            },
    {
        self.connection.connect()
    }

    /// Closes the connection; fails when it is already down.
    pub fn close_connection(&mut self) -> (r: Result<(), ConnectionError>)
        requires
            old(self).wf(),
        ensures
            final(self).wf(),
            final(self).conn().config == old(self).conn().config,
            old(self).conn().state_machine.current_state == RastaState::Down ==> {
                &&& r == Err::<(), ConnectionError>(ConnectionError::StateTransitionInvalid)
                &&& final(self).conn().state_machine == old(self).conn().state_machine
            },
            old(self).conn().state_machine.current_state != RastaState::Down ==> {
                &&& final(self).conn().state_machine.current_state == RastaState::Down
                &&& !final(self).conn().timer.is_running()
                &&& final(self).conn().redundancy.send_results().len() == old(self).conn().redundancy.send_results().len() + 1
                &&& final(self).conn().redundancy.send_results().drop_last() == old(self).conn().redundancy.send_results()
                &&& r == send_answer(final(self).conn().redundancy.send_results().last())
                &&& frame_sent(
                    old(self).conn(),
                    final(self).conn(),
                    PacketType::DisconnectionRequest,
                    Seq::new(4, |i: int| 0u8),
                    old(self).conn().sequence.last_rx_seq,
                    old(self).conn().last_remote_timestamp,
                )
            },
    {
        self.connection.disconnect()
    }

    /// Sends `data` in a data packet; only an established connection sends.
    pub fn send_data(&mut self, data: &[u8]) -> (r: Result<(), ConnectionError>)
        requires
            old(self).wf(),
        ensures
            final(self).wf(),
            final(self).conn().config == old(self).conn().config,
            final(self).conn().state_machine == old(self).conn().state_machine,
            final(self).conn().rx_queue@ == old(self).conn().rx_queue@,
            old(self).conn().state_machine.current_state != RastaState::Up ==> {
                &&& r == Err::<(), ConnectionError>(ConnectionError::StateTransitionInvalid)
                &&& final(self).conn().sequence == old(self).conn().sequence
                &&& final(self).conn().retransmission@ == old(self).conn().retransmission@
                &&& final(self).conn().redundancy == old(self).conn().redundancy
            },
            old(self).conn().state_machine.current_state == RastaState::Up && data@.len()
                > MAX_PAYLOAD ==> r == Err::<(), ConnectionError>(
                ConnectionError::Packet(PduError::PayloadTooLarge),
            ),
            old(self).conn().state_machine.current_state == RastaState::Up && data@.len()
                <= MAX_PAYLOAD && old(self).conn().retransmission@.len() >= send_window(
                old(self).conn().config,
            ) ==> r == Err::<(), ConnectionError>(ConnectionError::SendBufferFull),
            old(self).conn().state_machine.current_state == RastaState::Up && data@.len()
                <= MAX_PAYLOAD && old(self).conn().retransmission@.len() < send_window(
                old(self).conn().config,
            ) ==> {
                &&& final(self).conn().sequence.next_tx_seq == seq_next(
                    old(self).conn().sequence.next_tx_seq,
                )
                &&& final(self).conn().redundancy.send_results().len() == old(self).conn().redundancy.send_results().len() + 1
                &&& final(self).conn().redundancy.send_results().drop_last() == old(self).conn().redundancy.send_results()
                &&& r == send_answer(final(self).conn().redundancy.send_results().last())
                &&& sent_packet(old(self).conn(), final(self).conn(), PacketType::Data, data@)
            },
    {
        if self.connection.state_machine.current_state != RastaState::Up {
            return Err(ConnectionError::StateTransitionInvalid);
        }
        self.connection.send_packet(PacketType::Data, data)
    }

    /// One round of the protocol; see `RastaConnection::process`.
    pub fn poll(&mut self) -> (r: Result<(), ConnectionError>)
        requires
            old(self).wf(),
        ensures
            final(self).wf(),
            final(self).conn().config == old(self).conn().config,
            final(self).conn().state_machine.current_state == old(self).conn().state_machine.current_state
                || transition_allowed(
                old(self).conn().state_machine.current_state,
                final(self).conn().state_machine.current_state,
            ),
            final(self).conn().rx_queue@ == old(self).conn().rx_queue@ || exists|p: Packet|
                addressed_to_us(old(self).conn().config, p) && carries_data(p.packet_type)
                    && #[trigger] old(self).conn().rx_queue@.push(p) == final(self).conn().rx_queue@,
            final(self).conn().clock_readings().len() == old(self).conn().clock_readings().len() + 1,
            final(self).conn().clock_readings().drop_last() == old(self).conn().clock_readings(),
            sends_extend(old(self).conn().redundancy.send_results(), final(self).conn().redundancy.send_results()),
            old(self).conn().state_machine.current_state == RastaState::Start ==> {
                &&& final(self).conn().timer_answers().len() == old(self).conn().timer_answers().len() + 1
                &&& final(self).conn().timer_answers().drop_last() == old(self).conn().timer_answers()
                &&& (r == Err::<(), ConnectionError>(ConnectionError::Timeout)
                    <==> final(self).conn().timer_answers().last())
            },
            old(self).conn().state_machine.current_state != RastaState::Start ==> {
                &&& final(self).conn().timer_answers() == old(self).conn().timer_answers()
                &&& r != Err::<(), ConnectionError>(ConnectionError::Timeout)
            },
            r == Err::<(), ConnectionError>(ConnectionError::Timeout) ==> {
                &&& final(self).conn().state_machine.current_state == RastaState::Down
                &&& !final(self).conn().timer.is_running()
                &&& final(self).conn().redundancy == old(self).conn().redundancy
            },
            r != Err::<(), ConnectionError>(ConnectionError::Timeout) ==> {
                &&& final(self).conn().redundancy.reads().len() == old(self).conn().redundancy.reads().len() + 1
                &&& final(self).conn().redundancy.reads().drop_last() == old(self).conn().redundancy.reads()
                &&& final(self).conn().redundancy.channel_reads().len() == old(self).conn().redundancy.channel_reads().len() + 1
                &&& final(self).conn().redundancy.channel_reads().drop_last() == old(self).conn().redundancy.channel_reads()
            },
            ({
                let received = receive_outcome(
                    old(self).conn().redundancy.configuration().check_code,
                    old(self).conn().redundancy.expected_rx_seq(),
                    final(self).conn().redundancy.channel_reads().last(),
                    520,
                ).0;
                let read = final(self).conn().redundancy.reads().last();
                r != Err::<(), ConnectionError>(ConnectionError::Timeout) ==> {
                    &&& received matches Err(e) ==> r == Err::<(), ConnectionError>(ConnectionError::Transport(e))
                    &&& received is Ok && r is Err ==> send_failure(old(self).conn(), final(self).conn(), r) || (r
                        == Err::<(), ConnectionError>(ConnectionError::ReceiveQueueFull)
                        && queue_full_read(old(self).conn(), read))
                    &&& received is Ok && queue_full_read(old(self).conn(), read) ==> r == Err::<
                        (),
                        ConnectionError,
                    >(ConnectionError::ReceiveQueueFull)
                }
            }),
            r is Ok ==> !new_send_failed(old(self).conn().redundancy.send_results(), final(self).conn().redundancy.send_results()),
            r is Ok ==> round_outcome(
                old(self).conn(),
                final(self).conn(),
                final(self).conn().redundancy.reads().last(),
                final(self).conn().clock_readings().last(),
            ),
    {
        self.connection.process()
    }

    /// Copies the oldest received payload to the start of `output` and
    /// returns its length, or 0 when nothing waits.
    pub fn receive_data(&mut self, output: &mut [u8]) -> (r: Result<usize, ConnectionError>)
        requires
            old(self).wf(),
        ensures
            final(self).wf(),
            final(self).conn().state_machine == old(self).conn().state_machine,
            final(self).conn().config == old(self).conn().config,
            old(self).conn().rx_queue@.len() == 0 ==> r == Ok::<usize, ConnectionError>(0) && final(output)@ == old(output)@,
            old(self).conn().rx_queue@.len() > 0 && old(self).conn().rx_queue@[0].payload_len > old(output)@.len() ==> r == Err::<usize, ConnectionError>(ConnectionError::BufferTooSmall) && final(self).conn().rx_queue@ == old(self).conn().rx_queue@,
            old(self).conn().rx_queue@.len() > 0 && old(self).conn().rx_queue@[0].payload_len <= old(output)@.len() ==> {
                &&& r == Ok::<usize, ConnectionError>(old(self).conn().rx_queue@[0].payload_len)
                &&& final(self).conn().rx_queue@ == old(self).conn().rx_queue@.drop_first()
                &&& final(output)@ == packet_payload(old(self).conn().rx_queue@[0]) + old(output)@.skip(old(self).conn().rx_queue@[0].payload_len as int)
            },
    {
        self.connection.receive_data(output)
    }

    /// Whether a received payload waits.
    pub fn has_received_data(&self) -> (b: bool)
        requires
            self.wf(),
        ensures
            b == (self.conn().rx_queue@.len() > 0),
    {
        self.connection.has_received_data()
    }

    /// The connection status the application sees.
    pub fn status(&self) -> (s: ConnectionStatus)
        ensures
            s == status_of(self.conn().state_machine.current_state),
    {
        ConnectionStatus::from(self.connection.state_machine.current_state)
    }
}

} // verus!
