//! Sequence numbers of the Safety and Retransmission Layer.
use vstd::prelude::*;

verus! {

/// How a received sequence number compares with the expected one.
#[derive(Debug, Clone, Copy, PartialEq, Eq, Structural)]
pub enum SequenceResult {
    InOrder,
    Duplicate,
    Gap(u32),
}

/// `seq` lies less than half the 32-bit circle ahead of (or at) `base`.
pub open spec fn seq_at_or_after(base: u32, seq: u32) -> bool {
    (seq - base) % 0x1_0000_0000 < 0x8000_0000
}

/// `seq + 1`, wrapping at 2^32.
pub open spec fn seq_next(seq: u32) -> u32 {
    ((seq + 1) % 0x1_0000_0000) as u32
}

/// What `validate_rx` answers when `expected` is the next expected number.
pub open spec fn sequence_verdict(expected: u32, seq: u32) -> SequenceResult {
    if seq == expected {
        SequenceResult::InOrder
    } else if seq_at_or_after(expected, seq) {
        SequenceResult::Gap(expected)
    } else {
        SequenceResult::Duplicate
    }
}

/// The sending and receiving sequence numbers of one connection.
#[derive(Debug, Clone, Copy)]
pub struct SequenceHandler {
    pub next_tx_seq: u32,
    pub expected_rx_seq: u32,
    pub last_rx_seq: u32,
}

impl SequenceHandler {
    pub fn new() -> (h: Self)
        ensures
            h.next_tx_seq == 0,
            h.expected_rx_seq == 0,
            h.last_rx_seq == 0,
    {
        Self::with_initial_tx(0)
    }

    /// A handler whose first sent packet carries `initial_tx`.
    pub fn with_initial_tx(initial_tx: u32) -> (h: Self)
        ensures
            h.next_tx_seq == initial_tx,
            h.expected_rx_seq == 0,
            h.last_rx_seq == 0,
    {
        SequenceHandler { next_tx_seq: initial_tx, expected_rx_seq: 0, last_rx_seq: 0 }
    }

    /// Hands out the next sending sequence number.
    pub fn next_tx(&mut self) -> (seq: u32)
        ensures
            seq == old(self).next_tx_seq,
            final(self).next_tx_seq == seq_next(seq),
            final(self).expected_rx_seq == old(self).expected_rx_seq,
            final(self).last_rx_seq == old(self).last_rx_seq,
    {
        let seq = self.next_tx_seq;
        self.next_tx_seq = seq.wrapping_add(1);
        seq
    }

    /// Takes the sequence number of the peer's first packet as the start of
    /// the receiving sequence.
    pub fn accept_initial_rx(&mut self, seq: u32)
        ensures
            final(self).next_tx_seq == old(self).next_tx_seq,
            final(self).last_rx_seq == seq,
            final(self).expected_rx_seq == seq_next(seq),
    {
        self.last_rx_seq = seq;
        self.expected_rx_seq = seq.wrapping_add(1);
    }

    /// Checks a received sequence number; the expected number moves on only
    /// when `seq` is the expected one.
    pub fn validate_rx(&mut self, seq: u32) -> (r: SequenceResult)
        ensures
            r == sequence_verdict(old(self).expected_rx_seq, seq),
            final(self).next_tx_seq == old(self).next_tx_seq,
            r == SequenceResult::InOrder ==> final(self).expected_rx_seq == seq_next(seq)
                && final(self).last_rx_seq == seq,
            r != SequenceResult::InOrder ==> final(self).expected_rx_seq == old(self).expected_rx_seq
                && final(self).last_rx_seq == old(self).last_rx_seq,
    {
        if seq == self.expected_rx_seq {
            self.last_rx_seq = seq;
            self.expected_rx_seq = seq.wrapping_add(1);
            SequenceResult::InOrder
        } else if seq.wrapping_sub(self.expected_rx_seq) < 0x8000_0000 {
            SequenceResult::Gap(self.expected_rx_seq)
        } else {
            SequenceResult::Duplicate
        }
    }

    /// The last sequence number received in order, which outgoing packets
    /// confirm.
    pub fn confirmed_rx(&self) -> (seq: u32)
        ensures
            seq == self.last_rx_seq,
    {
        self.last_rx_seq
    }
}

/// A number that was just accepted in order is a duplicate afterwards.
pub proof fn lemma_accepted_then_duplicate(seq: u32)
    ensures
        sequence_verdict(seq_next(seq), seq) == SequenceResult::Duplicate,
{
}

} // verus!
