//! The buffer of sent packets that the peer has not yet confirmed, kept for
//! retransmission.
use crate::rasta_core::pdu::{Packet, PacketType};
use crate::rasta_core::sequencing::seq_at_or_after;
use vstd::prelude::*;

verus! {

/// How many unconfirmed packets the buffer holds at most.
pub const RETRANSMISSION_CAPACITY: usize = 16;

/// The packet with sequence number `seq` is confirmed once the peer has
/// confirmed `confirmed`: it lies at or before `confirmed` on the circle.
pub open spec fn is_confirmed(confirmed: u32, seq: u32) -> bool {
    seq_at_or_after(seq, confirmed)
}

/// The packets of `s` that confirming `confirmed` leaves, in order.
pub open spec fn unconfirmed(s: Seq<Packet>, confirmed: u32) -> Seq<Packet> {
    s.filter(|p: Packet| !is_confirmed(confirmed, p.sequence_number))
}

pub struct RetransmissionBuffer {
    entries: [Packet; 16],
    len: usize,
}

impl View for RetransmissionBuffer {
    type V = Seq<Packet>;

    /// The stored packets, oldest first.
    closed spec fn view(&self) -> Seq<Packet> {
        self.entries@.take(self.len as int)
    }
}

impl RetransmissionBuffer {
    /// At most `RETRANSMISSION_CAPACITY` packets are stored.
    pub closed spec fn wf(&self) -> bool {
        self.len <= RETRANSMISSION_CAPACITY
    }

    pub fn new() -> (b: Self)
        ensures
            b.wf(),
            b@ == Seq::<Packet>::empty(),
    {
        let empty = Packet {
            receiver_id: 0,
            sender_id: 0,
            sequence_number: 0,
            confirmed_sequence_number: 0,
            timestamp: 0,
            confirmed_timestamp: 0,
            packet_type: PacketType::Data,
            payload: [0u8; 256],
            payload_len: 0,
        };
        let b = RetransmissionBuffer { entries: [empty; 16], len: 0 };
        assert(b@ =~= Seq::<Packet>::empty());
        b
    }

    /// Stores `packet` after the others; refuses it (`false`) when full.
    pub fn store(&mut self, packet: Packet) -> (stored: bool)
        requires
            old(self).wf(),
        ensures
            final(self).wf(),
            stored == (old(self)@.len() < RETRANSMISSION_CAPACITY),
            stored ==> final(self)@ == old(self)@.push(packet),
            !stored ==> final(self)@ == old(self)@,
    {
        if self.len >= RETRANSMISSION_CAPACITY {
            return false;
        }
        self.entries[self.len] = packet;
        self.len = self.len + 1;
        assert(self@ =~= old(self)@.push(packet));
        true
    }

    /// The number of stored packets.
    pub fn count(&self) -> (n: usize)
        requires
            self.wf(),
        ensures
            n == self@.len(),
    {
        self.len
    }

    /// The `i`-th stored packet, oldest first.
    pub fn entry(&self, i: usize) -> (p: Option<Packet>)
        requires
            self.wf(),
        ensures
            i < self@.len() ==> p == Some(self@[i as int]),
            i >= self@.len() ==> p is None,
    {
        if i < self.len {
            Some(self.entries[i])
        } else {
            None
        }
    }

    /// The oldest stored packet with sequence number `seq`.
    pub fn get_packet(&self, seq: u32) -> (p: Option<Packet>)
        requires
            self.wf(),
        ensures
            p matches Some(q) ==> exists|i: int|
                0 <= i < self@.len() && self@[i] == q && q.sequence_number == seq && forall|j: int|
                    0 <= j < i ==> #[trigger] self@[j].sequence_number != seq,
            p is None ==> forall|j: int| 0 <= j < self@.len() ==> #[trigger] self@[j].sequence_number != seq,
    {
        let mut i: usize = 0;
        while i < self.len
            invariant
                self.wf(),
                i <= self.len,
                forall|j: int| 0 <= j < i ==> #[trigger] self@[j].sequence_number != seq,
            decreases self.len - i,
        {
            if self.entries[i].sequence_number == seq {
                assert(self@[i as int] == self.entries@[i as int]);
                return Some(self.entries[i]);
            }
            i = i + 1;
        }
        None
    }

    /// Moves every stored packet out into the returned buffer, leaving this
    /// one empty.
    pub fn take_all(&mut self) -> (taken: Self)
        requires
            old(self).wf(),
        ensures
            final(self).wf(),
            final(self)@ == Seq::<Packet>::empty(),
            taken.wf(),
            taken@ == old(self)@,
    {
        let taken = RetransmissionBuffer { entries: self.entries, len: self.len };
        self.len = 0;
        assert(self@ =~= Seq::<Packet>::empty());
        taken
    }

    /// Drops every packet that confirming `confirmed` covers, keeping the
    /// others in order.
    pub fn clear_up_to(&mut self, confirmed: u32)
        requires
            old(self).wf(),
        ensures
            final(self).wf(),
            final(self)@ == unconfirmed(old(self)@, confirmed),
            forall|i: int| 0 <= i < final(self)@.len() ==> old(self)@.contains(#[trigger] final(self)@[i]),
            forall|i: int| 0 <= i < final(self)@.len() ==> !is_confirmed(confirmed, #[trigger] final(self)@[i].sequence_number),
    {
        let ghost s = old(self)@;
        let ghost pred = |p: Packet| !is_confirmed(confirmed, p.sequence_number);
        let n = self.len;
        let mut w: usize = 0;
        let mut r: usize = 0;
        proof {
            reveal_with_fuel(Seq::<_>::filter, 1);
            assert(s.take(0) =~= Seq::<Packet>::empty());
            assert(self.entries@.take(0) =~= Seq::<Packet>::empty());
        }
        while r < n
            invariant
                n == old(self).len,
                n <= RETRANSMISSION_CAPACITY,
                s == old(self)@,
                w <= r <= n,
                self.len == n,
                pred == (|p: Packet| !is_confirmed(confirmed, p.sequence_number)),
                self.entries@.take(w as int) == s.take(r as int).filter(pred),
                forall|k: int| r <= k < n ==> self.entries@[k] == s[k],
                forall|k: int| 0 <= k < w ==> s.contains(#[trigger] self.entries@[k]),
            decreases n - r,
        {
            let p = self.entries[r];
            assert(p == s[r as int]);
            proof {
                reveal_with_fuel(Seq::<_>::filter, 1);
                assert(s.take(r + 1).drop_last() =~= s.take(r as int));
                assert(s.take(r + 1).last() == p);
            }
            if confirmed.wrapping_sub(p.sequence_number) >= 0x8000_0000 {
                let ghost before = self.entries@;
                assert(s[r as int] == p);
                assert(s.contains(p));
                self.entries[w] = p;
                assert(self.entries@.take(w + 1) =~= before.take(w as int).push(p));
                w = w + 1;
            } else {
                proof {
                    assert(is_confirmed(confirmed, p.sequence_number));
                }
            }
            r = r + 1;
        }
        self.len = w;
        assert(s.take(n as int) =~= s);
        assert forall|i: int| 0 <= i < self@.len() implies old(self)@.contains(#[trigger] self@[i]) by {
            assert(self@[i] == self.entries@[i]);
        }
        assert forall|i: int| 0 <= i < self@.len() implies !is_confirmed(confirmed, #[trigger] self@[i].sequence_number) by {
            s.lemma_filter_pred(pred, i);
        }
    }
}

} // verus!
