//! The connection states of the Safety and Retransmission Layer.
use vstd::prelude::*;

verus! {

#[derive(Debug, Clone, Copy, PartialEq, Eq, Structural)]
pub enum RastaState {
    Down,
    Start,
    Up,
    Retransmission,
    Closed,
}

/// The transitions the protocol allows.
pub open spec fn transition_allowed(from: RastaState, to: RastaState) -> bool {
    match (from, to) {
        (RastaState::Down, RastaState::Start) => true,
        (RastaState::Start, RastaState::Up) => true,
        (RastaState::Start, RastaState::Closed) => true,
        (RastaState::Start, RastaState::Down) => true,
        (RastaState::Up, RastaState::Retransmission) => true,
        (RastaState::Up, RastaState::Closed) => true,
        (RastaState::Up, RastaState::Down) => true,
        (RastaState::Retransmission, RastaState::Up) => true,
        (RastaState::Retransmission, RastaState::Closed) => true,
        (RastaState::Retransmission, RastaState::Down) => true,
        (RastaState::Closed, RastaState::Down) => true,
        _ => false,
    }
}

#[derive(Debug, Clone, Copy)]
pub struct StateMachine {
    pub current_state: RastaState,
}

impl StateMachine {
    pub fn new() -> (sm: Self)
        ensures
            sm.current_state == RastaState::Down,
    {
        StateMachine { current_state: RastaState::Down }
    }

    /// Whether the machine may move from its current state to `next`.
    pub fn can_transition(&self, next: RastaState) -> (ok: bool)
        ensures
            ok == transition_allowed(self.current_state, next),
    {
        match (self.current_state, next) {
            (RastaState::Down, RastaState::Start) => true,
            (RastaState::Start, RastaState::Up) => true,
            (RastaState::Start, RastaState::Closed) => true,
            (RastaState::Start, RastaState::Down) => true,
            (RastaState::Up, RastaState::Retransmission) => true,
            (RastaState::Up, RastaState::Closed) => true,
            (RastaState::Up, RastaState::Down) => true,
            (RastaState::Retransmission, RastaState::Up) => true,
            (RastaState::Retransmission, RastaState::Closed) => true,
            (RastaState::Retransmission, RastaState::Down) => true,
            (RastaState::Closed, RastaState::Down) => true,
            _ => false,
        }
    }

    /// Moves to `next` when the transition is allowed, and says whether it was.
    pub fn transition(&mut self, next: RastaState) -> (ok: bool)
        ensures
            ok == transition_allowed(old(self).current_state, next),
            ok ==> final(self).current_state == next,
            !ok ==> final(self).current_state == old(self).current_state,
    {
        if self.can_transition(next) {
            self.current_state = next;
            true
        } else {
            false
        }
    }
}

/// Every state other than `Down` can reach `Down` in one transition, and
/// the connection can always be re-opened from `Down`.
pub proof fn lemma_down_reachable(s: RastaState)
    ensures
        s != RastaState::Down ==> transition_allowed(s, RastaState::Down) || transition_allowed(
            s,
            RastaState::Closed,
        ),
        transition_allowed(RastaState::Down, RastaState::Start),
{
}

/// `Up` is reached only through `Start` or `Retransmission`.
pub proof fn lemma_up_only_after_handshake(s: RastaState)
    ensures
        transition_allowed(s, RastaState::Up) ==> s == RastaState::Start || s
            == RastaState::Retransmission,
{
}

} // verus!
