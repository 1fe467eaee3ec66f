//! The per-peer session states of the automaton.

use vstd::prelude::*;

verus! {

/// Session state. `Active` is reserved: for passive-mode peers it behaves as
/// `Connect`, and this core never enters it.
#[derive(Debug, Clone, Copy, PartialEq, Eq, Structural, Hash)]
pub enum State {
    Idle,
    Connect,
    Active,
    OpenSent,
    OpenConfirm,
    Established,
}

/// How far along the session is: the automaton only ever moves up this rank,
/// since this core tears a failed session down instead of re-entering `Idle`.
pub open spec fn state_rank(s: State) -> int {
    match s {
        State::Idle => 0,
        State::Connect => 1,
        State::Active => 1,
        State::OpenSent => 2,
        State::OpenConfirm => 3,
        State::Established => 4,
    }
}

} // verus!
