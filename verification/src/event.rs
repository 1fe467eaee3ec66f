//! Events that drive one peer's session automaton.

use vstd::prelude::*;

use crate::packets::keepalive::KeepaliveMessage;
use crate::packets::open::OpenMessage;
use crate::packets::update::UpdateMessage;

verus! {

/// One event for the per-peer finite-state machine: an operator action, a
/// transport outcome, a decoded inbound message, or a table-change notice.
#[derive(Debug, Clone, PartialEq, Eq, Hash)]
pub enum Event {
    ManualStart,
    TcpConnectionConfirmed,
    BgpOpen(OpenMessage),
    KeepAliveMsg(KeepaliveMessage),
    UpdateMsg(UpdateMessage),
    Established,
    LocRibChanged,
    AdjRibInChanged,
    AdjRibOutChanged,
}

} // verus!
