//! A minimal BGP-4 speaker: the wire codec for OPEN, KEEPALIVE and UPDATE,
//! the length-prefix framing over a byte stream, the routing information
//! bases with their change propagation and loop avoidance, and the per-peer
//! session automaton. TCP and kernel interaction live with the caller, which
//! performs the actions each automaton step hands back.

pub mod bgp_type;
pub mod config;
pub mod error;
pub mod event;
pub mod event_queue;
pub mod framing;
pub mod packets;
pub mod path_attribute;
pub mod peer;
pub mod routing;
pub mod state;
