//! Plain value types shared across the speaker: 16-bit autonomous system
//! numbers and IPv4 addresses held as four octets.

use vstd::prelude::*;

verus! {

/// A 16-bit autonomous system number (this core does not implement 4-byte ASNs).
#[derive(Debug, Clone, Copy, PartialEq, Eq, Structural, Hash)]
pub struct AutonomousSystemNumber(pub u16);

/// An IPv4 address, kept as its four dotted-quad octets, most significant first.
#[derive(Debug, Clone, Copy, PartialEq, Eq, Structural, Hash)]
pub struct Ipv4Addr {
    pub o1: u8,
    pub o2: u8,
    pub o3: u8,
    pub o4: u8,
}

impl Ipv4Addr {
    pub fn new(o1: u8, o2: u8, o3: u8, o4: u8) -> (r: Self)
        ensures
            r == (Ipv4Addr { o1, o2, o3, o4 }),
    {
        Ipv4Addr { o1, o2, o3, o4 }
    }
}

} // verus!
