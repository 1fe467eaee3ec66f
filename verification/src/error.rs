//! Error kinds of the speaker's own logic. Transport errors (connect, send,
//! receive) belong to the unverified shell that owns the sockets.

use vstd::prelude::*;

verus! {

/// Why a byte sequence failed to decode into a BGP structural unit or message.
///
/// `NotificationReceived` is not a malformed-input case: a NOTIFICATION is
/// decoded at the header level only, and its sole effect in this core is to
/// terminate the session, which the caller does on any decode error.
#[derive(Debug, Clone, Copy, PartialEq, Eq, Structural, Hash)]
pub enum DecodeError {
    MalformedHeader,
    MalformedNlri,
    MalformedOpen,
    MalformedUpdate,
    NotificationReceived,
}

/// A prefix length above 32 was handed to `Ipv4Network::new`.
#[derive(Debug, Clone, Copy, PartialEq, Eq, Structural, Hash)]
pub struct ConstructIpv4NetworkError;

/// The peer configuration line could not be parsed.
#[derive(Debug, Clone, Copy, PartialEq, Eq, Structural, Hash)]
pub struct ConfigParseError;

} // verus!
