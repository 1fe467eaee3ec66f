//! KEEPALIVE: a message that is nothing but the common header, length 19.

use vstd::prelude::*;

use crate::error::DecodeError;
use crate::packets::header::{parse_header, Header, MessageType};

verus! {

/// A KEEPALIVE message carries no body.
#[derive(Debug, Clone, Copy, PartialEq, Eq, Structural, Hash)]
pub struct KeepaliveMessage;

impl KeepaliveMessage {
    pub fn new() -> (r: Self)
        ensures
            r == KeepaliveMessage,
    {
        KeepaliveMessage
    }

    /// The 19 bytes of a KEEPALIVE on the wire.
    pub open spec fn spec_encode(self) -> Seq<u8> {
        Header { length: 19, type_: MessageType::Keepalive }.spec_encode()
    }

    pub fn encode_to(&self, out: &mut Vec<u8>)
        ensures
            final(out)@ == old(out)@ + self.spec_encode(),
    {
        let header = Header { length: 19, type_: MessageType::Keepalive };
        header.encode_to(out);
    }

    pub fn decode(bytes: &[u8]) -> (r: Result<Self, DecodeError>)
        ensures
            r == parse_keepalive(bytes@),
    {
        let header = match Header::decode(bytes) {
            Ok(h) => h,
            Err(e) => {
                return Err(e);
            },
        };
        if !(matches!(header.type_, MessageType::Keepalive) && header.length == 19 && bytes.len()
            == 19) {
            return Err(DecodeError::MalformedHeader);
        }
        Ok(KeepaliveMessage)
    }
}

/// The meaning of a whole message as a KEEPALIVE: header and nothing more.
pub open spec fn parse_keepalive(s: Seq<u8>) -> Result<KeepaliveMessage, DecodeError> {
    match parse_header(s) {
        Err(e) => Err(e),
        Ok(h) => if h.type_ == MessageType::Keepalive && h.length == 19 && s.len() == 19 {
            Ok(KeepaliveMessage)
        } else {
            Err(DecodeError::MalformedHeader)
        },
    }
}

/// Decoding undoes encoding for a KEEPALIVE.
pub proof fn lemma_parse_keepalive_of_encode(m: KeepaliveMessage)
    ensures
        parse_keepalive(m.spec_encode()) == Ok::<KeepaliveMessage, DecodeError>(m),
{
    let h = Header { length: 19, type_: MessageType::Keepalive };
    crate::packets::header::lemma_parse_header_of_encode(h, Seq::empty());
    assert(h.spec_encode() + Seq::<u8>::empty() =~= m.spec_encode());
}

} // verus!
