//! The 19-byte BGP common header: a 16-byte all-ones marker, a big-endian
//! total length covering header and body (19..=4096), and a type byte.

use vstd::prelude::*;

use crate::error::DecodeError;
use crate::path_attribute::be16;

verus! {

/// BGP message type, wire codes 1 OPEN, 2 UPDATE, 3 NOTIFICATION, 4 KEEPALIVE.
#[derive(Debug, Clone, Copy, PartialEq, Eq, Structural, Hash)]
pub enum MessageType {
    Open,
    Update,
    Notification,
    Keepalive,
}

/// The common header's variable content; the marker is fixed.
#[derive(Debug, Clone, Copy, PartialEq, Eq, Structural, Hash)]
pub struct Header {
    pub length: u16,
    pub type_: MessageType,
}

pub open spec fn type_code(t: MessageType) -> u8 {
    match t {
        MessageType::Open => 1,
        MessageType::Update => 2,
        MessageType::Notification => 3,
        MessageType::Keepalive => 4,
    }
}

/// The two big-endian bytes of a 16-bit value.
pub open spec fn u16_bytes(x: u16) -> Seq<u8> {
    seq![(x as int / 256) as u8, (x as int % 256) as u8]
}

/// The fixed all-ones marker.
pub open spec fn marker() -> Seq<u8> {
    Seq::new(16, |i: int| 0xFFu8)
}

impl Header {
    /// The length field must cover at least the header and at most the
    /// largest BGP message.
    pub open spec fn wf(self) -> bool {
        19 <= self.length <= 4096
    }

    /// The 19 header bytes: marker, length, type.
    pub open spec fn spec_encode(self) -> Seq<u8> {
        marker() + u16_bytes(self.length) + seq![type_code(self.type_)]
    }

    /// Appends the 19 header bytes to `out`.
    pub fn encode_to(&self, out: &mut Vec<u8>)
        ensures
            final(out)@ == old(out)@ + self.spec_encode(),
    {
        let ghost pre = out@;
        let mut i: usize = 0;
        while i < 16
            invariant
                i <= 16,
                out@ == pre + marker().take(i as int),
            decreases 16 - i,
        {
            out.push(0xFFu8);
            proof {
                assert(marker().take(i as int).push(0xFFu8) =~= marker().take(i as int + 1));
            }
            i = i + 1;
        }
        out.push((self.length / 256) as u8);
        out.push((self.length % 256) as u8);
        out.push(
            match self.type_ {
                MessageType::Open => 1,
                MessageType::Update => 2,
                MessageType::Notification => 3,
                MessageType::Keepalive => 4,
            },
        );
        proof {
            assert(marker().take(16) =~= marker());
            assert(out@ =~= pre + self.spec_encode());
        }
    }

    /// Decodes the common header from the front of `bytes`.
    pub fn decode(bytes: &[u8]) -> (r: Result<Self, DecodeError>)
        ensures
            r == parse_header(bytes@),
    {
        if bytes.len() < 19 {
            return Err(DecodeError::MalformedHeader);
        }
        let mut i: usize = 0;
        while i < 16
            invariant
                i <= 16,
                bytes@.len() >= 19,
                forall|j: int| 0 <= j < i ==> bytes@[j] == 0xFFu8,
            decreases 16 - i,
        {
            if bytes[i] != 0xFF {
                return Err(DecodeError::MalformedHeader);
            }
            i = i + 1;
        }
        let length: u16 = (bytes[16] as u16) * 256 + (bytes[17] as u16);
        if length < 19 || length > 4096 {
            return Err(DecodeError::MalformedHeader);
        }
        let t = bytes[18];
        if t == 1 {
            Ok(Header { length, type_: MessageType::Open })
        } else if t == 2 {
            Ok(Header { length, type_: MessageType::Update })
        } else if t == 3 {
            Ok(Header { length, type_: MessageType::Notification })
        } else if t == 4 {
            Ok(Header { length, type_: MessageType::Keepalive })
        } else {
            Err(DecodeError::MalformedHeader)
        }
    }
}

/// The meaning of the first 19 bytes as a common header: rejected when short,
/// when any marker bit is cleared, when the length lies outside 19..=4096, or
/// when the type code is unknown.
pub open spec fn parse_header(s: Seq<u8>) -> Result<Header, DecodeError> {
    if s.len() < 19 {
        Err(DecodeError::MalformedHeader)
    } else if exists|j: int| 0 <= j < 16 && s[j] != 0xFFu8 {
        Err(DecodeError::MalformedHeader)
    } else {
        let length = be16(s[16], s[17]);
        if length < 19 || length > 4096 {
            Err(DecodeError::MalformedHeader)
        } else if s[18] == 1 {
            Ok(Header { length, type_: MessageType::Open })
        } else if s[18] == 2 {
            Ok(Header { length, type_: MessageType::Update })
        } else if s[18] == 3 {
            Ok(Header { length, type_: MessageType::Notification })
        } else if s[18] == 4 {
            Ok(Header { length, type_: MessageType::Keepalive })
        } else {
            Err(DecodeError::MalformedHeader)
        }
    }
}

/// Decoding undoes encoding for a well-formed header, whatever follows it.
pub proof fn lemma_parse_header_of_encode(h: Header, rest: Seq<u8>)
    requires
        h.wf(),
    ensures
        parse_header(h.spec_encode() + rest) == Ok::<Header, DecodeError>(h),
{
    let s = h.spec_encode() + rest;
    assert(s.len() >= 19);
    assert forall|j: int| 0 <= j < 16 implies s[j] == 0xFFu8 by {
        assert(s[j] == marker()[j]);
    }
    assert(s[16] == (h.length as int / 256) as u8);
    assert(s[17] == (h.length as int % 256) as u8);
    assert(be16(s[16], s[17]) == h.length);
    assert(s[18] == type_code(h.type_));
}

} // verus!
