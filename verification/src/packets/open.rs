//! OPEN: version, my AS, hold time, BGP identifier, and optional parameters.
//! This core emits no optional parameters and skips any it receives.

use vstd::prelude::*;

use crate::bgp_type::{AutonomousSystemNumber, Ipv4Addr};
use crate::error::DecodeError;
use crate::packets::header::{parse_header, u16_bytes, Header, MessageType};
use crate::path_attribute::be16;

verus! {

/// An OPEN message body. Optional parameters are not kept: this core emits
/// none and, per the received header's count, skips over any it is sent.
#[derive(Debug, Clone, Copy, PartialEq, Eq, Structural, Hash)]
pub struct OpenMessage {
    pub version: u8,
    pub my_as_number: AutonomousSystemNumber,
    pub hold_time: u16,
    pub bgp_identifier: Ipv4Addr,
}

impl OpenMessage {
    /// A version-4 OPEN with hold time 0: this core runs no hold or
    /// keepalive timers, and a zero hold time asks the peer for none.
    pub fn new(my_as_number: AutonomousSystemNumber, my_ip_addr: Ipv4Addr) -> (r: Self)
        ensures
            r == (OpenMessage {
                version: 4,
                my_as_number,
                hold_time: 0,
                bgp_identifier: my_ip_addr,
            }),
    {
        OpenMessage { version: 4, my_as_number, hold_time: 0, bgp_identifier: my_ip_addr }
    }

    /// The 29 bytes of this OPEN on the wire: header, fixed body, and a zero
    /// optional-parameter count.
    pub open spec fn spec_encode(self) -> Seq<u8> {
        Header { length: 29, type_: MessageType::Open }.spec_encode() + seq![self.version]
            + u16_bytes(self.my_as_number.0) + u16_bytes(self.hold_time) + seq![
            self.bgp_identifier.o1,
            self.bgp_identifier.o2,
            self.bgp_identifier.o3,
            self.bgp_identifier.o4,
            0u8,
        ]
    }

    pub fn encode_to(&self, out: &mut Vec<u8>)
        ensures
            final(out)@ == old(out)@ + self.spec_encode(),
    {
        let ghost pre = out@;
        let header = Header { length: 29, type_: MessageType::Open };
        header.encode_to(out);
        out.push(self.version);
        out.push((self.my_as_number.0 / 256) as u8);
        out.push((self.my_as_number.0 % 256) as u8);
        out.push((self.hold_time / 256) as u8);
        out.push((self.hold_time % 256) as u8);
        out.push(self.bgp_identifier.o1);
        out.push(self.bgp_identifier.o2);
        out.push(self.bgp_identifier.o3);
        out.push(self.bgp_identifier.o4);
        out.push(0);
        proof {
            assert(out@ =~= pre + self.spec_encode());
        }
    }

    pub fn decode(bytes: &[u8]) -> (r: Result<Self, DecodeError>)
        ensures
            r == parse_open(bytes@),
    {
        let header = match Header::decode(bytes) {
            Ok(h) => h,
            Err(e) => {
                return Err(e);
            },
        };
        if !matches!(header.type_, MessageType::Open) {
            return Err(DecodeError::MalformedOpen);
        }
        if bytes.len() < 29 || header.length as usize != bytes.len() {
            return Err(DecodeError::MalformedOpen);
        }
        if bytes.len() != 29 + bytes[28] as usize {
            return Err(DecodeError::MalformedOpen);
        }
        Ok(
            OpenMessage {
                version: bytes[19],
                my_as_number: AutonomousSystemNumber(
                    (bytes[20] as u16) * 256 + (bytes[21] as u16),
                ),
                hold_time: (bytes[22] as u16) * 256 + (bytes[23] as u16),
                bgp_identifier: Ipv4Addr {
                    o1: bytes[24],
                    o2: bytes[25],
                    o3: bytes[26],
                    o4: bytes[27],
                },
            },
        )
    }
}

/// The meaning of a whole message as an OPEN: a well-formed header of type
/// OPEN whose length covers the fixed body plus the stated optional
/// parameters, which are skipped.
pub open spec fn parse_open(s: Seq<u8>) -> Result<OpenMessage, DecodeError> {
    match parse_header(s) {
        Err(e) => Err(e),
        Ok(h) => if h.type_ != MessageType::Open {
            Err(DecodeError::MalformedOpen)
        } else if s.len() < 29 || h.length as int != s.len() || s.len() != 29 + s[28] as int {
            Err(DecodeError::MalformedOpen)
        } else {
            Ok(
                OpenMessage {
                    version: s[19],
                    my_as_number: AutonomousSystemNumber(be16(s[20], s[21])),
                    hold_time: be16(s[22], s[23]),
                    bgp_identifier: Ipv4Addr { o1: s[24], o2: s[25], o3: s[26], o4: s[27] },
                },
            )
        },
    }
}

/// Decoding undoes encoding for any OPEN.
pub proof fn lemma_parse_open_of_encode(m: OpenMessage)
    ensures
        parse_open(m.spec_encode()) == Ok::<OpenMessage, DecodeError>(m),
{
    let h = Header { length: 29, type_: MessageType::Open };
    let body = seq![m.version] + u16_bytes(m.my_as_number.0) + u16_bytes(m.hold_time) + seq![
        m.bgp_identifier.o1,
        m.bgp_identifier.o2,
        m.bgp_identifier.o3,
        m.bgp_identifier.o4,
        0u8,
    ];
    crate::packets::header::lemma_parse_header_of_encode(h, body);
    let s = m.spec_encode();
    assert(s =~= h.spec_encode() + body);
    assert(s.len() == 29);
    assert(s[28] == 0);
    assert(be16(s[20], s[21]) == m.my_as_number.0);
    assert(be16(s[22], s[23]) == m.hold_time);
}

} // verus!
