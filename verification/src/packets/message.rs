//! The three message kinds this core speaks, their shared wire entry points,
//! and the round-trip law that decoding undoes encoding.

use vstd::prelude::*;

use crate::bgp_type::{AutonomousSystemNumber, Ipv4Addr};
use crate::error::DecodeError;
use crate::packets::header::{parse_header, Header, MessageType};
use crate::packets::keepalive::{parse_keepalive, KeepaliveMessage};
use crate::packets::open::{parse_open, OpenMessage};
use crate::packets::update::{parse_update, UpdateMessage, UpdateMessageView};

verus! {

/// A whole BGP message of one of the kinds this core exchanges.
#[derive(Debug, Clone, PartialEq, Eq, Hash)]
pub enum Message {
    Open(OpenMessage),
    Keepalive(KeepaliveMessage),
    Update(UpdateMessage),
}

/// Mathematical model of a `Message`.
pub ghost enum MessageView {
    Open(OpenMessage),
    Keepalive(KeepaliveMessage),
    Update(UpdateMessageView),
}

impl View for Message {
    type V = MessageView;

    open spec fn view(&self) -> MessageView {
        match self {
            Message::Open(m) => MessageView::Open(*m),
            Message::Keepalive(m) => MessageView::Keepalive(*m),
            Message::Update(m) => MessageView::Update(m@),
        }
    }
}

impl MessageView {
    /// Encodable: within the wire format's size limits.
    pub open spec fn wf(self) -> bool {
        match self {
            MessageView::Open(_) => true,
            MessageView::Keepalive(_) => true,
            MessageView::Update(u) => u.wf(),
        }
    }

    /// As every message this core builds: encodable, and for an UPDATE with
    /// canonical prefixes and the mandatory attributes; decoding then
    /// undoes encoding.
    pub open spec fn wf_canonical(self) -> bool {
        match self {
            MessageView::Open(_) => true,
            MessageView::Keepalive(_) => true,
            MessageView::Update(u) => u.wf_canonical(),
        }
    }

    /// The message's wire form.
    pub open spec fn spec_encode(self) -> Seq<u8> {
        match self {
            MessageView::Open(m) => m.spec_encode(),
            MessageView::Keepalive(m) => m.spec_encode(),
            MessageView::Update(u) => u.spec_encode(),
        }
    }
}

/// The meaning of a framed byte sequence as a message, dispatched on the
/// header's type code. A NOTIFICATION is accepted at the header level only:
/// its only effect in this core is to end the session, so it surfaces as the
/// `NotificationReceived` outcome.
pub open spec fn parse_message(s: Seq<u8>) -> Result<MessageView, DecodeError> {
    match parse_header(s) {
        Err(e) => Err(e),
        Ok(h) => match h.type_ {
            MessageType::Open => match parse_open(s) {
                Ok(m) => Ok(MessageView::Open(m)),
                Err(e) => Err(e),
            },
            MessageType::Keepalive => match parse_keepalive(s) {
                Ok(m) => Ok(MessageView::Keepalive(m)),
                Err(e) => Err(e),
            },
            MessageType::Update => match parse_update(s) {
                Ok(m) => Ok(MessageView::Update(m)),
                Err(e) => Err(e),
            },
            MessageType::Notification => Err(DecodeError::NotificationReceived),
        },
    }
}

impl Message {
    pub fn new_open(my_as_number: AutonomousSystemNumber, my_ip_addr: Ipv4Addr) -> (r: Self)
        ensures
            r == Message::Open(
                OpenMessage {
                    version: 4,
                    my_as_number,
                    hold_time: 0,
                    bgp_identifier: my_ip_addr,
                },
            ),
    {
        Message::Open(OpenMessage::new(my_as_number, my_ip_addr))
    }

    pub fn new_keepalive() -> (r: Self)
        ensures
            r == Message::Keepalive(KeepaliveMessage),
    {
        Message::Keepalive(KeepaliveMessage::new())
    }

    /// The message's wire form.
    pub fn encode(&self) -> (r: Vec<u8>)
        requires
            self@.wf(),
        ensures
            r@ == self@.spec_encode(),
    {
        let mut out: Vec<u8> = Vec::new();
        match self {
            Message::Open(m) => m.encode_to(&mut out),
            Message::Keepalive(m) => m.encode_to(&mut out),
            Message::Update(m) => m.encode_to(&mut out),
        }
        out
    }

    /// Decodes one framed message.
    pub fn decode(bytes: &[u8]) -> (r: Result<Self, DecodeError>)
        ensures
            match r {
                Ok(m) => parse_message(bytes@) == Ok::<MessageView, DecodeError>(m@),
                Err(e) => parse_message(bytes@) == Err::<MessageView, DecodeError>(e),
            },
    {
        let header = match Header::decode(bytes) {
            Ok(h) => h,
            Err(e) => {
                return Err(e);
            },
        };
        match header.type_ {
            MessageType::Open => match OpenMessage::decode(bytes) {
                Ok(m) => Ok(Message::Open(m)),
                Err(e) => Err(e),
            },
            MessageType::Keepalive => match KeepaliveMessage::decode(bytes) {
                Ok(m) => Ok(Message::Keepalive(m)),
                Err(e) => Err(e),
            },
            MessageType::Update => match UpdateMessage::decode(bytes) {
                Ok(m) => Ok(Message::Update(m)),
                Err(e) => Err(e),
            },
            MessageType::Notification => Err(DecodeError::NotificationReceived),
        }
    }
}

/// Round-trip law: decoding undoes encoding for every message this core
/// builds.
#[verifier::rlimit(60)]
pub proof fn lemma_message_round_trip(m: MessageView)
    requires
        m.wf_canonical(),
    ensures
        parse_message(m.spec_encode()) == Ok::<MessageView, DecodeError>(m),
{
    match m {
        MessageView::Open(o) => {
            let h = Header { length: 29, type_: MessageType::Open };
            let s = o.spec_encode();
            crate::packets::header::lemma_parse_header_of_encode(
                h,
                s.subrange(19, s.len() as int),
            );
            assert(h.spec_encode() + s.subrange(19, s.len() as int) =~= s);
            crate::packets::open::lemma_parse_open_of_encode(o);
        },
        MessageView::Keepalive(k) => {
            let h = Header { length: 19, type_: MessageType::Keepalive };
            crate::packets::header::lemma_parse_header_of_encode(h, Seq::empty());
            assert(h.spec_encode() + Seq::<u8>::empty() =~= k.spec_encode());
            crate::packets::keepalive::lemma_parse_keepalive_of_encode(k);
        },
        MessageView::Update(u) => {
            let h = Header { length: u.encoded_len() as u16, type_: MessageType::Update };
            let s = u.spec_encode();
            crate::packets::header::lemma_parse_header_of_encode(
                h,
                s.subrange(19, s.len() as int),
            );
            assert(h.spec_encode() + s.subrange(19, s.len() as int) =~= s);
            crate::packets::update::lemma_parse_update_of_encode(u);
        },
    }
}

/// Framing law: in every well-formed message's wire form, the header's length
/// field equals the byte length of the whole encoded message.
pub proof fn lemma_header_length_is_encoded_length(m: MessageView)
    requires
        m.wf(),
    ensures
        m.spec_encode().len() >= 19,
        crate::path_attribute::be16(m.spec_encode()[16], m.spec_encode()[17])
            == m.spec_encode().len(),
{
    match m {
        MessageView::Open(o) => {
            assert(m.spec_encode().len() == 29);
            assert(m.spec_encode()[16] == (29int / 256) as u8);
            assert(m.spec_encode()[17] == (29int % 256) as u8);
        },
        MessageView::Keepalive(k) => {
            assert(m.spec_encode().len() == 19);
            assert(m.spec_encode()[16] == (19int / 256) as u8);
            assert(m.spec_encode()[17] == (19int % 256) as u8);
        },
        MessageView::Update(u) => {
            let total = u.encoded_len();
            assert(m.spec_encode().len() == total);
            assert(m.spec_encode()[16] == (total / 256) as u8);
            assert(m.spec_encode()[17] == (total % 256) as u8);
        },
    }
}

} // verus!
