//! UPDATE: withdrawn routes, path attributes, and announced NLRI. The two
//! leading lengths are big-endian byte counts; the NLRI fills the remainder.

use vstd::prelude::*;

use crate::error::DecodeError;
use crate::packets::header::{parse_header, u16_bytes, Header, MessageType};
use crate::path_attribute::{
    attr_views, be16, decode_attrs, encode_attrs_to, parse_attrs, PathAttribute,
    PathAttributeView,
};
use crate::path_attribute::{all_attrs_wf, encode_attrs};
use crate::routing::{all_canonical, encode_nlris, encode_nlris_to, parse_nlris, Ipv4Network};

verus! {

/// An UPDATE message: routes withdrawn, the attributes of the announced
/// routes, and the announced prefixes themselves.
#[derive(Debug, Clone, PartialEq, Eq, Hash)]
pub struct UpdateMessage {
    pub withdrawn_routes: Vec<Ipv4Network>,
    pub path_attributes: Vec<PathAttribute>,
    pub network_layer_reachability_information: Vec<Ipv4Network>,
}

/// Mathematical model of an `UpdateMessage`.
pub ghost struct UpdateMessageView {
    pub withdrawn_routes: Seq<Ipv4Network>,
    pub path_attributes: Seq<PathAttributeView>,
    pub nlri: Seq<Ipv4Network>,
}

impl View for UpdateMessage {
    type V = UpdateMessageView;

    open spec fn view(&self) -> UpdateMessageView {
        UpdateMessageView {
            withdrawn_routes: self.withdrawn_routes@,
            path_attributes: attr_views(self.path_attributes@),
            nlri: self.network_layer_reachability_information@,
        }
    }
}

/// The attribute list carries an ORIGIN.
pub open spec fn has_origin(l: Seq<PathAttributeView>) -> bool {
    exists|i: int| 0 <= i < l.len() && (#[trigger] l[i]) is Origin
}

/// The attribute list carries an AS_PATH.
pub open spec fn has_as_path(l: Seq<PathAttributeView>) -> bool {
    exists|i: int| 0 <= i < l.len() && (#[trigger] l[i]) is AsPath
}

/// The attribute list carries a NEXT_HOP.
pub open spec fn has_next_hop(l: Seq<PathAttributeView>) -> bool {
    exists|i: int| 0 <= i < l.len() && (#[trigger] l[i]) is NextHop
}

impl UpdateMessageView {
    /// The three well-known mandatory attributes, required whenever the
    /// message announces routes.
    pub open spec fn has_mandatory_attributes(self) -> bool {
        has_origin(self.path_attributes) && has_as_path(self.path_attributes) && has_next_hop(
            self.path_attributes,
        )
    }

    /// Byte length of the whole encoded message.
    pub open spec fn encoded_len(self) -> int {
        23 + encode_nlris(self.withdrawn_routes).len() + encode_attrs(self.path_attributes).len()
            + encode_nlris(self.nlri).len() as int
    }

    /// Encodable: every prefix within range, every attribute one this core
    /// emits, and the whole message within the 4096-byte cap. The encoder
    /// itself masks host bits, so canonical form is not required here.
    pub open spec fn wf(self) -> bool {
        &&& forall|i: int|
            0 <= i < self.withdrawn_routes.len() ==> (#[trigger] self.withdrawn_routes[i]).wf()
        &&& forall|i: int| 0 <= i < self.nlri.len() ==> (#[trigger] self.nlri[i]).wf()
        &&& all_attrs_wf(self.path_attributes)
        &&& self.encoded_len() <= 4096
    }

    /// As `wf`, with every prefix in canonical form and the mandatory
    /// attributes present when routes are announced, as in every UPDATE
    /// this core builds; decoding then undoes encoding.
    pub open spec fn wf_canonical(self) -> bool {
        &&& self.wf()
        &&& (self.nlri.len() > 0 ==> self.has_mandatory_attributes())
        &&& all_canonical(self.withdrawn_routes)
        &&& all_canonical(self.nlri)
    }

    /// The wire form: header, withdrawn length and routes, attribute length
    /// and attributes, then the NLRI to the end of the message.
    pub open spec fn spec_encode(self) -> Seq<u8> {
        let w = encode_nlris(self.withdrawn_routes);
        let a = encode_attrs(self.path_attributes);
        let n = encode_nlris(self.nlri);
        Header { length: self.encoded_len() as u16, type_: MessageType::Update }.spec_encode()
            + u16_bytes(w.len() as u16) + w + u16_bytes(a.len() as u16) + a + n
    }
}

impl UpdateMessage {
    pub fn encode_to(&self, out: &mut Vec<u8>)
        requires
            self@.wf(),
        ensures
            final(out)@ == old(out)@ + self@.spec_encode(),
    {
        let ghost pre = out@;
        let mut w: Vec<u8> = Vec::new();
        encode_nlris_to(&self.withdrawn_routes, &mut w);
        let mut a: Vec<u8> = Vec::new();
        encode_attrs_to(&self.path_attributes, &mut a);
        let mut n: Vec<u8> = Vec::new();
        encode_nlris_to(&self.network_layer_reachability_information, &mut n);
        let total: usize = 23 + w.len() + a.len() + n.len();
        let header = Header { length: total as u16, type_: MessageType::Update };
        header.encode_to(out);
        let wlen = w.len() as u16;
        out.push((wlen / 256) as u8);
        out.push((wlen % 256) as u8);
        out.append(&mut w);
        let alen = a.len() as u16;
        out.push((alen / 256) as u8);
        out.push((alen % 256) as u8);
        out.append(&mut a);
        out.append(&mut n);
        proof {
            assert(out@ =~= pre + self@.spec_encode());
        }
    }

    pub fn decode(bytes: &[u8]) -> (r: Result<Self, DecodeError>)
        ensures
            match r {
                Ok(m) => parse_update(bytes@) == Ok::<UpdateMessageView, DecodeError>(m@),
                Err(e) => parse_update(bytes@) == Err::<UpdateMessageView, DecodeError>(e),
            },
    {
        let header = match Header::decode(bytes) {
            Ok(h) => h,
            Err(e) => {
                return Err(e);
            },
        };
        if !matches!(header.type_, MessageType::Update) {
            return Err(DecodeError::MalformedUpdate);
        }
        if header.length as usize != bytes.len() || bytes.len() < 23 {
            return Err(DecodeError::MalformedUpdate);
        }
        let len = bytes.len();
        let wlen = (bytes[19] as usize) * 256 + (bytes[20] as usize);
        if 23 + wlen > len {
            return Err(DecodeError::MalformedUpdate);
        }
        let withdrawn = match Ipv4Network::from_u8_slice(
            vstd::slice::slice_subrange(bytes, 21, 21 + wlen),
        ) {
            Ok(v) => v,
            Err(e) => {
                return Err(e);
            },
        };
        let alen = (bytes[21 + wlen] as usize) * 256 + (bytes[22 + wlen] as usize);
        if 23 + wlen + alen > len {
            return Err(DecodeError::MalformedUpdate);
        }
        let attrs = match decode_attrs(
            vstd::slice::slice_subrange(bytes, 23 + wlen, 23 + wlen + alen),
        ) {
            Some(v) => v,
            None => {
                return Err(DecodeError::MalformedUpdate);
            },
        };
        let nlri = match Ipv4Network::from_u8_slice(
            vstd::slice::slice_subrange(bytes, 23 + wlen + alen, len),
        ) {
            Ok(v) => v,
            Err(e) => {
                return Err(e);
            },
        };
        if nlri.len() > 0 {
            let mut seen_origin = false;
            let mut seen_as_path = false;
            let mut seen_next_hop = false;
            let mut i: usize = 0;
            while i < attrs.len()
                invariant
                    i <= attrs@.len(),
                    seen_origin == has_origin(attr_views(attrs@).take(i as int)),
                    seen_as_path == has_as_path(attr_views(attrs@).take(i as int)),
                    seen_next_hop == has_next_hop(attr_views(attrs@).take(i as int)),
                decreases attrs@.len() - i,
            {
                proof {
                    assert(attr_views(attrs@).take(i as int + 1).drop_last() =~= attr_views(
                        attrs@,
                    ).take(i as int));
                    assert(attr_views(attrs@).take(i as int + 1).last() == attrs@[i as int]@);
                }
                match &attrs[i] {
                    PathAttribute::Origin(_) => {
                        seen_origin = true;
                    },
                    PathAttribute::AsPath(_) => {
                        seen_as_path = true;
                    },
                    PathAttribute::NextHop(_) => {
                        seen_next_hop = true;
                    },
                }
                proof {
                    lemma_has_kind_extend(attr_views(attrs@), i as int);
                }
                i = i + 1;
            }
            proof {
                assert(attr_views(attrs@).take(attrs@.len() as int) =~= attr_views(attrs@));
            }
            if !(seen_origin && seen_as_path && seen_next_hop) {
                return Err(DecodeError::MalformedUpdate);
            }
        }
        Ok(
            UpdateMessage {
                withdrawn_routes: withdrawn,
                path_attributes: attrs,
                network_layer_reachability_information: nlri,
            },
        )
    }
}

/// Seeing one more attribute extends the three "carries a kind" predicates
/// by exactly that attribute's kind.
proof fn lemma_has_kind_extend(l: Seq<PathAttributeView>, i: int)
    requires
        0 <= i < l.len(),
    ensures
        has_origin(l.take(i + 1)) == (has_origin(l.take(i)) || l[i] is Origin),
        has_as_path(l.take(i + 1)) == (has_as_path(l.take(i)) || l[i] is AsPath),
        has_next_hop(l.take(i + 1)) == (has_next_hop(l.take(i)) || l[i] is NextHop),
{
    let a = l.take(i);
    let b = l.take(i + 1);
    assert(b.drop_last() =~= a);
    assert(b.last() == l[i]);
    if has_origin(a) {
        let j = choose|j: int| 0 <= j < a.len() && (#[trigger] a[j]) is Origin;
        assert(b[j] is Origin);
    }
    if l[i] is Origin {
        assert(b[i] is Origin);
    }
    if has_origin(b) {
        let j = choose|j: int| 0 <= j < b.len() && (#[trigger] b[j]) is Origin;
        if j < i {
            assert(a[j] is Origin);
        }
    }
    if has_as_path(a) {
        let j = choose|j: int| 0 <= j < a.len() && (#[trigger] a[j]) is AsPath;
        assert(b[j] is AsPath);
    }
    if l[i] is AsPath {
        assert(b[i] is AsPath);
    }
    if has_as_path(b) {
        let j = choose|j: int| 0 <= j < b.len() && (#[trigger] b[j]) is AsPath;
        if j < i {
            assert(a[j] is AsPath);
        }
    }
    if has_next_hop(a) {
        let j = choose|j: int| 0 <= j < a.len() && (#[trigger] a[j]) is NextHop;
        assert(b[j] is NextHop);
    }
    if l[i] is NextHop {
        assert(b[i] is NextHop);
    }
    if has_next_hop(b) {
        let j = choose|j: int| 0 <= j < b.len() && (#[trigger] b[j]) is NextHop;
        if j < i {
            assert(a[j] is NextHop);
        }
    }
}

/// The meaning of a whole message as an UPDATE.
pub open spec fn parse_update(s: Seq<u8>) -> Result<UpdateMessageView, DecodeError> {
    match parse_header(s) {
        Err(e) => Err(e),
        Ok(h) => if h.type_ != MessageType::Update {
            Err(DecodeError::MalformedUpdate)
        } else if h.length as int != s.len() || s.len() < 23 {
            Err(DecodeError::MalformedUpdate)
        } else {
            let wlen = be16(s[19], s[20]) as int;
            if 23 + wlen > s.len() {
                Err(DecodeError::MalformedUpdate)
            } else {
                match parse_nlris(s.subrange(21, 21 + wlen)) {
                    None => Err(DecodeError::MalformedNlri),
                    Some(withdrawn) => {
                        let alen = be16(s[21 + wlen], s[22 + wlen]) as int;
                        if 23 + wlen + alen > s.len() {
                            Err(DecodeError::MalformedUpdate)
                        } else {
                            match parse_attrs(s.subrange(23 + wlen, 23 + wlen + alen)) {
                                None => Err(DecodeError::MalformedUpdate),
                                Some(attrs) => match parse_nlris(
                                    s.subrange(23 + wlen + alen, s.len() as int),
                                ) {
                                    None => Err(DecodeError::MalformedNlri),
                                    Some(nlri) => {
                                        let m = UpdateMessageView {
                                            withdrawn_routes: withdrawn,
                                            path_attributes: attrs,
                                            nlri,
                                        };
                                        if nlri.len() > 0 && !m.has_mandatory_attributes() {
                                            Err(DecodeError::MalformedUpdate)
                                        } else {
                                            Ok(m)
                                        }
                                    },
                                },
                            }
                        }
                    },
                }
            }
        },
    }
}

/// Decoding undoes encoding for a well-formed UPDATE whose prefixes are in
/// canonical form.
#[verifier::rlimit(100)]
#[verifier::spinoff_prover]
pub proof fn lemma_parse_update_of_encode(m: UpdateMessageView)
    requires
        m.wf_canonical(),
    ensures
        parse_update(m.spec_encode()) == Ok::<UpdateMessageView, DecodeError>(m),
{
    let w = encode_nlris(m.withdrawn_routes);
    let a = encode_attrs(m.path_attributes);
    let n = encode_nlris(m.nlri);
    let total = m.encoded_len();
    let h = Header { length: total as u16, type_: MessageType::Update };
    let body = u16_bytes(w.len() as u16) + w + u16_bytes(a.len() as u16) + a + n;
    let s = m.spec_encode();
    assert(s =~= h.spec_encode() + body);
    crate::packets::header::lemma_parse_header_of_encode(h, body);
    assert(s.len() == total);
    assert(s[19] == (w.len() as int / 256) as u8);
    assert(s[20] == (w.len() as int % 256) as u8);
    assert(be16(s[19], s[20]) == w.len());
    let wlen = w.len() as int;
    assert(s.subrange(21, 21 + wlen) =~= w);
    crate::routing::lemma_parse_nlris_of_encode(m.withdrawn_routes);
    assert(s[21 + wlen] == (a.len() as int / 256) as u8);
    assert(s[22 + wlen] == (a.len() as int % 256) as u8);
    assert(be16(s[21 + wlen], s[22 + wlen]) == a.len());
    let alen = a.len() as int;
    assert(s.subrange(23 + wlen, 23 + wlen + alen) =~= a);
    crate::path_attribute::lemma_parse_attrs_of_encode(m.path_attributes);
    assert(s.subrange(23 + wlen + alen, s.len() as int) =~= n);
    crate::routing::lemma_parse_nlris_of_encode(m.nlri);
}

} // verus!
