//! BGP path attributes (ORIGIN, AS_PATH, NEXT_HOP) and their wire form:
//! `flags(1) | type(1) | length(1 or 2) | value(length)`.

use vstd::prelude::*;

use crate::bgp_type::{AutonomousSystemNumber, Ipv4Addr};

verus! {

/// ORIGIN attribute value, wire codes 0, 1, 2.
#[derive(Debug, Clone, Copy, PartialEq, Eq, Structural, Hash)]
pub enum Origin {
    Igp,
    Egp,
    Incomplete,
}

/// AS_PATH attribute: one path segment, an ordered AS_SEQUENCE or an AS_SET.
/// This core emits a single AS_SEQUENCE.
#[derive(Debug, PartialEq, Eq, Hash)]
pub enum AsPath {
    AsSequence(Vec<AutonomousSystemNumber>),
    AsSet(Vec<AutonomousSystemNumber>),
}

/// A path attribute of the kinds this core requires.
#[derive(Debug, PartialEq, Eq, Hash)]
pub enum PathAttribute {
    Origin(Origin),
    AsPath(AsPath),
    NextHop(Ipv4Addr),
}

/// Mathematical model of an `AsPath`.
pub ghost enum AsPathView {
    AsSequence(Seq<AutonomousSystemNumber>),
    AsSet(Seq<AutonomousSystemNumber>),
}

/// Mathematical model of a `PathAttribute`.
pub ghost enum PathAttributeView {
    Origin(Origin),
    AsPath(AsPathView),
    NextHop(Ipv4Addr),
}

impl View for AsPath {
    type V = AsPathView;

    open spec fn view(&self) -> AsPathView {
        match self {
            AsPath::AsSequence(v) => AsPathView::AsSequence(v@),
            AsPath::AsSet(v) => AsPathView::AsSet(v@),
        }
    }
}

impl View for PathAttribute {
    type V = PathAttributeView;

    open spec fn view(&self) -> PathAttributeView {
        match self {
            PathAttribute::Origin(o) => PathAttributeView::Origin(*o),
            PathAttribute::AsPath(p) => PathAttributeView::AsPath(p@),
            PathAttribute::NextHop(ip) => PathAttributeView::NextHop(*ip),
        }
    }
}

/// The 16-bit value carried big-endian in two bytes.
pub open spec fn be16(hi: u8, lo: u8) -> u16 {
    (hi as int * 256 + lo as int) as u16
}

/// The ASNs carried as consecutive big-endian 16-bit values.
pub open spec fn asns_of(s: Seq<u8>) -> Seq<AutonomousSystemNumber> {
    Seq::new((s.len() / 2) as nat, |k: int| AutonomousSystemNumber(be16(s[2 * k], s[2 * k + 1])))
}

/// The big-endian byte form of a list of ASNs.
pub open spec fn encode_asns(l: Seq<AutonomousSystemNumber>) -> Seq<u8> {
    Seq::new(
        (2 * l.len()) as nat,
        |i: int|
            if i % 2 == 0 {
                (l[i / 2].0 as int / 256) as u8
            } else {
                (l[i / 2].0 as int % 256) as u8
            },
    )
}

pub open spec fn origin_code(o: Origin) -> u8 {
    match o {
        Origin::Igp => 0,
        Origin::Egp => 1,
        Origin::Incomplete => 2,
    }
}

impl AsPathView {
    /// The ASNs of the segment, in order.
    pub open spec fn asns(self) -> Seq<AutonomousSystemNumber> {
        match self {
            AsPathView::AsSequence(v) => v,
            AsPathView::AsSet(v) => v,
        }
    }

    /// Wire segment type: 1 for AS_SET, 2 for AS_SEQUENCE.
    pub open spec fn segment_type(self) -> u8 {
        match self {
            AsPathView::AsSequence(_) => 2,
            AsPathView::AsSet(_) => 1,
        }
    }

    /// Fits a one-segment attribute with a one-byte length field.
    pub open spec fn wf(self) -> bool {
        self.asns().len() <= 126
    }

    /// Whether the path mentions `asn`.
    pub open spec fn contains_asn(self, asn: AutonomousSystemNumber) -> bool {
        self.asns().contains(asn)
    }
}

impl AsPath {
    pub fn does_contain(&self, asn: AutonomousSystemNumber) -> (r: bool)
        ensures
            r == self@.contains_asn(asn),
    {
        let v = match self {
            AsPath::AsSequence(v) => v,
            AsPath::AsSet(v) => v,
        };
        let mut i: usize = 0;
        while i < v.len()
            invariant
                i <= v@.len(),
                v@ == self@.asns(),
                forall|j: int| 0 <= j < i ==> v@[j] != asn,
            decreases v@.len() - i,
        {
            if v[i].0 == asn.0 {
                return true;
            }
            i = i + 1;
        }
        false
    }
}

/// A copy of the ASN list, element for element.
fn clone_asns(v: &Vec<AutonomousSystemNumber>) -> (r: Vec<AutonomousSystemNumber>)
    ensures
        r@ == v@,
{
    let mut out: Vec<AutonomousSystemNumber> = Vec::new();
    let mut i: usize = 0;
    while i < v.len()
        invariant
            i <= v@.len(),
            out@ == v@.take(i as int),
        decreases v@.len() - i,
    {
        out.push(v[i]);
        proof {
            assert(v@.take(i as int).push(v@[i as int]) =~= v@.take(i as int + 1));
        }
        i = i + 1;
    }
    proof {
        assert(v@.take(v@.len() as int) =~= v@);
    }
    out
}

impl Clone for AsPath {
    fn clone(&self) -> (r: Self)
        ensures
            r@ == self@,
    {
        match self {
            AsPath::AsSequence(v) => AsPath::AsSequence(clone_asns(v)),
            AsPath::AsSet(v) => AsPath::AsSet(clone_asns(v)),
        }
    }
}

impl Clone for PathAttribute {
    fn clone(&self) -> (r: Self)
        ensures
            r@ == self@,
    {
        match self {
            PathAttribute::Origin(o) => PathAttribute::Origin(*o),
            PathAttribute::AsPath(p) => PathAttribute::AsPath(p.clone()),
            PathAttribute::NextHop(ip) => PathAttribute::NextHop(*ip),
        }
    }
}

/// The path with `asn` put in front, keeping the segment kind.
pub open spec fn prepend_asn(asn: AutonomousSystemNumber, p: AsPathView) -> AsPathView {
    match p {
        AsPathView::AsSequence(v) => AsPathView::AsSequence(seq![asn] + v),
        AsPathView::AsSet(v) => AsPathView::AsSet(seq![asn] + v),
    }
}

impl AsPath {
    /// A copy of this path with `asn` put in front.
    pub fn prepend(&self, asn: AutonomousSystemNumber) -> (r: Self)
        ensures
            r@ == prepend_asn(asn, self@),
    {
        let v = match self {
            AsPath::AsSequence(v) => v,
            AsPath::AsSet(v) => v,
        };
        let mut out: Vec<AutonomousSystemNumber> = Vec::new();
        out.push(asn);
        let mut i: usize = 0;
        while i < v.len()
            invariant
                i <= v@.len(),
                out@ == seq![asn] + v@.take(i as int),
            decreases v@.len() - i,
        {
            out.push(v[i]);
            proof {
                assert((seq![asn] + v@.take(i as int)).push(v@[i as int]) =~= seq![asn] + v@.take(
                    i as int + 1,
                ));
            }
            i = i + 1;
        }
        proof {
            assert(v@.take(v@.len() as int) =~= v@);
        }
        match self {
            AsPath::AsSequence(_) => AsPath::AsSequence(out),
            AsPath::AsSet(_) => AsPath::AsSet(out),
        }
    }

    /// Whether two paths are the same segment kind with the same ASNs.
    pub fn equals(&self, other: &Self) -> (r: bool)
        ensures
            r == (self@ == other@),
    {
        match (self, other) {
            (AsPath::AsSequence(a), AsPath::AsSequence(b)) => asn_vec_eq(a, b),
            (AsPath::AsSet(a), AsPath::AsSet(b)) => asn_vec_eq(a, b),
            (AsPath::AsSequence(_), AsPath::AsSet(_)) => false,
            (AsPath::AsSet(_), AsPath::AsSequence(_)) => false,
        }
    }
}

/// Whether two ASN lists hold the same numbers in the same order.
fn asn_vec_eq(a: &Vec<AutonomousSystemNumber>, b: &Vec<AutonomousSystemNumber>) -> (r: bool)
    ensures
        r == (a@ == b@),
{
    if a.len() != b.len() {
        return false;
    }
    let mut i: usize = 0;
    while i < a.len()
        invariant
            i <= a@.len(),
            a@.len() == b@.len(),
            forall|j: int| 0 <= j < i ==> a@[j] == b@[j],
        decreases a@.len() - i,
    {
        if a[i].0 != b[i].0 {
            return false;
        }
        i = i + 1;
    }
    proof {
        assert(a@ =~= b@);
    }
    true
}

impl PathAttribute {
    /// Whether two attributes are equal, field for field.
    pub fn equals(&self, other: &Self) -> (r: bool)
        ensures
            r == (self@ == other@),
    {
        match (self, other) {
            (PathAttribute::Origin(a), PathAttribute::Origin(b)) => matches!(
                (a, b),
                (Origin::Igp, Origin::Igp) | (Origin::Egp, Origin::Egp) | (
                    Origin::Incomplete,
                    Origin::Incomplete,
                )
            ),
            (PathAttribute::AsPath(a), PathAttribute::AsPath(b)) => a.equals(b),
            (PathAttribute::NextHop(a), PathAttribute::NextHop(b)) => a.o1 == b.o1 && a.o2 == b.o2
                && a.o3 == b.o3 && a.o4 == b.o4,
            _ => false,
        }
    }
}

impl PathAttributeView {
    /// Wire attribute type code: ORIGIN 1, AS_PATH 2, NEXT_HOP 3.
    pub open spec fn type_code(self) -> u8 {
        match self {
            PathAttributeView::Origin(_) => 1,
            PathAttributeView::AsPath(_) => 2,
            PathAttributeView::NextHop(_) => 3,
        }
    }

    /// The attribute's value bytes.
    pub open spec fn value_bytes(self) -> Seq<u8> {
        match self {
            PathAttributeView::Origin(o) => seq![origin_code(o)],
            PathAttributeView::AsPath(p) => seq![p.segment_type(), p.asns().len() as u8]
                + encode_asns(p.asns()),
            PathAttributeView::NextHop(ip) => seq![ip.o1, ip.o2, ip.o3, ip.o4],
        }
    }

    /// The whole attribute on the wire: flags 0x40 (well-known transitive),
    /// type code, one-byte length, value.
    pub open spec fn encoded(self) -> Seq<u8> {
        seq![0x40u8, self.type_code(), self.value_bytes().len() as u8] + self.value_bytes()
    }

    pub open spec fn wf(self) -> bool {
        match self {
            PathAttributeView::AsPath(p) => p.wf(),
            _ => true,
        }
    }
}

impl PathAttribute {
    pub open spec fn wf(self) -> bool {
        self@.wf()
    }

    /// Appends the wire form of this attribute to `out`.
    pub fn encode_to(&self, out: &mut Vec<u8>)
        requires
            self.wf(),
        ensures
            final(out)@ == old(out)@ + self@.encoded(),
    {
        let ghost pre = out@;
        out.push(0x40u8);
        match self {
            PathAttribute::Origin(o) => {
                out.push(1);
                out.push(1);
                out.push(
                    match o {
                        Origin::Igp => 0,
                        Origin::Egp => 1,
                        Origin::Incomplete => 2,
                    },
                );
            },
            PathAttribute::AsPath(p) => {
                let (seg_type, asns): (u8, &Vec<AutonomousSystemNumber>) = match p {
                    AsPath::AsSequence(v) => (2u8, v),
                    AsPath::AsSet(v) => (1u8, v),
                };
                let count = asns.len();
                out.push(2);
                out.push((2 + 2 * count) as u8);
                out.push(seg_type);
                out.push(count as u8);
                let ghost mid = out@;
                let mut k: usize = 0;
                while k < count
                    invariant
                        k <= count,
                        count == asns@.len(),
                        asns@ == p@.asns(),
                        count <= 126,
                        out@.len() == mid.len() + 2 * k,
                        mid == out@.take(mid.len() as int),
                        forall|j: int|
                            0 <= j < 2 * k ==> out@[mid.len() + j] == encode_asns(p@.asns())[j],
                    decreases count - k,
                {
                    let asn = asns[k].0;
                    out.push((asn / 256) as u8);
                    out.push((asn % 256) as u8);
                    k = k + 1;
                }
                proof {
                    assert(out@ =~= mid + encode_asns(p@.asns()));
                }
            },
            PathAttribute::NextHop(ip) => {
                out.push(3);
                out.push(4);
                out.push(ip.o1);
                out.push(ip.o2);
                out.push(ip.o3);
                out.push(ip.o4);
            },
        }
        proof {
            assert(out@ =~= pre + self@.encoded());
        }
    }
}

/// The meaning of the head of a byte sequence as one path attribute: the
/// attribute and the number of bytes it occupies, or `None` where the header,
/// length, or value is malformed or the type code is not one this core knows.
pub open spec fn parse_attr(s: Seq<u8>) -> Option<(PathAttributeView, int)> {
    if s.len() < 3 {
        None
    } else {
        let flags = s[0];
        let code = s[1];
        let ext = (flags as int / 16) % 2 == 1;
        let hdr: int = if ext {
            4
        } else {
            3
        };
        if s.len() < hdr {
            None
        } else {
            let vlen: int = if ext {
                be16(s[2], s[3]) as int
            } else {
                s[2] as int
            };
            if s.len() < hdr + vlen {
                None
            } else {
                match parse_attr_value(code, s.subrange(hdr, hdr + vlen)) {
                    Some(a) => Some((a, hdr + vlen)),
                    None => None,
                }
            }
        }
    }
}

/// The meaning of an attribute's value bytes, by type code.
pub open spec fn parse_attr_value(code: u8, v: Seq<u8>) -> Option<PathAttributeView> {
    if code == 1 {
        if v.len() == 1 && v[0] <= 2 {
            Some(
                PathAttributeView::Origin(
                    if v[0] == 0 {
                        Origin::Igp
                    } else if v[0] == 1 {
                        Origin::Egp
                    } else {
                        Origin::Incomplete
                    },
                ),
            )
        } else {
            None
        }
    } else if code == 2 {
        match parse_as_path(v) {
            Some(p) => Some(PathAttributeView::AsPath(p)),
            None => None,
        }
    } else if code == 3 {
        if v.len() == 4 {
            Some(PathAttributeView::NextHop(Ipv4Addr { o1: v[0], o2: v[1], o3: v[2], o4: v[3] }))
        } else {
            None
        }
    } else {
        None
    }
}

/// The meaning of an AS_PATH value: empty means an empty AS_SEQUENCE,
/// otherwise exactly one segment must fill the value.
pub open spec fn parse_as_path(v: Seq<u8>) -> Option<AsPathView> {
    if v.len() == 0 {
        Some(AsPathView::AsSequence(Seq::empty()))
    } else if v.len() >= 2 && (v[0] == 1 || v[0] == 2) && v.len() == 2 + 2 * (v[1] as int) {
        if v[0] == 2 {
            Some(AsPathView::AsSequence(asns_of(v.skip(2))))
        } else {
            Some(AsPathView::AsSet(asns_of(v.skip(2))))
        }
    } else {
        None
    }
}

/// The first AS_PATH among the attributes from index `i` on, if any.
pub open spec fn first_as_path_from(l: Seq<PathAttributeView>, i: int) -> Option<AsPathView>
    decreases l.len() - i,
{
    if i < 0 || i >= l.len() {
        None
    } else {
        match l[i] {
            PathAttributeView::AsPath(p) => Some(p),
            _ => first_as_path_from(l, i + 1),
        }
    }
}

/// The first AS_PATH among the attributes, if any.
pub open spec fn first_as_path(l: Seq<PathAttributeView>) -> Option<AsPathView> {
    first_as_path_from(l, 0)
}

/// The first NEXT_HOP among the attributes from index `i` on, if any.
pub open spec fn first_next_hop_from(l: Seq<PathAttributeView>, i: int) -> Option<Ipv4Addr>
    decreases l.len() - i,
{
    if i < 0 || i >= l.len() {
        None
    } else {
        match l[i] {
            PathAttributeView::NextHop(ip) => Some(ip),
            _ => first_next_hop_from(l, i + 1),
        }
    }
}

/// The first NEXT_HOP among the attributes, if any.
pub open spec fn first_next_hop(l: Seq<PathAttributeView>) -> Option<Ipv4Addr> {
    first_next_hop_from(l, 0)
}

/// The models of a list of attributes.
pub open spec fn attr_views(s: Seq<PathAttribute>) -> Seq<PathAttributeView> {
    s.map_values(|a: PathAttribute| a@)
}

/// The concatenated wire form of a list of attributes.
pub open spec fn encode_attrs(l: Seq<PathAttributeView>) -> Seq<u8>
    decreases l.len(),
{
    if l.len() == 0 {
        Seq::empty()
    } else {
        l[0].encoded() + encode_attrs(l.drop_first())
    }
}

pub open spec fn all_attrs_wf(l: Seq<PathAttributeView>) -> bool {
    forall|i: int| 0 <= i < l.len() ==> (#[trigger] l[i]).wf()
}

/// The meaning of a byte sequence as a run of attributes filling it exactly.
pub open spec fn parse_attrs(s: Seq<u8>) -> Option<Seq<PathAttributeView>>
    decreases s.len(),
{
    if s.len() == 0 {
        Some(Seq::empty())
    } else {
        match parse_attr(s) {
            None => None,
            Some((a, c)) => if 1 <= c <= s.len() {
                match parse_attrs(s.skip(c)) {
                    None => None,
                    Some(rest) => Some(seq![a] + rest),
                }
            } else {
                None
            },
        }
    }
}

pub proof fn lemma_encode_attrs_snoc(l: Seq<PathAttributeView>, a: PathAttributeView)
    ensures
        encode_attrs(l.push(a)) == encode_attrs(l) + a.encoded(),
    decreases l.len(),
{
    if l.len() == 0 {
        assert(l.push(a).drop_first() =~= Seq::<PathAttributeView>::empty());
        assert(l.push(a)[0] == a);
        assert(encode_attrs(Seq::<PathAttributeView>::empty()) == Seq::<u8>::empty());
        assert(encode_attrs(l.push(a)) == a.encoded() + Seq::<u8>::empty());
        assert(encode_attrs(l.push(a)) =~= encode_attrs(l) + a.encoded());
    } else {
        assert(l.push(a).drop_first() =~= l.drop_first().push(a));
        assert(l.push(a)[0] == l[0]);
        lemma_encode_attrs_snoc(l.drop_first(), a);
        assert(encode_attrs(l.push(a)) == l[0].encoded() + (encode_attrs(l.drop_first())
            + a.encoded()));
        assert(encode_attrs(l.push(a)) =~= encode_attrs(l) + a.encoded());
    }
}

/// Decoding undoes encoding for a whole list of well-formed attributes.
pub proof fn lemma_parse_attrs_of_encode(l: Seq<PathAttributeView>)
    requires
        all_attrs_wf(l),
    ensures
        parse_attrs(encode_attrs(l)) == Some(l),
    decreases l.len(),
{
    if l.len() == 0 {
        assert(l =~= Seq::<PathAttributeView>::empty());
    } else {
        lemma_parse_attrs_of_encode(l.drop_first());
        lemma_parse_attr_head(l[0], encode_attrs(l.drop_first()));
        let s = encode_attrs(l);
        let c = l[0].encoded().len() as int;
        assert(s.len() >= c >= 3);
        assert(s.skip(c) =~= encode_attrs(l.drop_first()));
        assert(seq![l[0]] + l.drop_first() =~= l);
    }
}

/// Appends the concatenated wire forms of `v` to `out`.
pub fn encode_attrs_to(v: &Vec<PathAttribute>, out: &mut Vec<u8>)
    requires
        all_attrs_wf(attr_views(v@)),
    ensures
        final(out)@ == old(out)@ + encode_attrs(attr_views(v@)),
{
    let ghost pre = out@;
    let mut i: usize = 0;
    while i < v.len()
        invariant
            i <= v@.len(),
            all_attrs_wf(attr_views(v@)),
            out@ == pre + encode_attrs(attr_views(v@).take(i as int)),
        decreases v@.len() - i,
    {
        proof {
            assert(attr_views(v@)[i as int] == v@[i as int]@);
        }
        v[i].encode_to(out);
        proof {
            assert(attr_views(v@).take(i as int).push(attr_views(v@)[i as int]) =~= attr_views(
                v@,
            ).take(i as int + 1));
            lemma_encode_attrs_snoc(attr_views(v@).take(i as int), attr_views(v@)[i as int]);
        }
        i = i + 1;
    }
    proof {
        assert(attr_views(v@).take(v@.len() as int) =~= attr_views(v@));
    }
}

/// Decodes the attribute value of the given type code out of exactly `v`.
fn decode_attr_value(code: u8, v: &[u8]) -> (r: Option<PathAttribute>)
    ensures
        match r {
            Some(a) => parse_attr_value(code, v@) == Some(a@),
            None => parse_attr_value(code, v@) is None,
        },
{
    if code == 1 {
        if v.len() == 1 && v[0] <= 2 {
            Some(
                PathAttribute::Origin(
                    if v[0] == 0 {
                        Origin::Igp
                    } else if v[0] == 1 {
                        Origin::Egp
                    } else {
                        Origin::Incomplete
                    },
                ),
            )
        } else {
            None
        }
    } else if code == 2 {
        if v.len() == 0 {
            Some(PathAttribute::AsPath(AsPath::AsSequence(Vec::new())))
        } else if v.len() >= 2 && (v[0] == 1 || v[0] == 2) && v.len() == 2 + 2 * (v[1] as usize) {
            let count = v[1] as usize;
            let mut asns: Vec<AutonomousSystemNumber> = Vec::new();
            let ghost target = asns_of(v@.skip(2));
            let mut k: usize = 0;
            while k < count
                invariant
                    k <= count,
                    count <= 255,
                    v@.len() == 2 + 2 * count,
                    target == asns_of(v@.skip(2)),
                    asns@.len() == k,
                    forall|j: int| 0 <= j < k ==> asns@[j] == target[j],
                decreases count - k,
            {
                let hi = v[2 + 2 * k];
                let lo = v[3 + 2 * k];
                asns.push(AutonomousSystemNumber((hi as u16) * 256 + (lo as u16)));
                proof {
                    assert(v@.skip(2)[2 * k as int] == v@[2 + 2 * k as int]);
                    assert(v@.skip(2)[2 * k as int + 1] == v@[3 + 2 * k as int]);
                }
                k = k + 1;
            }
            proof {
                assert(asns@ =~= target);
            }
            if v[0] == 2 {
                Some(PathAttribute::AsPath(AsPath::AsSequence(asns)))
            } else {
                Some(PathAttribute::AsPath(AsPath::AsSet(asns)))
            }
        } else {
            None
        }
    } else if code == 3 {
        if v.len() == 4 {
            Some(PathAttribute::NextHop(Ipv4Addr { o1: v[0], o2: v[1], o3: v[2], o4: v[3] }))
        } else {
            None
        }
    } else {
        None
    }
}

/// Decodes a run of attributes covering the whole slice.
pub fn decode_attrs(bytes: &[u8]) -> (r: Option<Vec<PathAttribute>>)
    ensures
        match r {
            Some(v) => parse_attrs(bytes@) == Some(attr_views(v@)),
            None => parse_attrs(bytes@) is None,
        },
{
    let mut attrs: Vec<PathAttribute> = Vec::new();
    let mut i: usize = 0;
    let len = bytes.len();
    proof {
        assert(bytes@.skip(0) =~= bytes@);
        if parse_attrs(bytes@) is Some {
            assert(attr_views(attrs@) + parse_attrs(bytes@).unwrap() =~= parse_attrs(
                bytes@,
            ).unwrap());
        }
    }
    while i < len
        invariant
            i <= len,
            len == bytes@.len(),
            match parse_attrs(bytes@.skip(i as int)) {
                Some(rest) => parse_attrs(bytes@) == Some(attr_views(attrs@) + rest),
                None => parse_attrs(bytes@) is None,
            },
        decreases len - i,
    {
        let ghost tail = bytes@.skip(i as int);
        if len - i < 3 {
            return None;
        }
        let flags = bytes[i];
        let code = bytes[i + 1];
        let ext = (flags / 16) % 2 == 1;
        let hdr: usize = if ext {
            4
        } else {
            3
        };
        if len - i < hdr {
            return None;
        }
        let vlen: usize = if ext {
            (bytes[i + 2] as usize) * 256 + (bytes[i + 3] as usize)
        } else {
            bytes[i + 2] as usize
        };
        if len - i < hdr + vlen {
            return None;
        }
        let value = vstd::slice::slice_subrange(bytes, i + hdr, i + hdr + vlen);
        proof {
            assert(value@ =~= tail.subrange(hdr as int, hdr as int + vlen as int));
        }
        let a = match decode_attr_value(code, value) {
            Some(a) => a,
            None => {
                return None;
            },
        };
        proof {
            assert(parse_attr(tail) == Some((a@, hdr as int + vlen as int)));
            assert(tail.skip(hdr as int + vlen as int) =~= bytes@.skip(
                i as int + hdr as int + vlen as int,
            ));
        }
        attrs.push(a);
        i = i + hdr + vlen;
        proof {
            let ghost prev = attrs@.subrange(0, attrs@.len() - 1);
            assert(attrs@ == prev.push(a));
            if parse_attrs(bytes@.skip(i as int)) is Some {
                let rest = parse_attrs(bytes@.skip(i as int)).unwrap();
                assert(parse_attrs(tail) == Some(seq![a@] + rest));
                assert(attr_views(attrs@) =~= attr_views(prev).push(a@));
                assert(attr_views(attrs@) + rest =~= attr_views(prev) + (seq![a@] + rest));
            }
        }
    }
    proof {
        assert(bytes@.skip(len as int) =~= Seq::<u8>::empty());
        assert(attr_views(attrs@) + Seq::<PathAttributeView>::empty() =~= attr_views(attrs@));
    }
    Some(attrs)
}

/// Reading back consecutive big-endian ASNs undoes writing them.
pub proof fn lemma_asns_round_trip(l: Seq<AutonomousSystemNumber>)
    ensures
        asns_of(encode_asns(l)) == l,
{
    let e = encode_asns(l);
    assert forall|k: int| 0 <= k < l.len() implies asns_of(e)[k] == l[k] by {
        assert(e[2 * k] == (l[k].0 as int / 256) as u8);
        assert(e[2 * k + 1] == (l[k].0 as int % 256) as u8);
    }
    assert(asns_of(e) =~= l);
}

/// Decoding undoes encoding for one attribute at the head of any byte
/// sequence: a well-formed attribute's wire form parses back to the attribute,
/// consuming exactly its own bytes.
pub proof fn lemma_parse_attr_head(a: PathAttributeView, rest: Seq<u8>)
    requires
        a.wf(),
    ensures
        parse_attr(a.encoded() + rest) == Some((a, a.encoded().len() as int)),
{
    let s = a.encoded() + rest;
    let v = a.value_bytes();
    assert(s[0] == 0x40u8);
    assert((0x40 as int / 16) % 2 == 0);
    assert(s[1] == a.type_code());
    match a {
        PathAttributeView::AsPath(p) => {
            assert(v.len() == 2 + 2 * p.asns().len());
        },
        _ => {},
    }
    assert(v.len() <= 254);
    assert(s[2] == v.len() as u8);
    assert(s.subrange(3, 3 + v.len() as int) =~= v);
    match a {
        PathAttributeView::Origin(o) => {
            assert(parse_attr_value(1, v) == Some(a));
        },
        PathAttributeView::NextHop(ip) => {
            assert(parse_attr_value(3, v) == Some(a));
        },
        PathAttributeView::AsPath(p) => {
            let n = p.asns().len() as int;
            assert(v[0] == p.segment_type());
            assert(v[1] == n as u8);
            assert(v.len() == 2 + 2 * n);
            assert(v.skip(2) =~= encode_asns(p.asns()));
            lemma_asns_round_trip(p.asns());
            assert(parse_as_path(v) == Some(p));
        },
    }
}

} // verus!
