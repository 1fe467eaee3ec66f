//! IPv4 prefixes and their NLRI wire form, and the routing information bases
//! (Loc-RIB, Adj-RIB-In, Adj-RIB-Out) built on them.

use vstd::prelude::*;

use crate::bgp_type::{AutonomousSystemNumber, Ipv4Addr};
use crate::config::Config;
use crate::error::{ConstructIpv4NetworkError, DecodeError};
use crate::path_attribute::{
    first_as_path, first_next_hop, AsPath, AsPathView, Origin, PathAttribute, PathAttributeView,
};

verus! {

/// An IPv4 network: an address and a prefix length. Well-formed when the
/// prefix is at most 32. The address octets are kept as given; the wire
/// encoding masks host bits beyond the prefix to zero.
#[derive(Debug, Clone, Copy, PartialEq, Eq, Structural, Hash)]
pub struct Ipv4Network {
    pub addr: Ipv4Addr,
    pub prefix: u8,
}

/// Divisor that clears all but the top `keep` bits of an octet, 1 <= keep <= 7.
pub open spec fn chop_divisor(keep: int) -> int {
    if keep == 1 {
        128
    } else if keep == 2 {
        64
    } else if keep == 3 {
        32
    } else if keep == 4 {
        16
    } else if keep == 5 {
        8
    } else if keep == 6 {
        4
    } else {
        2
    }
}

/// The octet with only its top `keep` bits retained; `keep` below 1 clears it,
/// 8 or more keeps it whole.
pub open spec fn mask_octet(o: u8, keep: int) -> u8 {
    if keep <= 0 {
        0
    } else if keep >= 8 {
        o
    } else {
        (((o as int) / chop_divisor(keep)) * chop_divisor(keep)) as u8
    }
}

impl Ipv4Network {
    /// Prefix length within the 0..=32 range of IPv4.
    pub open spec fn wf(self) -> bool {
        self.prefix <= 32
    }

    /// The address with every host bit beyond the prefix cleared.
    pub open spec fn spec_network(self) -> Ipv4Addr {
        Ipv4Addr {
            o1: mask_octet(self.addr.o1, self.prefix as int),
            o2: mask_octet(self.addr.o2, self.prefix as int - 8),
            o3: mask_octet(self.addr.o3, self.prefix as int - 16),
            o4: mask_octet(self.addr.o4, self.prefix as int - 24),
        }
    }

    /// Canonical form: no host bit beyond the prefix is set.
    pub open spec fn is_canonical(self) -> bool {
        self.spec_network() == self.addr
    }

    /// Number of address octets carried on the wire: the prefix rounded up to
    /// whole octets.
    pub open spec fn spec_octet_count(self) -> int {
        (self.prefix as int + 7) / 8
    }

    /// The NLRI wire form: one prefix-length byte, then the most significant
    /// `ceil(prefix / 8)` octets of the masked address.
    pub open spec fn spec_encode(self) -> Seq<u8> {
        let m = self.spec_network();
        seq![self.prefix, m.o1, m.o2, m.o3, m.o4].take(1 + self.spec_octet_count())
    }

    pub fn new(addr: Ipv4Addr, prefix: u8) -> (r: Result<Self, ConstructIpv4NetworkError>)
        ensures
            prefix <= 32 ==> r == Ok::<Self, ConstructIpv4NetworkError>(
                Ipv4Network { addr, prefix },
            ),
            prefix > 32 ==> r == Err::<Self, ConstructIpv4NetworkError>(ConstructIpv4NetworkError),
    {
        if prefix <= 32 {
            Ok(Ipv4Network { addr, prefix })
        } else {
            Err(ConstructIpv4NetworkError)
        }
    }

    /// Byte length of the NLRI encoding: 1 + ceil(prefix / 8).
    pub fn bytes_len(&self) -> (r: usize)
        requires
            self.wf(),
        ensures
            r == 1 + self.spec_octet_count(),
    {
        if self.prefix == 0 {
            1
        } else if self.prefix <= 8 {
            2
        } else if self.prefix <= 16 {
            3
        } else if self.prefix <= 24 {
            4
        } else {
            5
        }
    }

    /// The address with host bits beyond the prefix cleared.
    pub fn network(&self) -> (r: Ipv4Addr)
        requires
            self.wf(),
        ensures
            r == self.spec_network(),
    {
        let p = self.prefix;
        Ipv4Addr {
            o1: chop(self.addr.o1, p),
            o2: chop(self.addr.o2, if p <= 8 { 0 } else { p - 8 }),
            o3: chop(self.addr.o3, if p <= 16 { 0 } else { p - 16 }),
            o4: chop(self.addr.o4, if p <= 24 { 0 } else { p - 24 }),
        }
    }

    /// Appends the NLRI encoding of this network to `out`.
    pub fn encode_to(&self, out: &mut Vec<u8>)
        requires
            self.wf(),
        ensures
            final(out)@ == old(out)@ + self.spec_encode(),
    {
        let m = self.network();
        let ghost pre = out@;
        out.push(self.prefix);
        if self.prefix > 0 {
            out.push(m.o1);
        }
        if self.prefix > 8 {
            out.push(m.o2);
        }
        if self.prefix > 16 {
            out.push(m.o3);
        }
        if self.prefix > 24 {
            out.push(m.o4);
        }
        proof {
            assert(out@ =~= pre + self.spec_encode());
        }
    }

    /// The NLRI encoding of this network alone.
    pub fn encode(&self) -> (r: Vec<u8>)
        requires
            self.wf(),
        ensures
            r@ == self.spec_encode(),
    {
        let mut out: Vec<u8> = Vec::new();
        self.encode_to(&mut out);
        out
    }

    /// Decodes a concatenation of NLRI units covering the whole slice.
    pub fn from_u8_slice(bytes: &[u8]) -> (r: Result<Vec<Self>, DecodeError>)
        ensures
            match r {
                Ok(v) => parse_nlris(bytes@) == Some(v@),
                Err(e) => parse_nlris(bytes@) is None && e == DecodeError::MalformedNlri,
            },
    {
        let mut networks: Vec<Ipv4Network> = Vec::new();
        let mut i: usize = 0;
        let len = bytes.len();
        proof {
            assert(bytes@.skip(0) =~= bytes@);
            if parse_nlris(bytes@) is Some {
                assert(networks@ + parse_nlris(bytes@).unwrap() =~= parse_nlris(bytes@).unwrap());
            }
        }
        while i < len
            invariant
                i <= len,
                len == bytes@.len(),
                match parse_nlris(bytes@.skip(i as int)) {
                    Some(rest) => parse_nlris(bytes@) == Some(networks@ + rest),
                    None => parse_nlris(bytes@) is None,
                },
            decreases len - i,
        {
            let ghost tail = bytes@.skip(i as int);
            let prefix = bytes[i];
            if prefix > 32 {
                return Err(DecodeError::MalformedNlri);
            }
            let count: usize = (prefix as usize + 7) / 8;
            if len - i < 1 + count {
                return Err(DecodeError::MalformedNlri);
            }
            let o1 = if count >= 1 { bytes[i + 1] } else { 0 };
            let o2 = if count >= 2 { bytes[i + 2] } else { 0 };
            let o3 = if count >= 3 { bytes[i + 3] } else { 0 };
            let o4 = if count >= 4 { bytes[i + 4] } else { 0 };
            let n = Ipv4Network { addr: Ipv4Addr { o1, o2, o3, o4 }, prefix };
            proof {
                assert(tail.skip(1 + count as int) =~= bytes@.skip(i as int + 1 + count as int));
            }
            networks.push(n);
            i = i + 1 + count;
            proof {
                assert(networks@ == networks@.subrange(0, networks@.len() - 1).push(n));
                assert(networks@.subrange(0, networks@.len() - 1).push(n) == networks@);
                if parse_nlris(bytes@.skip(i as int)) is Some {
                    let rest = parse_nlris(bytes@.skip(i as int)).unwrap();
                    assert(parse_nlris(tail) == Some(seq![n] + rest));
                    assert(networks@ + rest =~= networks@.subrange(0, networks@.len() - 1) + (
                    seq![n] + rest));
                }
            }
        }
        proof {
            assert(bytes@.skip(len as int) =~= Seq::<u8>::empty());
            assert(networks@ + Seq::<Ipv4Network>::empty() =~= networks@);
        }
        Ok(networks)
    }
}

/// Whether an attribute list's first AS_PATH (the one BGP reads) mentions
/// `asn`; a list without an AS_PATH mentions nothing.
pub open spec fn attrs_contain_as(
    l: Seq<PathAttributeView>,
    asn: AutonomousSystemNumber,
) -> bool {
    match first_as_path(l) {
        Some(p) => p.contains_asn(asn),
        None => false,
    }
}

/// Whether this RIB entry's route was carried through `asn`.
pub open spec fn entry_contains_as(e: RibEntryView, asn: AutonomousSystemNumber) -> bool {
    attrs_contain_as(e.path_attributes, asn)
}

/// Status of a route in a RIB: just arrived, or already propagated.
#[derive(Debug, Clone, Copy, PartialEq, Eq, Structural, Hash)]
pub enum RibEntryStatus {
    New,
    UnChanged,
}

/// One route: a destination network and the path attributes it came with.
/// Entries are immutable once built; RIBs change only at the map level.
#[derive(Debug, PartialEq, Eq, Hash)]
pub struct RibEntry {
    pub network_address: Ipv4Network,
    pub path_attributes: Vec<PathAttribute>,
}

/// Mathematical model of a `RibEntry`.
pub ghost struct RibEntryView {
    pub network_address: Ipv4Network,
    pub path_attributes: Seq<PathAttributeView>,
}

impl View for RibEntry {
    type V = RibEntryView;

    open spec fn view(&self) -> RibEntryView {
        RibEntryView {
            network_address: self.network_address,
            path_attributes: crate::path_attribute::attr_views(self.path_attributes@),
        }
    }
}

/// A copy of the attribute list, attribute for attribute.
fn clone_attrs(v: &Vec<PathAttribute>) -> (r: Vec<PathAttribute>)
    ensures
        crate::path_attribute::attr_views(r@) == crate::path_attribute::attr_views(v@),
{
    let ghost target = crate::path_attribute::attr_views(v@);
    let mut out: Vec<PathAttribute> = Vec::new();
    let mut i: usize = 0;
    while i < v.len()
        invariant
            i <= v@.len(),
            target == crate::path_attribute::attr_views(v@),
            out@.len() == i,
            forall|j: int| 0 <= j < i ==> (#[trigger] out@[j])@ == target[j],
        decreases v@.len() - i,
    {
        out.push(v[i].clone());
        i = i + 1;
    }
    proof {
        assert(crate::path_attribute::attr_views(out@) =~= target);
    }
    out
}

impl Clone for RibEntry {
    fn clone(&self) -> (r: Self)
        ensures
            r@ == self@,
    {
        RibEntry {
            network_address: self.network_address,
            path_attributes: clone_attrs(&self.path_attributes),
        }
    }
}

impl RibEntry {
    /// Whether this entry's first AS_PATH mentions `as_number`.
    pub fn does_contain_as(&self, as_number: AutonomousSystemNumber) -> (r: bool)
        ensures
            r == entry_contains_as(self@, as_number),
    {
        let l = &self.path_attributes;
        let mut i: usize = 0;
        while i < l.len()
            invariant
                i <= l@.len(),
                first_as_path(self@.path_attributes) == crate::path_attribute::first_as_path_from(
                    self@.path_attributes,
                    i as int,
                ),
                self@.path_attributes == crate::path_attribute::attr_views(l@),
            decreases l@.len() - i,
        {
            match &l[i] {
                PathAttribute::AsPath(p) => {
                    return p.does_contain(as_number);
                },
                _ => {},
            }
            i = i + 1;
        }
        false
    }

    /// This entry's first NEXT_HOP attribute, if it carries one.
    pub fn next_hop(&self) -> (r: Option<Ipv4Addr>)
        ensures
            r == first_next_hop(self@.path_attributes),
    {
        let l = &self.path_attributes;
        let mut i: usize = 0;
        while i < l.len()
            invariant
                i <= l@.len(),
                first_next_hop(self@.path_attributes)
                    == crate::path_attribute::first_next_hop_from(
                    self@.path_attributes,
                    i as int,
                ),
                self@.path_attributes == crate::path_attribute::attr_views(l@),
            decreases l@.len() - i,
        {
            match &l[i] {
                PathAttribute::NextHop(ip) => {
                    return Some(*ip);
                },
                _ => {},
            }
            i = i + 1;
        }
        None
    }

    /// Whether two entries are equal: same network, same attributes.
    pub fn equals(&self, other: &Self) -> (r: bool)
        ensures
            r == (self@ == other@),
    {
        if !(self.network_address == other.network_address) {
            return false;
        }
        let a = &self.path_attributes;
        let b = &other.path_attributes;
        if a.len() != b.len() {
            proof {
                assert(self@.path_attributes.len() == a@.len());
                assert(other@.path_attributes.len() == b@.len());
            }
            return false;
        }
        let mut i: usize = 0;
        while i < a.len()
            invariant
                i <= a@.len(),
                a@.len() == b@.len(),
                self@.path_attributes == crate::path_attribute::attr_views(a@),
                other@.path_attributes == crate::path_attribute::attr_views(b@),
                forall|j: int|
                    0 <= j < i ==> (#[trigger] a@[j])@ == b@[j]@,
            decreases a@.len() - i,
        {
            if !a[i].equals(&b[i]) {
                proof {
                    assert(self@.path_attributes[i as int] != other@.path_attributes[i as int]);
                }
                return false;
            }
            i = i + 1;
        }
        proof {
            assert(self@.path_attributes =~= other@.path_attributes);
        }
        true
    }
}

/// A RIB's content: routes with their status, in insertion order.
pub type RibView = Seq<(RibEntryView, RibEntryStatus)>;

/// The RIB holds this route (under any status).
pub open spec fn rib_contains(m: RibView, e: RibEntryView) -> bool {
    exists|i: int| 0 <= i < m.len() && (#[trigger] m[i]).0 == e
}

/// Some route in the RIB is still marked `New`.
pub open spec fn rib_has_new(m: RibView) -> bool {
    exists|i: int| 0 <= i < m.len() && (#[trigger] m[i]).1 is New
}

/// No route in the RIB was carried through `asn`: the loop-avoidance shape
/// of a peer's Adj-RIB-Out toward that ASN.
pub open spec fn rib_no_loop(m: RibView, asn: AutonomousSystemNumber) -> bool {
    forall|i: int| 0 <= i < m.len() ==> !entry_contains_as((#[trigger] m[i]).0, asn)
}

/// Keys are unique: no route appears twice.
pub open spec fn rib_wf(m: RibView) -> bool {
    forall|i: int, j: int| 0 <= i < j < m.len() ==> (#[trigger] m[i]).0 != (#[trigger] m[j]).0
}

/// Carrying a contained route over to a longer RIB that keeps the prefix.
pub proof fn lemma_rib_contains_monotone(a: RibView, b: RibView, e: RibEntryView)
    requires
        a.len() <= b.len(),
        forall|i: int| 0 <= i < a.len() ==> a[i] == #[trigger] b[i],
        rib_contains(a, e),
    ensures
        rib_contains(b, e),
{
    let i = choose|i: int| 0 <= i < a.len() && (#[trigger] a[i]).0 == e;
    assert(b[i].0 == e);
}

/// Whether the list holds this network.
pub open spec fn networks_include(l: Seq<Ipv4Network>, n: Ipv4Network) -> bool {
    exists|i: int| 0 <= i < l.len() && l[i] == n
}

/// The old table is a prefix of the new one, route for route (statuses may
/// have been swept).
pub open spec fn rib_prefix_preserved(pre: RibView, post: RibView) -> bool {
    &&& post.len() >= pre.len()
    &&& forall|i: int| 0 <= i < pre.len() ==> (#[trigger] post[i]).0 == pre[i].0
}

/// Every route is marked `UnChanged`.
pub open spec fn rib_all_unchanged(m: RibView) -> bool {
    forall|i: int| 0 <= i < m.len() ==> (#[trigger] m[i]).1 == RibEntryStatus::UnChanged
}

/// The table as it stood between an install into `pre` and a status sweep
/// that left `post`: `post`'s routes, with `pre`'s statuses where the route
/// was already there and `New` where it was appended.
pub open spec fn pre_sweep(pre: RibView, post: RibView) -> RibView {
    Seq::new(
        post.len(),
        |i: int|
            (
                post[i].0,
                if i < pre.len() {
                    pre[i].1
                } else {
                    RibEntryStatus::New
                },
            ),
    )
}

/// After an install that keeps the old table as a prefix and appends only
/// `New` routes, the table holds a `New` route exactly when the old table
/// already did or something was appended.
pub proof fn lemma_has_new_split(pre: RibView, mid: RibView)
    requires
        mid.len() >= pre.len(),
        forall|i: int| 0 <= i < pre.len() ==> mid[i] == #[trigger] pre[i],
        forall|i: int| pre.len() <= i < mid.len() ==> (#[trigger] mid[i]).1 is New,
    ensures
        rib_has_new(mid) == (rib_has_new(pre) || mid.len() > pre.len()),
{
    if rib_has_new(pre) {
        let i = choose|i: int| 0 <= i < pre.len() && (#[trigger] pre[i]).1 is New;
        assert(mid[i].1 is New);
    }
    if mid.len() > pre.len() {
        assert(mid[pre.len() as int].1 is New);
    }
    if rib_has_new(mid) && mid.len() == pre.len() {
        let i = choose|i: int| 0 <= i < mid.len() && (#[trigger] mid[i]).1 is New;
        assert(pre[i].1 is New);
    }
}

/// A route as an inbound UPDATE installs it: the UPDATE's own attributes, a
/// network the UPDATE announced, and an AS_PATH free of the local ASN.
pub open spec fn entry_from_update(
    e: RibEntryView,
    attrs: Seq<PathAttributeView>,
    nlri: Seq<Ipv4Network>,
    local_as: AutonomousSystemNumber,
) -> bool {
    &&& e.path_attributes == attrs
    &&& networks_include(nlri, e.network_address)
    &&& !attrs_contain_as(attrs, local_as)
}

/// Containment survives a status sweep: any RIB with the same routes at the
/// same positions still holds `e`.
pub proof fn lemma_rib_contains_preserved(a: RibView, b: RibView, e: RibEntryView)
    requires
        b.len() == a.len(),
        forall|i: int| 0 <= i < a.len() ==> (#[trigger] b[i]).0 == a[i].0,
        rib_contains(a, e),
    ensures
        rib_contains(b, e),
{
    let i = choose|i: int| 0 <= i < a.len() && (#[trigger] a[i]).0 == e;
    assert(b[i].0 == e);
}

/// A mapping from route to status, keys unique, insertion order kept.
#[derive(Debug)]
pub struct Rib {
    entries: Vec<(RibEntry, RibEntryStatus)>,
}

impl Rib {
    /// The routes and their statuses, oldest insertion first.
    pub closed spec fn view(self) -> RibView {
        self.entries@.map_values(|p: (RibEntry, RibEntryStatus)| (p.0@, p.1))
    }

    /// Keys are unique: no route appears twice.
    pub open spec fn wf(self) -> bool {
        rib_wf(self@)
    }

    pub fn new() -> (r: Self)
        ensures
            r@ == Seq::<(RibEntryView, RibEntryStatus)>::empty(),
            r.wf(),
    {
        Rib { entries: Vec::new() }
    }

    pub fn len(&self) -> (r: usize)
        ensures
            r == self@.len(),
    {
        self.entries.len()
    }

    /// The route at position `i`.
    pub fn get(&self, i: usize) -> (r: &RibEntry)
        requires
            i < self@.len(),
        ensures
            r@ == self@[i as int].0,
    {
        &self.entries[i].0
    }

    /// The status at position `i`.
    pub fn status_at(&self, i: usize) -> (r: RibEntryStatus)
        requires
            i < self@.len(),
        ensures
            r == self@[i as int].1,
    {
        self.entries[i].1
    }

    /// Inserting a route already present is a no-op that keeps its status;
    /// a fresh route is appended with status `New`.
    pub fn insert(&mut self, entry: RibEntry)
        ensures
            rib_contains(old(self)@, entry@) ==> final(self)@ == old(self)@,
            !rib_contains(old(self)@, entry@) ==> final(self)@ == old(self)@.push(
                (entry@, RibEntryStatus::New),
            ),
            old(self).wf() ==> final(self).wf(),
    {
        let mut i: usize = 0;
        let len = self.entries.len();
        while i < len
            invariant
                i <= len,
                len == self@.len(),
                forall|j: int| 0 <= j < i ==> (#[trigger] self@[j]).0 != entry@,
            decreases len - i,
        {
            if self.entries[i].0.equals(&entry) {
                proof {
                    assert(self@[i as int].0 == entry@);
                }
                return ;
            }
            i = i + 1;
        }
        proof {
            assert(!rib_contains(self@, entry@));
        }
        self.entries.push((entry, RibEntryStatus::New));
        proof {
            assert(self@ =~= old(self)@.push((entry@, RibEntryStatus::New)));
            if old(self).wf() {
                assert forall|i: int, j: int| 0 <= i < j < self@.len() implies (
                #[trigger] self@[i]).0 != (#[trigger] self@[j]).0 by {
                    if j < self@.len() - 1 {
                        assert(old(self)@[i].0 != old(self)@[j].0);
                    } else {
                        assert(old(self)@[i].0 != self@[j].0);
                    }
                }
            }
        }
    }

    /// The routes, in order, without their statuses.
    pub fn routes(&self) -> (r: Vec<RibEntry>)
        ensures
            r@.len() == self@.len(),
            forall|i: int| 0 <= i < r@.len() ==> (#[trigger] r@[i])@ == self@[i].0,
    {
        let mut out: Vec<RibEntry> = Vec::new();
        let mut i: usize = 0;
        let len = self.entries.len();
        while i < len
            invariant
                i <= len,
                len == self@.len(),
                out@.len() == i,
                forall|j: int| 0 <= j < i ==> (#[trigger] out@[j])@ == self@[j].0,
            decreases len - i,
        {
            out.push(self.entries[i].0.clone());
            i = i + 1;
        }
        out
    }

    /// Some route is still marked `New`.
    pub fn does_contain_new_route(&self) -> (r: bool)
        ensures
            r == rib_has_new(self@),
    {
        let mut i: usize = 0;
        let len = self.entries.len();
        while i < len
            invariant
                i <= len,
                len == self@.len(),
                forall|j: int| 0 <= j < i ==> !((#[trigger] self@[j]).1 is New),
            decreases len - i,
        {
            if matches!(self.entries[i].1, RibEntryStatus::New) {
                proof {
                    assert(self@[i as int].1 is New);
                }
                return true;
            }
            i = i + 1;
        }
        false
    }

    /// Marks every route `UnChanged`, keeping the routes themselves.
    pub fn update_to_all_changed(&mut self)
        ensures
            final(self)@.len() == old(self)@.len(),
            forall|i: int|
                0 <= i < old(self)@.len() ==> (#[trigger] final(self)@[i]).0 == old(self)@[i].0
                    && final(self)@[i].1 == RibEntryStatus::UnChanged,
            old(self).wf() ==> final(self).wf(),
    {
        let mut out: Vec<(RibEntry, RibEntryStatus)> = Vec::new();
        let mut i: usize = 0;
        let len = self.entries.len();
        while i < len
            invariant
                i <= len,
                len == self@.len(),
                out@.len() == i,
                forall|j: int|
                    0 <= j < i ==> (#[trigger] out@[j]).0@ == self@[j].0 && out@[j].1
                        == RibEntryStatus::UnChanged,
            decreases len - i,
        {
            out.push((self.entries[i].0.clone(), RibEntryStatus::UnChanged));
            i = i + 1;
        }
        self.entries = out;
    }
}

/// Clears all but the top `keep` bits of the octet; `keep` of 8 or more keeps
/// it whole.
fn chop(o: u8, keep: u8) -> (r: u8)
    ensures
        r == mask_octet(o, keep as int),
{
    if keep == 0 {
        0
    } else if keep >= 8 {
        o
    } else {
        let d: u8 = if keep == 1 {
            128
        } else if keep == 2 {
            64
        } else if keep == 3 {
            32
        } else if keep == 4 {
            16
        } else if keep == 5 {
            8
        } else if keep == 6 {
            4
        } else {
            2
        };
        (o / d) * d
    }
}

/// The meaning of a byte sequence as a concatenation of NLRI units: `None`
/// where a prefix length exceeds 32 or its address octets are incomplete.
pub open spec fn parse_nlris(s: Seq<u8>) -> Option<Seq<Ipv4Network>>
    decreases s.len(),
{
    if s.len() == 0 {
        Some(Seq::empty())
    } else {
        let prefix = s[0];
        if prefix > 32 {
            None
        } else {
            let count = (prefix as int + 7) / 8;
            if s.len() < 1 + count {
                None
            } else {
                let n = Ipv4Network {
                    addr: Ipv4Addr {
                        o1: if count >= 1 { s[1] } else { 0 },
                        o2: if count >= 2 { s[2] } else { 0 },
                        o3: if count >= 3 { s[3] } else { 0 },
                        o4: if count >= 4 { s[4] } else { 0 },
                    },
                    prefix,
                };
                match parse_nlris(s.skip(1 + count)) {
                    Some(rest) => Some(seq![n] + rest),
                    None => None,
                }
            }
        }
    }
}

/// Decoding undoes encoding, one unit at the head of any byte sequence: the
/// NLRI wire form of a canonical well-formed network, followed by anything,
/// parses to that network followed by the parse of the rest.
pub proof fn lemma_parse_nlri_head(n: Ipv4Network, rest: Seq<u8>)
    requires
        n.wf(),
        n.is_canonical(),
    ensures
        parse_nlris(n.spec_encode() + rest) == match parse_nlris(rest) {
            Some(v) => Some(seq![n] + v),
            None => None::<Seq<Ipv4Network>>,
        },
{
    let s = n.spec_encode() + rest;
    let count = n.spec_octet_count();
    assert(s[0] == n.prefix);
    assert(s.len() >= 1 + count);
    let m = n.spec_network();
    assert(m == n.addr);
    if count >= 1 {
        assert(s[1] == m.o1);
    } else {
        assert(n.prefix == 0);
        assert(mask_octet(n.addr.o1, n.prefix as int) == 0);
        assert(n.addr.o1 == 0);
    }
    if count >= 2 {
        assert(s[2] == m.o2);
    } else {
        assert(n.prefix as int - 8 <= 0);
        assert(n.addr.o2 == 0);
    }
    if count >= 3 {
        assert(s[3] == m.o3);
    } else {
        assert(n.addr.o3 == 0);
    }
    if count >= 4 {
        assert(s[4] == m.o4);
    } else {
        assert(n.addr.o4 == 0);
    }
    assert(s.skip(1 + count) =~= rest);
}

/// The concatenated NLRI wire form of a list of networks.
pub open spec fn encode_nlris(l: Seq<Ipv4Network>) -> Seq<u8>
    decreases l.len(),
{
    if l.len() == 0 {
        Seq::empty()
    } else {
        l[0].spec_encode() + encode_nlris(l.drop_first())
    }
}

/// Every network well-formed and in canonical form.
pub open spec fn all_canonical(l: Seq<Ipv4Network>) -> bool {
    forall|i: int| 0 <= i < l.len() ==> (#[trigger] l[i]).wf() && l[i].is_canonical()
}

pub proof fn lemma_encode_nlris_snoc(l: Seq<Ipv4Network>, n: Ipv4Network)
    ensures
        encode_nlris(l.push(n)) == encode_nlris(l) + n.spec_encode(),
    decreases l.len(),
{
    if l.len() == 0 {
        assert(l.push(n).drop_first() =~= Seq::<Ipv4Network>::empty());
        assert(l.push(n)[0] == n);
        assert(encode_nlris(Seq::<Ipv4Network>::empty()) == Seq::<u8>::empty());
        assert(encode_nlris(l.push(n)) == n.spec_encode() + Seq::<u8>::empty());
        assert(encode_nlris(l.push(n)) =~= encode_nlris(l) + n.spec_encode());
    } else {
        assert(l.push(n).drop_first() =~= l.drop_first().push(n));
        assert(l.push(n)[0] == l[0]);
        lemma_encode_nlris_snoc(l.drop_first(), n);
        assert(encode_nlris(l.push(n)) == l[0].spec_encode() + (encode_nlris(l.drop_first())
            + n.spec_encode()));
        assert(encode_nlris(l.push(n)) =~= encode_nlris(l) + n.spec_encode());
    }
}

/// Decoding undoes encoding for a whole list of canonical networks.
pub proof fn lemma_parse_nlris_of_encode(l: Seq<Ipv4Network>)
    requires
        all_canonical(l),
    ensures
        parse_nlris(encode_nlris(l)) == Some(l),
    decreases l.len(),
{
    if l.len() == 0 {
        assert(parse_nlris(encode_nlris(l)) == Some(Seq::<Ipv4Network>::empty()));
        assert(l =~= Seq::<Ipv4Network>::empty());
    } else {
        lemma_parse_nlris_of_encode(l.drop_first());
        lemma_parse_nlri_head(l[0], encode_nlris(l.drop_first()));
        assert(seq![l[0]] + l.drop_first() =~= l);
    }
}

/// Appends the concatenated NLRI encodings of `v` to `out`.
pub fn encode_nlris_to(v: &Vec<Ipv4Network>, out: &mut Vec<u8>)
    requires
        forall|i: int| 0 <= i < v@.len() ==> (#[trigger] v@[i]).wf(),
    ensures
        final(out)@ == old(out)@ + encode_nlris(v@),
{
    let ghost pre = out@;
    let mut i: usize = 0;
    while i < v.len()
        invariant
            i <= v@.len(),
            forall|j: int| 0 <= j < v@.len() ==> (#[trigger] v@[j]).wf(),
            out@ == pre + encode_nlris(v@.take(i as int)),
        decreases v@.len() - i,
    {
        v[i].encode_to(out);
        proof {
            assert(v@.take(i as int).push(v@[i as int]) =~= v@.take(i as int + 1));
            lemma_encode_nlris_snoc(v@.take(i as int), v@[i as int]);
        }
        i = i + 1;
    }
    proof {
        assert(v@.take(v@.len() as int) =~= v@);
    }
}

/// Round trip of a single network: decoding its NLRI encoding yields exactly
/// that network, and the encoding is 1 + ceil(prefix / 8) bytes long.
pub proof fn lemma_nlri_round_trip(n: Ipv4Network)
    requires
        n.wf(),
        n.is_canonical(),
    ensures
        parse_nlris(n.spec_encode()) == Some(seq![n]),
        n.spec_encode().len() == 1 + (n.prefix as int + 7) / 8,
{
    lemma_parse_nlri_head(n, Seq::empty());
    assert(n.spec_encode() + Seq::<u8>::empty() =~= n.spec_encode());
    assert(seq![n] + Seq::<Ipv4Network>::empty() =~= seq![n]);
}

/// The attributes this speaker wraps locally originated routes with:
/// ORIGIN IGP, an empty AS_SEQUENCE, and itself as next hop.
pub open spec fn seed_attrs(local_ip: Ipv4Addr) -> Seq<PathAttributeView> {
    seq![
        PathAttributeView::Origin(Origin::Igp),
        PathAttributeView::AsPath(AsPathView::AsSequence(Seq::empty())),
        PathAttributeView::NextHop(local_ip),
    ]
}

/// A locally originated route as a RIB entry.
pub open spec fn seed_entry(net: Ipv4Network, local_ip: Ipv4Addr) -> RibEntryView {
    RibEntryView { network_address: net, path_attributes: seed_attrs(local_ip) }
}

/// Builds the entry `seed_entry` describes.
fn seed_rib_entry(net: Ipv4Network, local_ip: Ipv4Addr) -> (r: RibEntry)
    ensures
        r@ == seed_entry(net, local_ip),
{
    let mut attrs: Vec<PathAttribute> = Vec::new();
    attrs.push(PathAttribute::Origin(Origin::Igp));
    attrs.push(PathAttribute::AsPath(AsPath::AsSequence(Vec::new())));
    attrs.push(PathAttribute::NextHop(local_ip));
    proof {
        assert(crate::path_attribute::attr_views(attrs@) =~= seed_attrs(local_ip));
    }
    RibEntry { network_address: net, path_attributes: attrs }
}

/// Whether the list holds this network.
fn networks_contain(v: &Vec<Ipv4Network>, n: Ipv4Network) -> (r: bool)
    ensures
        r == v@.contains(n),
{
    let mut i: usize = 0;
    while i < v.len()
        invariant
            i <= v@.len(),
            forall|j: int| 0 <= j < i ==> v@[j] != n,
        decreases v@.len() - i,
    {
        if v[i] == n {
            return true;
        }
        i = i + 1;
    }
    false
}

/// An attribute as this speaker re-emits it toward a peer: the AS_PATH gains
/// the local ASN in front, the NEXT_HOP becomes the local address, and the
/// ORIGIN becomes IGP — every UPDATE this core emits carries ORIGIN IGP.
pub open spec fn transform_attr(
    a: PathAttributeView,
    local_as: AutonomousSystemNumber,
    local_ip: Ipv4Addr,
) -> PathAttributeView {
    match a {
        PathAttributeView::Origin(_) => PathAttributeView::Origin(Origin::Igp),
        PathAttributeView::AsPath(p) => PathAttributeView::AsPath(
            crate::path_attribute::prepend_asn(local_as, p),
        ),
        PathAttributeView::NextHop(_) => PathAttributeView::NextHop(local_ip),
    }
}

pub open spec fn transform_attrs(
    l: Seq<PathAttributeView>,
    local_as: AutonomousSystemNumber,
    local_ip: Ipv4Addr,
) -> Seq<PathAttributeView> {
    l.map_values(|a: PathAttributeView| transform_attr(a, local_as, local_ip))
}

/// The UPDATE that advertises one Adj-RIB-Out route to the peer.
pub open spec fn update_for_route(
    e: RibEntryView,
    local_as: AutonomousSystemNumber,
    local_ip: Ipv4Addr,
) -> crate::packets::update::UpdateMessageView {
    crate::packets::update::UpdateMessageView {
        withdrawn_routes: Seq::empty(),
        path_attributes: transform_attrs(e.path_attributes, local_as, local_ip),
        nlri: seq![e.network_address],
    }
}

/// Re-emits an attribute list toward a peer, as `transform_attrs` says.
fn transform_attributes(
    attrs: &Vec<PathAttribute>,
    local_as: AutonomousSystemNumber,
    local_ip: Ipv4Addr,
) -> (r: Vec<PathAttribute>)
    ensures
        crate::path_attribute::attr_views(r@) == transform_attrs(
            crate::path_attribute::attr_views(attrs@),
            local_as,
            local_ip,
        ),
{
    let ghost target = transform_attrs(
        crate::path_attribute::attr_views(attrs@),
        local_as,
        local_ip,
    );
    let mut out: Vec<PathAttribute> = Vec::new();
    let mut i: usize = 0;
    while i < attrs.len()
        invariant
            i <= attrs@.len(),
            target == transform_attrs(
                crate::path_attribute::attr_views(attrs@),
                local_as,
                local_ip,
            ),
            out@.len() == i,
            forall|j: int| 0 <= j < i ==> (#[trigger] out@[j])@ == target[j],
        decreases attrs@.len() - i,
    {
        let t = match &attrs[i] {
            PathAttribute::Origin(_) => PathAttribute::Origin(Origin::Igp),
            PathAttribute::AsPath(p) => PathAttribute::AsPath(p.prepend(local_as)),
            PathAttribute::NextHop(_) => PathAttribute::NextHop(local_ip),
        };
        out.push(t);
        i = i + 1;
    }
    proof {
        assert(crate::path_attribute::attr_views(out@) =~= target);
    }
    out
}

/// The per-peer table of routes to advertise to that peer.
#[derive(Debug)]
pub struct AdjRibOut {
    rib: Rib,
}

impl AdjRibOut {
    /// The routes and their statuses, oldest insertion first.
    pub closed spec fn view(self) -> RibView {
        self.rib@
    }

    pub open spec fn wf(self) -> bool {
        rib_wf(self@)
    }

    pub fn new() -> (r: Self)
        ensures
            r@ == Seq::<(RibEntryView, RibEntryStatus)>::empty(),
            r.wf(),
    {
        AdjRibOut { rib: Rib::new() }
    }

    pub fn insert(&mut self, entry: RibEntry)
        ensures
            rib_contains(old(self)@, entry@) ==> final(self)@ == old(self)@,
            !rib_contains(old(self)@, entry@) ==> final(self)@ == old(self)@.push(
                (entry@, RibEntryStatus::New),
            ),
            old(self).wf() ==> final(self).wf(),
    {
        self.rib.insert(entry);
    }

    pub fn routes(&self) -> (r: Vec<RibEntry>)
        ensures
            r@.len() == self@.len(),
            forall|i: int| 0 <= i < r@.len() ==> (#[trigger] r@[i])@ == self@[i].0,
    {
        self.rib.routes()
    }

    pub fn does_contain_new_route(&self) -> (r: bool)
        ensures
            r == rib_has_new(self@),
    {
        self.rib.does_contain_new_route()
    }

    pub fn update_to_all_changed(&mut self)
        ensures
            final(self)@.len() == old(self)@.len(),
            forall|i: int|
                0 <= i < old(self)@.len() ==> (#[trigger] final(self)@[i]).0 == old(self)@[i].0
                    && final(self)@[i].1 == RibEntryStatus::UnChanged,
            old(self).wf() ==> final(self).wf(),
    {
        self.rib.update_to_all_changed()
    }

    /// Copies into this table every Loc-RIB route that was not carried
    /// through the remote peer's ASN; the rest are left out, which keeps the
    /// table free of routes the peer itself sent (loop avoidance).
    pub fn install_from_loc_rib(&mut self, loc_rib: &LocRib, config: &Config)
        ensures
            final(self)@.len() >= old(self)@.len(),
            forall|i: int| 0 <= i < old(self)@.len() ==> final(self)@[i] == #[trigger] old(
                self,
            )@[i],
            forall|i: int|
                old(self)@.len() <= i < final(self)@.len() ==> (#[trigger] final(self)@[i]).1
                    is New && !entry_contains_as(final(self)@[i].0, config.remote_as)
                    && rib_contains(loc_rib@, final(self)@[i].0),
            forall|j: int|
                0 <= j < loc_rib@.len() && !entry_contains_as(
                    (#[trigger] loc_rib@[j]).0,
                    config.remote_as,
                ) ==> rib_contains(final(self)@, loc_rib@[j].0),
            old(self).wf() ==> final(self).wf(),
            rib_no_loop(old(self)@, config.remote_as) ==> rib_no_loop(
                final(self)@,
                config.remote_as,
            ),
    {
        let ghost pre = self@;
        let len = loc_rib.len();
        let mut j: usize = 0;
        while j < len
            invariant
                j <= len,
                len == loc_rib@.len(),
                self@.len() >= pre.len(),
                forall|i: int| 0 <= i < pre.len() ==> self@[i] == #[trigger] pre[i],
                forall|i: int|
                    pre.len() <= i < self@.len() ==> (#[trigger] self@[i]).1 is New
                        && !entry_contains_as(self@[i].0, config.remote_as) && rib_contains(
                        loc_rib@,
                        self@[i].0,
                    ),
                forall|k: int|
                    0 <= k < j && !entry_contains_as((#[trigger] loc_rib@[k]).0, config.remote_as)
                        ==> rib_contains(self@, loc_rib@[k].0),
                rib_wf(pre) ==> rib_wf(self@),
            decreases len - j,
        {
            let entry = loc_rib.get(j).clone();
            let ghost before = self@;
            if !entry.does_contain_as(config.remote_as) {
                self.rib.insert(entry);
            }
            proof {
                assert forall|k: int|
                    0 <= k < j + 1 && !entry_contains_as(
                        (#[trigger] loc_rib@[k]).0,
                        config.remote_as,
                    ) implies rib_contains(self@, loc_rib@[k].0) by {
                    if k < j {
                        lemma_rib_contains_monotone(before, self@, loc_rib@[k].0);
                    } else {
                        if rib_contains(before, entry@) {
                            lemma_rib_contains_monotone(before, self@, loc_rib@[k].0);
                        } else {
                            assert(self@[self@.len() - 1].0 == entry@);
                        }
                    }
                }
            }
            j = j + 1;
        }
        proof {
            if rib_no_loop(pre, config.remote_as) {
                assert forall|i: int| 0 <= i < self@.len() implies !entry_contains_as(
                    (#[trigger] self@[i]).0,
                    config.remote_as,
                ) by {
                    if i < pre.len() {
                        assert(self@[i] == pre[i]);
                    }
                }
            }
        }
    }

    /// One UPDATE per route in this table, each re-emitted with the local
    /// ASN in front of its AS_PATH and the local address as next hop.
    pub fn create_update_messages(
        &self,
        local_ip: Ipv4Addr,
        local_as: AutonomousSystemNumber,
    ) -> (r: Vec<crate::packets::update::UpdateMessage>)
        ensures
            r@.len() == self@.len(),
            forall|i: int|
                0 <= i < r@.len() ==> (#[trigger] r@[i])@ == update_for_route(
                    self@[i].0,
                    local_as,
                    local_ip,
                ),
    {
        let mut out: Vec<crate::packets::update::UpdateMessage> = Vec::new();
        let len = self.rib.len();
        let mut i: usize = 0;
        while i < len
            invariant
                i <= len,
                len == self@.len(),
                out@.len() == i,
                forall|j: int|
                    0 <= j < i ==> (#[trigger] out@[j])@ == update_for_route(
                        self@[j].0,
                        local_as,
                        local_ip,
                    ),
            decreases len - i,
        {
            let entry = self.rib.get(i);
            let attrs = transform_attributes(&entry.path_attributes, local_as, local_ip);
            let mut nlri: Vec<Ipv4Network> = Vec::new();
            nlri.push(entry.network_address);
            let update = crate::packets::update::UpdateMessage {
                withdrawn_routes: Vec::new(),
                path_attributes: attrs,
                network_layer_reachability_information: nlri,
            };
            proof {
                assert(update@.nlri =~= seq![self@[i as int].0.network_address]);
                assert(update@.withdrawn_routes =~= Seq::<Ipv4Network>::empty());
            }
            out.push(update);
            i = i + 1;
        }
        out
    }
}

/// The per-peer table of routes learned from that peer.
#[derive(Debug)]
pub struct AdjRibIn {
    rib: Rib,
}

impl AdjRibIn {
    /// The routes and their statuses, oldest insertion first.
    pub closed spec fn view(self) -> RibView {
        self.rib@
    }

    pub open spec fn wf(self) -> bool {
        rib_wf(self@)
    }

    pub fn new() -> (r: Self)
        ensures
            r@ == Seq::<(RibEntryView, RibEntryStatus)>::empty(),
            r.wf(),
    {
        AdjRibIn { rib: Rib::new() }
    }

    pub fn routes(&self) -> (r: Vec<RibEntry>)
        ensures
            r@.len() == self@.len(),
            forall|i: int| 0 <= i < r@.len() ==> (#[trigger] r@[i])@ == self@[i].0,
    {
        self.rib.routes()
    }

    pub fn does_contain_new_route(&self) -> (r: bool)
        ensures
            r == rib_has_new(self@),
    {
        self.rib.does_contain_new_route()
    }

    pub fn update_to_all_changed(&mut self)
        ensures
            final(self)@.len() == old(self)@.len(),
            forall|i: int|
                0 <= i < old(self)@.len() ==> (#[trigger] final(self)@[i]).0 == old(self)@[i].0
                    && final(self)@[i].1 == RibEntryStatus::UnChanged,
            old(self).wf() ==> final(self).wf(),
    {
        self.rib.update_to_all_changed()
    }

    /// Installs every announced route of the UPDATE, with the UPDATE's own
    /// attributes, leaving out routes whose AS_PATH already carries the local
    /// ASN (inbound loop avoidance).
    pub fn install_from_update(
        &mut self,
        update: &crate::packets::update::UpdateMessage,
        config: &Config,
    )
        ensures
            final(self)@.len() >= old(self)@.len(),
            forall|i: int| 0 <= i < old(self)@.len() ==> final(self)@[i] == #[trigger] old(
                self,
            )@[i],
            forall|i: int|
                old(self)@.len() <= i < final(self)@.len() ==> (#[trigger] final(self)@[i]).1
                    is New && final(self)@[i].0.path_attributes == update@.path_attributes
                    && networks_include(update@.nlri, final(self)@[i].0.network_address)
                    && !attrs_contain_as(update@.path_attributes, config.local_as),
            !attrs_contain_as(update@.path_attributes, config.local_as) ==> forall|j: int|
                0 <= j < update@.nlri.len() ==> rib_contains(
                    final(self)@,
                    RibEntryView {
                        network_address: #[trigger] update@.nlri[j],
                        path_attributes: update@.path_attributes,
                    },
                ),
            old(self).wf() ==> final(self).wf(),
    {
        let ghost pre = self@;
        let nlri = &update.network_layer_reachability_information;
        let len = nlri.len();
        let mut j: usize = 0;
        while j < len
            invariant
                j <= len,
                len == update@.nlri.len(),
                nlri@ == update@.nlri,
                crate::path_attribute::attr_views(update.path_attributes@)
                    == update@.path_attributes,
                self@.len() >= pre.len(),
                forall|i: int| 0 <= i < pre.len() ==> self@[i] == #[trigger] pre[i],
                forall|i: int|
                    pre.len() <= i < self@.len() ==> (#[trigger] self@[i]).1 is New
                        && self@[i].0.path_attributes == update@.path_attributes
                        && networks_include(update@.nlri, self@[i].0.network_address)
                        && !attrs_contain_as(update@.path_attributes, config.local_as),
                !attrs_contain_as(update@.path_attributes, config.local_as) ==> forall|k: int|
                    0 <= k < j ==> rib_contains(
                        self@,
                        RibEntryView {
                            network_address: #[trigger] update@.nlri[k],
                            path_attributes: update@.path_attributes,
                        },
                    ),
                rib_wf(pre) ==> rib_wf(self@),
            decreases len - j,
        {
            let entry = RibEntry {
                network_address: nlri[j],
                path_attributes: clone_attrs(&update.path_attributes),
            };
            let ghost before = self@;
            if !entry.does_contain_as(config.local_as) {
                self.rib.insert(entry);
            }
            proof {
                if !attrs_contain_as(update@.path_attributes, config.local_as) {
                    assert forall|k: int| 0 <= k < j + 1 implies rib_contains(
                        self@,
                        RibEntryView {
                            network_address: #[trigger] update@.nlri[k],
                            path_attributes: update@.path_attributes,
                        },
                    ) by {
                        let e = RibEntryView {
                            network_address: update@.nlri[k],
                            path_attributes: update@.path_attributes,
                        };
                        if k < j {
                            lemma_rib_contains_monotone(before, self@, e);
                        } else {
                            if rib_contains(before, entry@) {
                                lemma_rib_contains_monotone(before, self@, e);
                            } else {
                                assert(self@[self@.len() - 1].0 == entry@);
                            }
                        }
                    }
                }
            }
            j = j + 1;
        }
    }
}

/// The speaker's own view of the routes it holds, shared by every peer.
#[derive(Debug)]
pub struct LocRib {
    rib: Rib,
    local_as_number: AutonomousSystemNumber,
}

/// The kernel routes this RIB would install: every route still marked `New`
/// that carries a next hop, as (destination, gateway), in table order.
pub open spec fn install_list(m: RibView) -> Seq<(Ipv4Network, Ipv4Addr)>
    decreases m.len(),
{
    if m.len() == 0 {
        Seq::empty()
    } else {
        let rest = install_list(m.drop_first());
        if m[0].1 is New {
            match first_next_hop(m[0].0.path_attributes) {
                Some(nh) => seq![(m[0].0.network_address, nh)] + rest,
                None => rest,
            }
        } else {
            rest
        }
    }
}

impl LocRib {
    /// The routes and their statuses, oldest insertion first.
    pub closed spec fn view(self) -> RibView {
        self.rib@
    }

    /// The local autonomous system number this table was built for.
    pub closed spec fn local_as(self) -> AutonomousSystemNumber {
        self.local_as_number
    }

    pub open spec fn wf(self) -> bool {
        rib_wf(self@)
    }

    /// Builds the table from the kernel's routes: every kernel route whose
    /// destination exactly matches a configured network is seeded, marked
    /// `New`, with the locally originated attributes.
    pub fn new(config: &Config, kernel_routes: &Vec<Ipv4Network>) -> (r: Self)
        ensures
            r.local_as() == config.local_as,
            r.wf(),
            forall|i: int|
                0 <= i < r@.len() ==> (#[trigger] r@[i]).1 is New && exists|k: int|
                    0 <= k < kernel_routes@.len() && r@[i].0 == seed_entry(
                        #[trigger] kernel_routes@[k],
                        config.local_ip,
                    ) && config.networks@.contains(kernel_routes@[k]),
            forall|k: int|
                0 <= k < kernel_routes@.len() && config.networks@.contains(
                    #[trigger] kernel_routes@[k],
                ) ==> rib_contains(r@, seed_entry(kernel_routes@[k], config.local_ip)),
    {
        let mut rib = Rib::new();
        let len = kernel_routes.len();
        let mut k: usize = 0;
        while k < len
            invariant
                k <= len,
                len == kernel_routes@.len(),
                rib.wf(),
                forall|i: int|
                    0 <= i < rib@.len() ==> (#[trigger] rib@[i]).1 is New && exists|m: int|
                        0 <= m < kernel_routes@.len() && rib@[i].0 == seed_entry(
                            #[trigger] kernel_routes@[m],
                            config.local_ip,
                        ) && config.networks@.contains(kernel_routes@[m]),
                forall|m: int|
                    0 <= m < k && config.networks@.contains(#[trigger] kernel_routes@[m])
                        ==> rib_contains(rib@, seed_entry(kernel_routes@[m], config.local_ip)),
            decreases len - k,
        {
            let ghost before = rib@;
            if networks_contain(&config.networks, kernel_routes[k]) {
                rib.insert(seed_rib_entry(kernel_routes[k], config.local_ip));
            }
            proof {
                assert forall|m: int|
                    0 <= m < k + 1 && config.networks@.contains(#[trigger] kernel_routes@[m])
                        implies rib_contains(
                        rib@,
                        seed_entry(kernel_routes@[m], config.local_ip),
                    ) by {
                    let e = seed_entry(kernel_routes@[m], config.local_ip);
                    if m < k {
                        lemma_rib_contains_monotone(before, rib@, e);
                    } else {
                        if rib_contains(before, e) {
                            lemma_rib_contains_monotone(before, rib@, e);
                        } else {
                            assert(rib@[rib@.len() - 1].0 == e);
                        }
                    }
                }
            }
            k = k + 1;
        }
        LocRib { rib, local_as_number: config.local_as }
    }

    pub fn len(&self) -> (r: usize)
        ensures
            r == self@.len(),
    {
        self.rib.len()
    }

    /// The route at position `i`.
    pub fn get(&self, i: usize) -> (r: &RibEntry)
        requires
            i < self@.len(),
        ensures
            r@ == self@[i as int].0,
    {
        self.rib.get(i)
    }

    pub fn routes(&self) -> (r: Vec<RibEntry>)
        ensures
            r@.len() == self@.len(),
            forall|i: int| 0 <= i < r@.len() ==> (#[trigger] r@[i])@ == self@[i].0,
    {
        self.rib.routes()
    }

    pub fn does_contain_new_route(&self) -> (r: bool)
        ensures
            r == rib_has_new(self@),
    {
        self.rib.does_contain_new_route()
    }

    pub fn update_to_all_changed(&mut self)
        ensures
            final(self)@.len() == old(self)@.len(),
            forall|i: int|
                0 <= i < old(self)@.len() ==> (#[trigger] final(self)@[i]).0 == old(self)@[i].0
                    && final(self)@[i].1 == RibEntryStatus::UnChanged,
            old(self).wf() ==> final(self).wf(),
            final(self).local_as() == old(self).local_as(),
    {
        self.rib.update_to_all_changed()
    }

    /// Copies every route of the peer's Adj-RIB-In into this table.
    pub fn install_from_adj_rib_in(&mut self, adj_rib_in: &AdjRibIn)
        ensures
            final(self)@.len() >= old(self)@.len(),
            forall|i: int| 0 <= i < old(self)@.len() ==> final(self)@[i] == #[trigger] old(
                self,
            )@[i],
            forall|i: int|
                old(self)@.len() <= i < final(self)@.len() ==> (#[trigger] final(self)@[i]).1
                    is New && rib_contains(adj_rib_in@, final(self)@[i].0),
            forall|j: int| 0 <= j < adj_rib_in@.len() ==> rib_contains(
                final(self)@,
                (#[trigger] adj_rib_in@[j]).0,
            ),
            old(self).wf() ==> final(self).wf(),
            final(self).local_as() == old(self).local_as(),
    {
        let ghost pre = self@;
        let len = adj_rib_in.rib.len();
        let mut j: usize = 0;
        while j < len
            invariant
                j <= len,
                len == adj_rib_in@.len(),
                self@.len() >= pre.len(),
                self.local_as() == old(self).local_as(),
                forall|i: int| 0 <= i < pre.len() ==> self@[i] == #[trigger] pre[i],
                forall|i: int|
                    pre.len() <= i < self@.len() ==> (#[trigger] self@[i]).1 is New
                        && rib_contains(adj_rib_in@, self@[i].0),
                forall|k: int| 0 <= k < j ==> rib_contains(
                    self@,
                    (#[trigger] adj_rib_in@[k]).0,
                ),
                rib_wf(pre) ==> rib_wf(self@),
            decreases len - j,
        {
            let entry = adj_rib_in.rib.get(j).clone();
            let ghost before = self@;
            self.rib.insert(entry);
            proof {
                assert forall|k: int| 0 <= k < j + 1 implies rib_contains(
                    self@,
                    (#[trigger] adj_rib_in@[k]).0,
                ) by {
                    if k < j {
                        lemma_rib_contains_monotone(before, self@, adj_rib_in@[k].0);
                    } else {
                        if rib_contains(before, entry@) {
                            lemma_rib_contains_monotone(before, self@, adj_rib_in@[k].0);
                        } else {
                            assert(self@[self@.len() - 1].0 == entry@);
                        }
                    }
                }
            }
            j = j + 1;
        }
    }

    /// The kernel routes to install now: every `New` route with its next
    /// hop, as `install_list` says.
    pub fn routes_to_install(&self) -> (r: Vec<(Ipv4Network, Ipv4Addr)>)
        ensures
            r@ == install_list(self@),
    {
        let mut out: Vec<(Ipv4Network, Ipv4Addr)> = Vec::new();
        let len = self.rib.len();
        let mut i: usize = 0;
        proof {
            assert(self@.skip(0) =~= self@);
            assert(out@ + install_list(self@) =~= install_list(self@));
        }
        while i < len
            invariant
                i <= len,
                len == self@.len(),
                install_list(self@) == out@ + install_list(self@.skip(i as int)),
            decreases len - i,
        {
            let ghost tail = self@.skip(i as int);
            let entry = self.rib.get(i);
            let status = self.rib.status_at(i);
            proof {
                assert(tail[0] == self@[i as int]);
                assert(tail.drop_first() =~= self@.skip(i as int + 1));
            }
            if matches!(status, RibEntryStatus::New) {
                match entry.next_hop() {
                    Some(nh) => {
                        out.push((entry.network_address, nh));
                        proof {
                            assert(install_list(tail) == seq![
                                (self@[i as int].0.network_address, nh),
                            ] + install_list(self@.skip(i as int + 1)));
                            assert(out@ + install_list(self@.skip(i as int + 1)) =~= out@.subrange(
                                0,
                                out@.len() - 1,
                            ) + install_list(tail));
                        }
                    },
                    None => {},
                }
            }
            i = i + 1;
        }
        proof {
            assert(self@.skip(len as int) =~= Seq::<(RibEntryView, RibEntryStatus)>::empty());
            assert(out@ + install_list(self@.skip(len as int)) =~= out@);
        }
        out
    }
}

} // verus!
