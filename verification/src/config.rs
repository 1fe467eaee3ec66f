//! One peer's configuration: the local and remote speakers, the connection
//! mode, and the networks this speaker originates. A configuration line
//! holds space-separated fields, runs of spaces allowed: `local_as local_ip
//! remote_as remote_ip mode [network ...]`, each network in CIDR form
//! `a.b.c.d/p`.

use vstd::prelude::*;

use crate::bgp_type::{AutonomousSystemNumber, Ipv4Addr};
use crate::error::ConfigParseError;
use crate::routing::Ipv4Network;

verus! {

/// Whether this peer dials the remote speaker or awaits its connection.
#[derive(Debug, Clone, Copy, PartialEq, Eq, Structural, Hash)]
pub enum Mode {
    Active,
    Passive,
}

/// A peer configuration line's content.
#[derive(Debug, Clone, PartialEq, Eq)]
pub struct Config {
    pub local_as: AutonomousSystemNumber,
    pub local_ip: Ipv4Addr,
    pub remote_as: AutonomousSystemNumber,
    pub remote_ip: Ipv4Addr,
    pub mode: Mode,
    pub networks: Vec<Ipv4Network>,
}

/// Mathematical model of a `Config`.
pub ghost struct ConfigView {
    pub local_as: AutonomousSystemNumber,
    pub local_ip: Ipv4Addr,
    pub remote_as: AutonomousSystemNumber,
    pub remote_ip: Ipv4Addr,
    pub mode: Mode,
    pub networks: Seq<Ipv4Network>,
}

impl View for Config {
    type V = ConfigView;

    open spec fn view(&self) -> ConfigView {
        ConfigView {
            local_as: self.local_as,
            local_ip: self.local_ip,
            remote_as: self.remote_as,
            remote_ip: self.remote_ip,
            mode: self.mode,
            networks: self.networks@,
        }
    }
}

/// Index of the first `sep` byte, or the length when none occurs.
pub open spec fn sep_pos(s: Seq<u8>, sep: u8) -> nat
    decreases s.len(),
{
    if s.len() == 0 {
        0
    } else if s[0] == sep {
        0
    } else {
        1 + sep_pos(s.drop_first(), sep)
    }
}

/// The fields a byte sequence splits into at each `sep`: empty input is one
/// empty field, and every separator starts a new field.
pub open spec fn split_at(s: Seq<u8>, sep: u8) -> Seq<Seq<u8>>
    decreases s.len(),
{
    let p = sep_pos(s, sep) as int;
    if p >= s.len() {
        seq![s]
    } else {
        seq![s.take(p)] + split_at(s.skip(p + 1), sep)
    }
}

pub open spec fn token_views(v: Seq<Vec<u8>>) -> Seq<Seq<u8>> {
    v.map_values(|t: Vec<u8>| t@)
}

/// All ASCII digits, at least one.
pub open spec fn is_digits(t: Seq<u8>) -> bool {
    t.len() > 0 && forall|i: int| 0 <= i < t.len() ==> 48 <= #[trigger] t[i] <= 57
}

/// The number the digits spell, most significant first.
pub open spec fn digits_val(t: Seq<u8>) -> int
    decreases t.len(),
{
    if t.len() == 0 {
        0
    } else {
        digits_val(t.drop_last()) * 10 + (t.last() - 48)
    }
}

/// The meaning of a field as a decimal number of at most `bound`.
pub open spec fn parse_dec(t: Seq<u8>, bound: int) -> Option<int> {
    if is_digits(t) && digits_val(t) <= bound {
        Some(digits_val(t))
    } else {
        None
    }
}

/// The meaning of a field as a dotted-quad IPv4 address.
pub open spec fn parse_ipv4(t: Seq<u8>) -> Option<Ipv4Addr> {
    let parts = split_at(t, 46);
    if parts.len() == 4 && parse_dec(parts[0], 255) is Some && parse_dec(parts[1], 255) is Some
        && parse_dec(parts[2], 255) is Some && parse_dec(parts[3], 255) is Some {
        Some(
            Ipv4Addr {
                o1: parse_dec(parts[0], 255).unwrap() as u8,
                o2: parse_dec(parts[1], 255).unwrap() as u8,
                o3: parse_dec(parts[2], 255).unwrap() as u8,
                o4: parse_dec(parts[3], 255).unwrap() as u8,
            },
        )
    } else {
        None
    }
}

/// The meaning of a field as a CIDR network `a.b.c.d/p` with `p <= 32`.
pub open spec fn parse_network(t: Seq<u8>) -> Option<Ipv4Network> {
    let parts = split_at(t, 47);
    if parts.len() == 2 && parse_ipv4(parts[0]) is Some && parse_dec(parts[1], 32) is Some {
        Some(
            Ipv4Network {
                addr: parse_ipv4(parts[0]).unwrap(),
                prefix: parse_dec(parts[1], 32).unwrap() as u8,
            },
        )
    } else {
        None
    }
}

/// The bytes of `"active"`.
pub open spec fn active_bytes() -> Seq<u8> {
    seq![97u8, 99u8, 116u8, 105u8, 118u8, 101u8]
}

/// The bytes of `"passive"`.
pub open spec fn passive_bytes() -> Seq<u8> {
    seq![112u8, 97u8, 115u8, 115u8, 105u8, 118u8, 101u8]
}

pub open spec fn parse_mode(t: Seq<u8>) -> Option<Mode> {
    if t == active_bytes() {
        Some(Mode::Active)
    } else if t == passive_bytes() {
        Some(Mode::Passive)
    } else {
        None
    }
}

/// The fields with the empty ones dropped: splitting at every space and
/// keeping what runs of spaces leave behind.
pub open spec fn non_empty_tokens(ts: Seq<Seq<u8>>) -> Seq<Seq<u8>>
    decreases ts.len(),
{
    if ts.len() == 0 {
        Seq::empty()
    } else {
        let rest = non_empty_tokens(ts.drop_last());
        if ts.last().len() > 0 {
            rest.push(ts.last())
        } else {
            rest
        }
    }
}

/// Every field from index `k` on parses as a network.
pub open spec fn networks_parse_from(toks: Seq<Seq<u8>>, k: int) -> bool {
    forall|j: int| k <= j < toks.len() ==> parse_network(#[trigger] toks[j]) is Some
}

/// The meaning of a whole configuration line: the space-separated fields,
/// runs of spaces collapsed, read in order.
pub open spec fn parse_config(s: Seq<u8>) -> Option<ConfigView> {
    let toks = non_empty_tokens(split_at(s, 32));
    if toks.len() >= 5 && parse_dec(toks[0], 65535) is Some && parse_ipv4(toks[1]) is Some
        && parse_dec(toks[2], 65535) is Some && parse_ipv4(toks[3]) is Some && parse_mode(
        toks[4],
    ) is Some && networks_parse_from(toks, 5) {
        Some(
            ConfigView {
                local_as: AutonomousSystemNumber(parse_dec(toks[0], 65535).unwrap() as u16),
                local_ip: parse_ipv4(toks[1]).unwrap(),
                remote_as: AutonomousSystemNumber(parse_dec(toks[2], 65535).unwrap() as u16),
                remote_ip: parse_ipv4(toks[3]).unwrap(),
                mode: parse_mode(toks[4]).unwrap(),
                networks: Seq::new(
                    (toks.len() - 5) as nat,
                    |j: int| parse_network(toks[5 + j]).unwrap(),
                ),
            },
        )
    } else {
        None
    }
}

/// Where the first `sep` at or after a scan stands, the spec position agrees.
proof fn lemma_sep_pos(s: Seq<u8>, sep: u8, k: int)
    requires
        0 <= k <= s.len(),
        forall|j: int| 0 <= j < k ==> #[trigger] s[j] != sep,
        k == s.len() || s[k] == sep,
    ensures
        sep_pos(s, sep) == k,
    decreases k,
{
    if k == 0 {
    } else {
        assert(s[0] != sep);
        lemma_sep_pos(s.drop_first(), sep, k - 1);
    }
}

/// Splits a byte sequence at each `sep`, as `split_at` says.
fn split_bytes(input: &[u8], sep: u8) -> (r: Vec<Vec<u8>>)
    ensures
        token_views(r@) == split_at(input@, sep),
    decreases input@.len(),
{
    let mut tokens: Vec<Vec<u8>> = Vec::new();
    let mut start: usize = 0;
    let mut i: usize = 0;
    let len = input.len();
    proof {
        assert(input@.skip(0) =~= input@);
        assert(token_views(tokens@) + split_at(input@, sep) =~= split_at(input@, sep));
    }
    while i < len
        invariant
            start <= i <= len,
            len == input@.len(),
            forall|j: int| start <= j < i ==> #[trigger] input@[j] != sep,
            split_at(input@, sep) == token_views(tokens@) + split_at(
                input@.skip(start as int),
                sep,
            ),
        decreases len - i,
    {
        if input[i] == sep {
            let tok = vstd::slice::slice_to_vec(vstd::slice::slice_subrange(input, start, i));
            proof {
                let tail = input@.skip(start as int);
                assert(forall|j: int|
                    0 <= j < i - start ==> #[trigger] tail[j] == input@[start + j]);
                lemma_sep_pos(tail, sep, i - start as int);
                assert(tail.take(i - start as int) =~= tok@);
                assert(tail.skip(i - start as int + 1) =~= input@.skip(i as int + 1));
                assert(token_views(tokens@.push(tok)) =~= token_views(tokens@) + seq![tok@]);
                assert(token_views(tokens@) + (seq![tok@] + split_at(
                    input@.skip(i as int + 1),
                    sep,
                )) =~= (token_views(tokens@) + seq![tok@]) + split_at(
                    input@.skip(i as int + 1),
                    sep,
                ));
            }
            tokens.push(tok);
            start = i + 1;
        }
        i = i + 1;
    }
    let tok = vstd::slice::slice_to_vec(vstd::slice::slice_subrange(input, start, len));
    proof {
        let tail = input@.skip(start as int);
        assert(forall|j: int| 0 <= j < len - start ==> #[trigger] tail[j] == input@[start + j]);
        lemma_sep_pos(tail, sep, len - start as int);
        assert(tail.take(len - start as int) =~= tok@);
        assert(tail =~= tok@);
        assert(token_views(tokens@.push(tok)) =~= token_views(tokens@) + seq![tok@]);
    }
    tokens.push(tok);
    tokens
}

/// Once the digits so far exceed the bound, the whole number does.
proof fn lemma_digits_val_grows(t: Seq<u8>, i: int)
    requires
        0 <= i <= t.len(),
        forall|j: int| 0 <= j < t.len() ==> 48 <= #[trigger] t[j] <= 57,
    ensures
        digits_val(t.take(i)) <= digits_val(t),
    decreases t.len() - i,
{
    if i < t.len() {
        lemma_digits_val_grows(t, i + 1);
        assert(t.take(i + 1).drop_last() =~= t.take(i));
        assert(t.take(i + 1).last() == t[i]);
        assert(digits_val(t.take(i + 1)) == digits_val(t.take(i)) * 10 + (t[i] - 48));
        assert(forall|j: int| 0 <= j < t.take(i).len() ==> 48 <= #[trigger] t.take(i)[j] <= 57);
        assert(digits_val(t.take(i)) >= 0) by {
            lemma_digits_val_nonneg(t.take(i));
        }
    } else {
        assert(t.take(i) =~= t);
    }
}

proof fn lemma_digits_val_nonneg(t: Seq<u8>)
    requires
        forall|j: int| 0 <= j < t.len() ==> 48 <= #[trigger] t[j] <= 57,
    ensures
        digits_val(t) >= 0,
    decreases t.len(),
{
    if t.len() > 0 {
        assert(forall|j: int|
            0 <= j < t.drop_last().len() ==> 48 <= #[trigger] t.drop_last()[j] <= 57);
        lemma_digits_val_nonneg(t.drop_last());
    }
}

/// Reads a decimal field of at most `bound`, as `parse_dec` says.
fn parse_dec_bytes(t: &Vec<u8>, bound: u32) -> (r: Option<u32>)
    requires
        bound <= 65535,
    ensures
        match r {
            Some(v) => parse_dec(t@, bound as int) == Some(v as int),
            None => parse_dec(t@, bound as int) is None,
        },
{
    if t.len() == 0 {
        return None;
    }
    let mut acc: u32 = 0;
    let mut i: usize = 0;
    let len = t.len();
    while i < len
        invariant
            i <= len,
            len == t@.len(),
            forall|j: int| 0 <= j < i ==> 48 <= #[trigger] t@[j] <= 57,
            acc == digits_val(t@.take(i as int)),
            acc <= bound,
            bound <= 65535,
        decreases len - i,
    {
        let d = t[i];
        if d < 48 || d > 57 {
            return None;
        }
        proof {
            assert(t@.take(i as int + 1).drop_last() =~= t@.take(i as int));
            assert(t@.take(i as int + 1).last() == t@[i as int]);
        }
        let next: u32 = acc * 10 + (d - 48) as u32;
        if next > bound {
            proof {
                if is_digits(t@) {
                    lemma_digits_val_grows(t@, i as int + 1);
                }
            }
            return None;
        }
        acc = next;
        i = i + 1;
    }
    proof {
        assert(t@.take(len as int) =~= t@);
    }
    Some(acc)
}

/// Reads a dotted-quad field, as `parse_ipv4` says.
fn parse_ipv4_bytes(t: &Vec<u8>) -> (r: Option<Ipv4Addr>)
    ensures
        match r {
            Some(v) => parse_ipv4(t@) == Some(v),
            None => parse_ipv4(t@) is None,
        },
{
    let parts = split_bytes(t.as_slice(), 46);
    if parts.len() != 4 {
        return None;
    }
    proof {
        assert(token_views(parts@)[0] == parts@[0]@);
        assert(token_views(parts@)[1] == parts@[1]@);
        assert(token_views(parts@)[2] == parts@[2]@);
        assert(token_views(parts@)[3] == parts@[3]@);
    }
    let o1 = match parse_dec_bytes(&parts[0], 255) {
        Some(v) => v as u8,
        None => {
            return None;
        },
    };
    let o2 = match parse_dec_bytes(&parts[1], 255) {
        Some(v) => v as u8,
        None => {
            return None;
        },
    };
    let o3 = match parse_dec_bytes(&parts[2], 255) {
        Some(v) => v as u8,
        None => {
            return None;
        },
    };
    let o4 = match parse_dec_bytes(&parts[3], 255) {
        Some(v) => v as u8,
        None => {
            return None;
        },
    };
    Some(Ipv4Addr { o1, o2, o3, o4 })
}

/// Reads a CIDR field, as `parse_network` says.
fn parse_network_bytes(t: &Vec<u8>) -> (r: Option<Ipv4Network>)
    ensures
        match r {
            Some(v) => parse_network(t@) == Some(v),
            None => parse_network(t@) is None,
        },
{
    let parts = split_bytes(t.as_slice(), 47);
    if parts.len() != 2 {
        return None;
    }
    proof {
        assert(token_views(parts@)[0] == parts@[0]@);
        assert(token_views(parts@)[1] == parts@[1]@);
    }
    let addr = match parse_ipv4_bytes(&parts[0]) {
        Some(v) => v,
        None => {
            return None;
        },
    };
    let prefix = match parse_dec_bytes(&parts[1], 32) {
        Some(v) => v as u8,
        None => {
            return None;
        },
    };
    Some(Ipv4Network { addr, prefix })
}

/// Reads a mode field, as `parse_mode` says.
fn parse_mode_bytes(t: &Vec<u8>) -> (r: Option<Mode>)
    ensures
        match r {
            Some(v) => parse_mode(t@) == Some(v),
            None => parse_mode(t@) is None,
        },
{
    if t.len() == 6 && t[0] == 97 && t[1] == 99 && t[2] == 116 && t[3] == 105 && t[4] == 118
        && t[5] == 101 {
        proof {
            assert(t@ =~= active_bytes());
        }
        Some(Mode::Active)
    } else if t.len() == 7 && t[0] == 112 && t[1] == 97 && t[2] == 115 && t[3] == 115 && t[4]
        == 105 && t[5] == 118 && t[6] == 101 {
        proof {
            assert(t@ =~= passive_bytes());
        }
        Some(Mode::Passive)
    } else {
        proof {
            if t@ == active_bytes() {
                assert(t@.len() == 6);
                assert(t@[0] == 97 && t@[1] == 99 && t@[2] == 116 && t@[3] == 105 && t@[4] == 118
                    && t@[5] == 101);
            }
            if t@ == passive_bytes() {
                assert(t@.len() == 7);
                assert(t@[0] == 112 && t@[1] == 97 && t@[2] == 115 && t@[3] == 115 && t@[4] == 105
                    && t@[5] == 118 && t@[6] == 101);
            }
        }
        None
    }
}

impl Config {
    /// Parses one configuration line, as `parse_config` says: five
    /// space-separated fields and any number of networks, runs of spaces
    /// allowed between fields.
    pub fn parse(input: &[u8]) -> (r: Result<Self, ConfigParseError>)
        ensures
            match r {
                Ok(c) => parse_config(input@) == Some(c@),
                Err(e) => parse_config(input@) is None && e == ConfigParseError,
            },
    {
        let raw = split_bytes(input, 32);
        let ghost raw_tv = token_views(raw@);
        let mut toks: Vec<Vec<u8>> = Vec::new();
        let mut t: usize = 0;
        let raw_len = raw.len();
        proof {
            assert(raw_tv.take(0) =~= Seq::<Seq<u8>>::empty());
        }
        while t < raw_len
            invariant
                t <= raw_len,
                raw_len == raw@.len(),
                raw_tv == token_views(raw@),
                token_views(toks@) == non_empty_tokens(raw_tv.take(t as int)),
            decreases raw_len - t,
        {
            proof {
                assert(raw_tv.take(t as int + 1).drop_last() =~= raw_tv.take(t as int));
                assert(raw_tv.take(t as int + 1).last() == raw_tv[t as int]);
                assert(raw_tv[t as int] == raw@[t as int]@);
            }
            if raw[t].len() > 0 {
                let ghost pre_toks = token_views(toks@);
                toks.push(raw[t].clone());
                proof {
                    assert(token_views(toks@) =~= pre_toks.push(raw@[t as int]@));
                }
            }
            t = t + 1;
        }
        proof {
            assert(raw_tv.take(raw_len as int) =~= raw_tv);
        }
        let ghost tv = token_views(toks@);
        if toks.len() < 5 {
            return Err(ConfigParseError);
        }
        proof {
            assert(tv[0] == toks@[0]@);
            assert(tv[1] == toks@[1]@);
            assert(tv[2] == toks@[2]@);
            assert(tv[3] == toks@[3]@);
            assert(tv[4] == toks@[4]@);
        }
        let local_as = match parse_dec_bytes(&toks[0], 65535) {
            Some(v) => AutonomousSystemNumber(v as u16),
            None => {
                return Err(ConfigParseError);
            },
        };
        let local_ip = match parse_ipv4_bytes(&toks[1]) {
            Some(v) => v,
            None => {
                return Err(ConfigParseError);
            },
        };
        let remote_as = match parse_dec_bytes(&toks[2], 65535) {
            Some(v) => AutonomousSystemNumber(v as u16),
            None => {
                return Err(ConfigParseError);
            },
        };
        let remote_ip = match parse_ipv4_bytes(&toks[3]) {
            Some(v) => v,
            None => {
                return Err(ConfigParseError);
            },
        };
        let mode = match parse_mode_bytes(&toks[4]) {
            Some(v) => v,
            None => {
                return Err(ConfigParseError);
            },
        };
        let mut networks: Vec<Ipv4Network> = Vec::new();
        let mut k: usize = 5;
        let n = toks.len();
        while k < n
            invariant
                5 <= k <= n,
                n == toks@.len(),
                tv == token_views(toks@),
                tv == non_empty_tokens(split_at(input@, 32)),
                networks@.len() == k - 5,
                forall|j: int|
                    5 <= j < k ==> parse_network(#[trigger] tv[j]) == Some(
                        networks@[j - 5],
                    ),
            decreases n - k,
        {
            proof {
                assert(tv[k as int] == toks@[k as int]@);
            }
            match parse_network_bytes(&toks[k]) {
                Some(v) => networks.push(v),
                None => {
                    proof {
                        assert(parse_network(tv[k as int]) is None);
                        assert(!networks_parse_from(tv, 5));
                    }
                    return Err(ConfigParseError);
                },
            }
            k = k + 1;
        }
        let c = Config { local_as, local_ip, remote_as, remote_ip, mode, networks };
        proof {
            assert(networks_parse_from(tv, 5));
            assert(c@.networks =~= Seq::new(
                (tv.len() - 5) as nat,
                |j: int| parse_network(tv[5 + j]).unwrap(),
            ));
        }
        Ok(c)
    }
}

} // verus!
