//! IPv4 addresses and networks: host `.N` in a `/24`, CIDR text.

use vstd::prelude::*;

use crate::constants::REQUIRED_PREFIX;
use crate::error::Error;
use vstd::string::StringExecFns;
use crate::text::{
    decimal, is_ascii_digit, is_ws, push_decimal, split, split_chars, string_from_chars,
    to_chars,
};

verus! {

/// An IPv4 address `a.b.c.d`.
#[derive(Clone, Copy, Debug, PartialEq, Eq, Structural)]
pub struct Ipv4Addr {
    pub a: u8,
    pub b: u8,
    pub c: u8,
    pub d: u8,
}

/// The address as a big-endian 32-bit number (`u32::from(Ipv4Addr)`).
pub open spec fn ipv4_bits(x: Ipv4Addr) -> u32 {
    ((x.a as u32) << 24u32) | ((x.b as u32) << 16u32) | ((x.c as u32) << 8u32) | (x.d as u32)
}

/// Dotted-decimal rendering (`Display` for `Ipv4Addr`).
pub open spec fn ipv4_text(x: Ipv4Addr) -> Seq<char> {
    decimal(x.a as nat) + seq!['.'] + decimal(x.b as nat) + seq!['.'] + decimal(x.c as nat)
        + seq!['.'] + decimal(x.d as nat)
}

/// One octet as std's IPv4 parser reads it: one to three ASCII digits, no
/// leading zero unless the octet is `0`, value at most 255.
pub open spec fn octet_ok(s: Seq<char>) -> bool {
    &&& 1 <= s.len() <= 3
    &&& forall|i: int| 0 <= i < s.len() ==> #[trigger] is_ascii_digit(s[i])
    &&& (s.len() == 1 || s[0] != '0')
    &&& crate::text::digits_value(s, 10) <= 255
}

pub open spec fn octet_value(s: Seq<char>) -> u8 {
    crate::text::digits_value(s, 10) as u8
}

/// What `str::parse::<std::net::Ipv4Addr>` accepts: four octets separated by dots.
pub open spec fn parse_ipv4(s: Seq<char>) -> Option<Ipv4Addr> {
    let parts = split(s, '.');
    if parts.len() == 4 && octet_ok(parts[0]) && octet_ok(parts[1]) && octet_ok(parts[2])
        && octet_ok(parts[3]) {
        Some(
            Ipv4Addr {
                a: octet_value(parts[0]),
                b: octet_value(parts[1]),
                c: octet_value(parts[2]),
                d: octet_value(parts[3]),
            },
        )
    } else {
        None
    }
}

/// The part of `s` before its first `/` (all of `s` when there is none).
pub open spec fn before_slash(s: Seq<char>) -> Seq<char> {
    split(s, '/')[0]
}

/// Address of a CIDR string `a.b.c.d/nn` (or of a bare address).
pub open spec fn cidr_addr(s: Seq<char>) -> Option<Ipv4Addr> {
    parse_ipv4(before_slash(s))
}

impl Ipv4Addr {
    pub fn new(a: u8, b: u8, c: u8, d: u8) -> (r: Ipv4Addr)
        ensures
            r == (Ipv4Addr { a, b, c, d }),
    {
        Ipv4Addr { a, b, c, d }
    }

    /// `0.0.0.0`.
    pub fn unspecified() -> (r: Ipv4Addr)
        ensures
            r == (Ipv4Addr { a: 0, b: 0, c: 0, d: 0 }),
    {
        Ipv4Addr { a: 0, b: 0, c: 0, d: 0 }
    }

    /// `255.255.255.255`.
    pub fn broadcast() -> (r: Ipv4Addr)
        ensures
            r == (Ipv4Addr { a: 255, b: 255, c: 255, d: 255 }),
    {
        Ipv4Addr { a: 255, b: 255, c: 255, d: 255 }
    }

    pub fn octets(&self) -> (r: [u8; 4])
        ensures
            r@ == seq![self.a, self.b, self.c, self.d],
    {
        let r = [self.a, self.b, self.c, self.d];
        assert(r@ =~= seq![self.a, self.b, self.c, self.d]);
        r
    }

    /// Same address (field by field).
    pub fn same(&self, other: &Ipv4Addr) -> (r: bool)
        ensures
            r == (*self == *other),
    {
        self.a == other.a && self.b == other.b && self.c == other.c && self.d == other.d
    }

    /// Dotted-decimal text, as `Display` renders it.
    pub fn to_string(&self) -> (r: String)
        ensures
            r@ == ipv4_text(*self),
    {
        let v = ipv4_chars(*self);
        string_from_chars(&v)
    }

    /// Parse dotted decimal as std's `Ipv4Addr::from_str` does.
    pub fn parse(s: &str) -> (r: Option<Ipv4Addr>)
        ensures
            r == parse_ipv4(s@),
    {
        let v = to_chars(s);
        parse_ipv4_chars(&v)
    }
}

/// Dotted-decimal characters of `x`.
pub fn ipv4_chars(x: Ipv4Addr) -> (r: Vec<char>)
    ensures
        r@ == ipv4_text(x),
{
    let mut v: Vec<char> = Vec::new();
    push_decimal(&mut v, x.a as u64);
    v.push('.');
    push_decimal(&mut v, x.b as u64);
    v.push('.');
    push_decimal(&mut v, x.c as u64);
    v.push('.');
    push_decimal(&mut v, x.d as u64);
    assert(v@ =~= ipv4_text(x));
    v
}

/// One octet (see [`octet_ok`]).
fn parse_octet(v: &[char]) -> (r: Option<u8>)
    ensures
        match r {
            Some(o) => octet_ok(v@) && o == octet_value(v@),
            None => !octet_ok(v@),
        },
{
    let n = v.len();
    if n < 1 || n > 3 {
        return None;
    }
    if n > 1 && v[0] == '0' {
        return None;
    }
    let mut i: usize = 0;
    let mut acc: u32 = 0;
    while i < n
        invariant
            1 <= n <= 3,
            n == v@.len(),
            i <= n,
            forall|k: int| 0 <= k < i ==> #[trigger] is_ascii_digit(v@[k]),
            acc as int == crate::text::digits_value(v@.subrange(0, i as int), 10),
            acc < 1000,
            i == 0 ==> acc == 0,
            i == 1 ==> acc < 10,
            i == 2 ==> acc < 100,
        decreases n - i,
    {
        let u = v[i] as u32;
        if u < 48 || u > 57 {
            assert(!is_ascii_digit(v@[i as int]));
            return None;
        }
        assert(v@.subrange(0, i + 1).drop_last() =~= v@.subrange(0, i as int));
        assert(crate::text::digit_value(v@[i as int]) == u - 48);
        acc = acc * 10 + (u - 48);
        i = i + 1;
    }
    assert(v@.subrange(0, n as int) =~= v@);
    if acc > 255 {
        return None;
    }
    Some(acc as u8)
}

/// Parse dotted decimal as std's `Ipv4Addr::from_str` does.
pub fn parse_ipv4_chars(v: &[char]) -> (r: Option<Ipv4Addr>)
    ensures
        r == parse_ipv4(v@),
{
    let parts = split_chars(v, '.');
    if parts.len() != 4 {
        return None;
    }
    let a = parse_octet(&parts[0]);
    let b = parse_octet(&parts[1]);
    let c = parse_octet(&parts[2]);
    let d = parse_octet(&parts[3]);
    assert(parts@[0]@ == split(v@, '.')[0]);
    assert(parts@[1]@ == split(v@, '.')[1]);
    assert(parts@[2]@ == split(v@, '.')[2]);
    assert(parts@[3]@ == split(v@, '.')[3]);
    match (a, b, c, d) {
        (Some(a), Some(b), Some(c), Some(d)) => Some(Ipv4Addr { a, b, c, d }),
        _ => None,
    }
}

/// Address of a CIDR string `a.b.c.d/nn`; `None` when the part before `/` is no IPv4.
pub fn cidr_ipv4(cidr: &str) -> (r: Option<Ipv4Addr>)
    ensures
        r == cidr_addr(cidr@),
{
    let v = to_chars(cidr);
    let parts = split_chars(&v, '/');
    assert(parts@[0]@ == split(v@, '/')[0]);
    parse_ipv4_chars(&parts[0])
}

/// An IPv4 network: address and prefix length.
#[derive(Clone, Copy, Debug, PartialEq, Eq, Structural)]
pub struct Ipv4Net {
    pub addr: Ipv4Addr,
    pub prefix_len: u8,
}

/// Netmask bits for a prefix length (`u32::MAX.checked_shl(32 - p).unwrap_or(0)`).
pub open spec fn prefix_mask(p: u8) -> u32 {
    if p == 0 {
        0u32
    } else {
        0xffff_ffffu32 << ((32 - p) as u32)
    }
}

/// Network address bits of `n` (`ipnet::Ipv4Net::network`).
pub open spec fn network_bits(n: Ipv4Net) -> u32 {
    ipv4_bits(n.addr) & prefix_mask(n.prefix_len)
}

/// Broadcast address bits of `n` (`ipnet::Ipv4Net::broadcast`).
pub open spec fn broadcast_bits(n: Ipv4Net) -> u32 {
    ipv4_bits(n.addr) | !prefix_mask(n.prefix_len)
}

/// `ipnet::Ipv4Net::contains(&Ipv4Addr)`: network <= ip <= broadcast.
pub open spec fn net_contains(n: Ipv4Net, ip: Ipv4Addr) -> bool {
    network_bits(n) <= ipv4_bits(ip) && ipv4_bits(ip) <= broadcast_bits(n)
}

/// A number as ipnet's parser reads it: one to `max_digits` ASCII digits
/// (leading zeros allowed) with a value below `upto`.
pub open spec fn ipnet_number_ok(s: Seq<char>, max_digits: int, upto: int) -> bool {
    &&& 1 <= s.len() <= max_digits
    &&& forall|i: int| 0 <= i < s.len() ==> #[trigger] is_ascii_digit(s[i])
    &&& crate::text::digits_value(s, 10) < upto
}

/// What `str::parse::<ipnet::Ipv4Net>` gives for `s`: four octets (up to
/// three digits, below 256) separated by dots, a `/`, and a prefix length
/// (up to two digits, below 33), nothing else; the address is kept as written.
pub open spec fn ipnet_parse(s: Seq<char>) -> Option<Ipv4Net> {
    let halves = split(s, '/');
    let parts = split(halves[0], '.');
    if halves.len() == 2 && parts.len() == 4 && ipnet_number_ok(parts[0], 3, 256)
        && ipnet_number_ok(parts[1], 3, 256) && ipnet_number_ok(parts[2], 3, 256)
        && ipnet_number_ok(parts[3], 3, 256) && ipnet_number_ok(halves[1], 2, 33) {
        Some(
            Ipv4Net {
                addr: Ipv4Addr {
                    a: octet_value(parts[0]),
                    b: octet_value(parts[1]),
                    c: octet_value(parts[2]),
                    d: octet_value(parts[3]),
                },
                prefix_len: crate::text::digits_value(halves[1], 10) as u8,
            },
        )
    } else {
        None
    }
}

/// Calls `ipnet::Ipv4Net::network` on the network `addr/prefix_len`.
/// Claimed: the result's bits are the address bits masked by the prefix, as
/// `Ipv4Addr::from(u32::from(addr) & netmask)` in ipnet's source.
#[verifier::external_body]
fn ipnet_network(addr: Ipv4Addr, prefix_len: u8) -> (r: Ipv4Addr)
    requires
        prefix_len <= 32,
    ensures
        ipv4_bits(r) == ipv4_bits(addr) & prefix_mask(prefix_len),
{
    match ipnet::Ipv4Net::new([addr.a, addr.b, addr.c, addr.d].into(), prefix_len) {
        Ok(n) => {
            let o = n.network().octets();
            Ipv4Addr { a: o[0], b: o[1], c: o[2], d: o[3] }
        },
        Err(_) => Ipv4Addr { a: 0, b: 0, c: 0, d: 0 },
    }
}

/// Calls `ipnet::Ipv4Net::contains(&Ipv4Addr)` on the network `addr/prefix_len`.
/// Claimed: true exactly when `network() <= ip <= broadcast()`, compared as
/// 32-bit numbers, which is the body of that impl in ipnet's source.
#[verifier::external_body]
fn ipnet_contains(addr: Ipv4Addr, prefix_len: u8, ip: Ipv4Addr) -> (r: bool)
    requires
        prefix_len <= 32,
    ensures
        r == net_contains(Ipv4Net { addr, prefix_len }, ip),
{
    match ipnet::Ipv4Net::new([addr.a, addr.b, addr.c, addr.d].into(), prefix_len) {
        Ok(n) => {
            let mut x = n.addr();
            x = [ip.a, ip.b, ip.c, ip.d].into();
            n.contains(&x)
        },
        Err(_) => false,
    }
}

/// Calls `str::parse::<ipnet::Ipv4Net>`. Claimed: the result is what
/// [`ipnet_parse`] states (ipnet's parser reads the text as bytes: four
/// numbers of at most three digits below 256 joined by `.`, a `/`, a number
/// of at most two digits below 33, then the end; it builds the network with
/// `Ipv4Net::new`, which keeps the address as written), so a parsed network
/// has a prefix length of at most 32.
#[verifier::external_body]
fn ipnet_from_str(s: &str) -> (r: Option<Ipv4Net>)
    ensures
        r == ipnet_parse(s@),
        r matches Some(n) ==> n.prefix_len <= 32,
{
    match s.parse::<ipnet::Ipv4Net>() {
        Ok(n) => {
            let o = n.addr().octets();
            Some(
                Ipv4Net {
                    addr: Ipv4Addr { a: o[0], b: o[1], c: o[2], d: o[3] },
                    prefix_len: n.prefix_len(),
                },
            )
        },
        Err(_) => None,
    }
}

/// Octets of an address whose bits are those of `x` under a `/24` mask.
pub proof fn lemma_mask24_octets(r: Ipv4Addr, x: Ipv4Addr)
    requires
        ipv4_bits(r) == ipv4_bits(x) & prefix_mask(24),
    ensures
        r.a == x.a,
        r.b == x.b,
        r.c == x.c,
        r.d == 0,
{
    let (ra, rb, rc, rd) = (r.a, r.b, r.c, r.d);
    let (xa, xb, xc, xd) = (x.a, x.b, x.c, x.d);
    assert(prefix_mask(24) == 0xffff_ff00u32) by (bit_vector);
    assert(ra == xa && rb == xb && rc == xc && rd == 0) by (bit_vector)
        requires
            ((ra as u32) << 24u32) | ((rb as u32) << 16u32) | ((rc as u32) << 8u32) | (rd as u32)
                == (((xa as u32) << 24u32) | ((xb as u32) << 16u32) | ((xc as u32) << 8u32) | (
            xd as u32)) & 0xffff_ff00u32,
    ;
}

impl Ipv4Net {
    /// `ipnet::Ipv4Net::new` rules: `None` when the prefix is longer than 32.
    pub fn new(addr: Ipv4Addr, prefix_len: u8) -> (r: Option<Ipv4Net>)
        ensures
            r == (if prefix_len <= 32 {
                Some(Ipv4Net { addr, prefix_len })
            } else {
                None
            }),
    {
        if prefix_len <= 32 {
            Some(Ipv4Net { addr, prefix_len })
        } else {
            None
        }
    }

    pub fn prefix_len(&self) -> (r: u8)
        ensures
            r == self.prefix_len,
    {
        self.prefix_len
    }

    /// The network address (address bits under the netmask).
    pub fn network(&self) -> (r: Ipv4Addr)
        requires
            self.prefix_len <= 32,
        ensures
            ipv4_bits(r) == network_bits(*self),
    {
        ipnet_network(self.addr, self.prefix_len)
    }

    /// `ip` lies between the network and broadcast addresses.
    pub fn contains(&self, ip: &Ipv4Addr) -> (r: bool)
        requires
            self.prefix_len <= 32,
        ensures
            r == net_contains(*self, *ip),
    {
        ipnet_contains(self.addr, self.prefix_len, *ip)
    }

    /// Parse `a.b.c.d/nn` with ipnet's parser.
    pub fn parse(s: &str) -> (r: Option<Ipv4Net>)
        ensures
            r == ipnet_parse(s@),
            r matches Some(n) ==> n.prefix_len <= 32,
    {
        ipnet_from_str(s)
    }
}

/// Addresses derived from gateway subnet + host octets.
#[derive(Clone, Copy, Debug, PartialEq, Eq)]
pub struct IfaceAddrs {
    pub gateway: Ipv4Addr,
    pub static_host: Ipv4Addr,
    pub range_start: Ipv4Addr,
    pub range_end: Ipv4Addr,
}

/// Last-octet host in a `/24`.
pub fn host_in_slash24(net: Ipv4Net, host: u8) -> (r: Result<Ipv4Addr, Error>)
    ensures
        net.prefix_len != 24 ==> (r matches Err(Error::Config(m)) && m@ == "subnet must be /24"@),
        net.prefix_len == 24 ==> r == Ok::<Ipv4Addr, Error>(
            Ipv4Addr { a: net.addr.a, b: net.addr.b, c: net.addr.c, d: host },
        ),
{
    if net.prefix_len != REQUIRED_PREFIX {
        let m = String::from_str("subnet must be /24");
        proof {
            reveal_strlit("subnet must be /24");
        }
        return Err(Error::Config(m));
    }
    let n = net.network();
    proof {
        lemma_mask24_octets(n, net.addr);
    }
    Ok(Ipv4Addr { a: n.a, b: n.b, c: n.c, d: host })
}

/// The word after the first `inet` word that has one (`ip -o addr` output).
pub open spec fn first_inet(ws: Seq<Seq<char>>) -> Option<Seq<char>> {
    if exists|i: int| 0 <= i && i + 1 < ws.len() && ws[i] == "inet"@ {
        let i = choose|i: int|
            0 <= i && i + 1 < ws.len() && ws[i] == "inet"@ && forall|k: int|
                0 <= k < i ==> !(k + 1 < ws.len() && ws[k] == "inet"@);
        Some(ws[i + 1])
    } else {
        None
    }
}

/// The first IPv4 CIDR in `ip -4 -o addr show` output: the word after `inet`.
pub fn parse_first_inet_cidr(text: &str) -> (r: Option<String>)
    ensures
        match first_inet(crate::text::words(text@)) {
            Some(c) => r matches Some(s) && s@ == c,
            None => r is None,
        },
{
    let ws = crate::text::words_chars(&to_chars(text));
    let ghost wv = crate::text::views(ws@);
    let inet = to_chars("inet");
    let mut i: usize = 0;
    while i < ws.len()
        invariant
            wv == crate::text::views(ws@),
            wv == crate::text::words(text@),
            inet@ == "inet"@,
            i <= ws@.len(),
            forall|k: int| 0 <= k < i ==> !(k + 1 < wv.len() && wv[k] == "inet"@),
        decreases ws@.len() - i,
    {
        assert(wv[i as int] == ws@[i as int]@);
        if i + 1 < ws.len() && crate::text::chars_eq(&ws[i], &inet) {
            proof {
                let j = choose|j: int|
                    0 <= j && j + 1 < wv.len() && wv[j] == "inet"@ && forall|k: int|
                        0 <= k < j ==> !(k + 1 < wv.len() && wv[k] == "inet"@);
                assert(j == i);
                assert(wv[i + 1] == ws@[i + 1]@);
            }
            return Some(string_from_chars(&ws[i + 1]));
        }
        i = i + 1;
    }
    None
}

} // verus!
