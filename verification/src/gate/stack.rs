//! Devices of event WiFi stacks: kinds, hardware addresses, detection results.

use vstd::prelude::*;
use vstd::string::StringExecFns;

use crate::error::Error;
use crate::net::addr::Ipv4Addr;
use crate::text::{lemma_split_part, lemma_split_through, digit_value, digits_value, hex_digit, split_from, hex2, parse_unsigned, parse_unsigned_chars, push_hex2, split, split_chars, to_chars, string_from_chars, contains_char};

verus! {

/// Kind of detected or matched device.
#[derive(Clone, Copy, Debug, PartialEq, Eq, Structural)]
pub enum DeviceKind {
    Unknown,
    Controller,
    AccessPoint,
}

/// How a kind is written.
pub open spec fn kind_text(k: DeviceKind) -> Seq<char> {
    match k {
        DeviceKind::Unknown => "unknown"@,
        DeviceKind::Controller => "controller"@,
        DeviceKind::AccessPoint => "ap"@,
    }
}

impl DeviceKind {
    /// `unknown`, `controller` or `ap`.
    pub fn to_string(&self) -> (r: String)
        ensures
            r@ == kind_text(*self),
    {
        match self {
            DeviceKind::Unknown => String::from_str("unknown"),
            DeviceKind::Controller => String::from_str("controller"),
            DeviceKind::AccessPoint => String::from_str("ap"),
        }
    }
}

/// Hardware address (6 bytes).
#[derive(Clone, Copy, Debug)]
pub struct MacAddr(pub [u8; 6]);

/// The six bytes of an address.
pub open spec fn mac_bytes(m: MacAddr) -> Seq<u8> {
    m.0@
}

/// `aa:bb:cc:dd:ee:ff`, lowercase (`Display`).
pub open spec fn mac_text(m: MacAddr) -> Seq<char> {
    let b = m.0@;
    hex2(b[0]) + seq![':'] + hex2(b[1]) + seq![':'] + hex2(b[2]) + seq![':'] + hex2(b[3])
        + seq![':'] + hex2(b[4]) + seq![':'] + hex2(b[5])
}

/// The address as a 48-bit big-endian number: the order of these numbers is
/// the order of the addresses' text.
pub open spec fn mac_key(m: MacAddr) -> int {
    let b = m.0@;
    b[0] * 0x100_0000_0000 + b[1] * 0x1_0000_0000 + b[2] * 0x100_0000 + b[3] * 0x1_0000
        + b[4] * 0x100 + b[5]
}

/// Separator of a textual MAC: `:` when present, else `-`.
pub open spec fn mac_sep(s: Seq<char>) -> Option<char> {
    if s.contains(':') {
        Some(':')
    } else if s.contains('-') {
        Some('-')
    } else {
        None
    }
}

/// One part of a textual MAC read as a hex byte (`u8::from_str_radix(p, 16)`).
pub open spec fn hex_byte(p: Seq<char>) -> Option<u8> {
    match parse_unsigned(p, 16, 255) {
        Some(v) => Some(v as u8),
        None => None,
    }
}

/// What [`MacAddr::parse`] accepts: six hex bytes separated by `:` (or by
/// `-` when there is no `:`).
pub open spec fn parse_mac(s: Seq<char>) -> Option<MacAddr> {
    match mac_sep(s) {
        None => None,
        Some(sep) => {
            let ps = split(s, sep);
            if ps.len() == 6 && hex_byte(ps[0]) is Some && hex_byte(ps[1]) is Some && hex_byte(
                ps[2],
            ) is Some && hex_byte(ps[3]) is Some && hex_byte(ps[4]) is Some && hex_byte(
                ps[5],
            ) is Some {
                Some(
                    MacAddr(
                        [
                            hex_byte(ps[0])->0,
                            hex_byte(ps[1])->0,
                            hex_byte(ps[2])->0,
                            hex_byte(ps[3])->0,
                            hex_byte(ps[4])->0,
                            hex_byte(ps[5])->0,
                        ],
                    ),
                )
            } else {
                None
            }
        },
    }
}

impl MacAddr {
    pub fn new(bytes: [u8; 6]) -> (r: Self)
        ensures
            r.0@ == bytes@,
    {
        MacAddr(bytes)
    }

    pub fn octets(&self) -> (r: [u8; 6])
        ensures
            r@ == self.0@,
    {
        self.0
    }

    /// All six bytes are zero.
    pub fn is_zero(&self) -> (r: bool)
        ensures
            r == (forall|i: int| 0 <= i < 6 ==> #[trigger] self.0@[i] == 0),
    {
        let b = self.0;
        b[0] == 0 && b[1] == 0 && b[2] == 0 && b[3] == 0 && b[4] == 0 && b[5] == 0
    }

    /// Same six bytes.
    pub fn same(&self, other: &MacAddr) -> (r: bool)
        ensures
            r == (self.0@ == other.0@),
    {
        let a = self.0;
        let b = other.0;
        let r = a[0] == b[0] && a[1] == b[1] && a[2] == b[2] && a[3] == b[3] && a[4] == b[4]
            && a[5] == b[5];
        proof {
            if r {
                assert(a@ =~= b@);
            }
        }
        r
    }

    /// The ordering key (see [`mac_key`]).
    pub fn key(&self) -> (r: u64)
        ensures
            r == mac_key(*self),
    {
        let b = self.0;
        (b[0] as u64) * 0x100_0000_0000 + (b[1] as u64) * 0x1_0000_0000 + (b[2] as u64)
            * 0x100_0000 + (b[3] as u64) * 0x1_0000 + (b[4] as u64) * 0x100 + (b[5] as u64)
    }

    /// Parse `aa:bb:cc:dd:ee:ff` or `aa-bb-cc-dd-ee-ff`.
    pub fn parse(s: &str) -> (r: Option<MacAddr>)
        ensures
            r == parse_mac(s@),
    {
        let v = to_chars(s);
        let sep = if contains_char(&v, ':') {
            ':'
        } else if contains_char(&v, '-') {
            '-'
        } else {
            return None;
        };
        let parts = split_chars(&v, sep);
        if parts.len() != 6 {
            return None;
        }
        let b0 = match parse_unsigned_chars(&parts[0], 16, 255) { Some(x) => x as u8, None => return None };
        let b1 = match parse_unsigned_chars(&parts[1], 16, 255) { Some(x) => x as u8, None => return None };
        let b2 = match parse_unsigned_chars(&parts[2], 16, 255) { Some(x) => x as u8, None => return None };
        let b3 = match parse_unsigned_chars(&parts[3], 16, 255) { Some(x) => x as u8, None => return None };
        let b4 = match parse_unsigned_chars(&parts[4], 16, 255) { Some(x) => x as u8, None => return None };
        let b5 = match parse_unsigned_chars(&parts[5], 16, 255) { Some(x) => x as u8, None => return None };
        let r = MacAddr([b0, b1, b2, b3, b4, b5]);
        proof {
            let m = parse_mac(s@)->0;
            assert(r.0@ =~= m.0@);
            assert(r.0 =~= m.0);
        }
        Some(r)
    }

    /// `aa:bb:cc:dd:ee:ff` (lowercase hex).
    pub fn to_string(&self) -> (r: String)
        ensures
            r@ == mac_text(*self),
    {
        let b = self.0;
        let mut v: Vec<char> = Vec::new();
        push_hex2(&mut v, b[0]);
        v.push(':');
        push_hex2(&mut v, b[1]);
        v.push(':');
        push_hex2(&mut v, b[2]);
        v.push(':');
        push_hex2(&mut v, b[3]);
        v.push(':');
        push_hex2(&mut v, b[4]);
        v.push(':');
        push_hex2(&mut v, b[5]);
        assert(v@ =~= mac_text(*self));
        string_from_chars(&v)
    }
}

/// Base-`c` digit split is unique.
proof fn lemma_digit_split(x: int, rx: int, y: int, ry: int, c: int)
    by (nonlinear_arith)
    requires
        c > 0,
        0 <= rx < c,
        0 <= ry < c,
        0 <= x,
        0 <= y,
        x * c + rx == y * c + ry,
    ensures
        x == y,
        rx == ry,
{
    if x < y {
        assert(x * c + c <= y * c);
    } else if y < x {
        assert(y * c + c <= x * c);
    }
}

/// Distinct addresses have distinct keys.
pub proof fn lemma_mac_key_injective(a: MacAddr, b: MacAddr)
    ensures
        mac_key(a) == mac_key(b) <==> a.0@ == b.0@,
{
    let p = a.0@;
    let q = b.0@;
    if mac_key(a) == mac_key(b) {
        let ra4 = p[4] * 0x100 + p[5];
        let rb4 = q[4] * 0x100 + q[5];
        let ra3 = p[3] * 0x1_0000 + ra4;
        let rb3 = q[3] * 0x1_0000 + rb4;
        let ra2 = p[2] * 0x100_0000 + ra3;
        let rb2 = q[2] * 0x100_0000 + rb3;
        let ra1 = p[1] * 0x1_0000_0000 + ra2;
        let rb1 = q[1] * 0x1_0000_0000 + rb2;
        lemma_digit_split(p[0] as int, ra1, q[0] as int, rb1, 0x100_0000_0000);
        lemma_digit_split(p[1] as int, ra2, q[1] as int, rb2, 0x1_0000_0000);
        lemma_digit_split(p[2] as int, ra3, q[2] as int, rb3, 0x100_0000);
        lemma_digit_split(p[3] as int, ra4, q[3] as int, rb4, 0x1_0000);
        lemma_digit_split(p[4] as int, p[5] as int, q[4] as int, q[5] as int, 0x100);
        assert(p =~= q);
    }
}

/// The IPv4 address `a.b.c.d` (devices carry IPv4 addresses only).
pub fn ipv4(a: u8, b: u8, c: u8, d: u8) -> (r: Ipv4Addr)
    ensures
        r == (Ipv4Addr { a, b, c, d }),
{
    Ipv4Addr::new(a, b, c, d)
}

/// Device belonging to a stack (IP/MAC may be missing before DHCP).
#[derive(Clone, Debug)]
pub struct Device {
    pub stack: String,
    pub kind: DeviceKind,
    pub mac: Option<MacAddr>,
    pub ip: Option<Ipv4Addr>,
    pub hostname: String,
}

/// A device as values.
pub struct DeviceView {
    pub stack: Seq<char>,
    pub kind: DeviceKind,
    pub mac: Option<MacAddr>,
    pub ip: Option<Ipv4Addr>,
    pub hostname: Seq<char>,
}

impl View for Device {
    type V = DeviceView;

    open spec fn view(&self) -> DeviceView {
        DeviceView {
            stack: self.stack@,
            kind: self.kind,
            mac: self.mac,
            ip: self.ip,
            hostname: self.hostname@,
        }
    }
}

/// The views of a list of devices.
pub open spec fn devices_view(ds: Seq<Device>) -> Seq<DeviceView> {
    ds.map_values(|d: Device| d@)
}

/// What one registered stack's `detect` gave back, under the stack's name.
pub struct Detection {
    pub name: String,
    pub found: Result<Vec<Device>, Error>,
}

/// A device found by stack `name`: unnamed devices take the stack's name.
pub open spec fn tag(name: Seq<char>, d: DeviceView) -> DeviceView {
    if d.stack.len() == 0 {
        DeviceView { stack: name, ..d }
    } else {
        d
    }
}

/// All devices the stacks found, in registration order, each tagged with its stack.
pub open spec fn detected_all(rs: Seq<Detection>) -> Seq<DeviceView>
    decreases rs.len(),
{
    if rs.len() == 0 {
        Seq::empty()
    } else {
        let last = rs.last();
        detected_all(rs.drop_last()) + match last.found {
            Ok(ds) => devices_view(ds@).map_values(|d: DeviceView| tag(last.name@, d)),
            Err(_) => Seq::empty(),
        }
    }
}

/// The error of the last stack whose detection failed.
pub open spec fn last_error(rs: Seq<Detection>) -> Option<Error>
    decreases rs.len(),
{
    if rs.len() == 0 {
        None
    } else {
        match rs.last().found {
            Err(e) => Some(e),
            Ok(_) => last_error(rs.drop_last()),
        }
    }
}

/// Merge the stacks' detections: every device found, and whether any was.
/// When none was found, the last stack error (if any) is the result.
pub fn detect_any(results: Vec<Detection>) -> (r: Result<(Vec<Device>, bool), Error>)
    ensures
        ({
            let all = detected_all(results@);
            if all.len() == 0 && last_error(results@) is Some {
                r == Err::<(Vec<Device>, bool), Error>(last_error(results@)->0)
            } else {
                match r {
                    Ok((ds, any)) => devices_view(ds@) == all && any == (all.len() > 0),
                    Err(_) => false,
                }
            }
        }),
{
    let ghost orig = results@;
    let mut rs = results;
    let mut all: Vec<Device> = Vec::new();
    let mut last_err: Option<Error> = None;
    let mut i: usize = 0;
    let n = rs.len();
    while rs.len() > 0
        invariant
            n == orig.len(),
            rs@ == orig.subrange(i as int, n as int),
            i <= n,
            devices_view(all@) == detected_all(orig.subrange(0, i as int)),
            last_err == last_error(orig.subrange(0, i as int)),
        decreases rs.len(),
    {
        let det = rs.remove(0);
        assert(orig.subrange(0, i + 1).drop_last() =~= orig.subrange(0, i as int));
        assert(orig.subrange(0, i + 1).last() == det);
        let ghost before = devices_view(all@);
        match det.found {
            Ok(found) => {
                let ghost fv = devices_view(found@).map_values(|d: DeviceView| tag(det.name@, d));
                let mut fs = found;
                let ghost fo = fs@;
                let mut j: usize = 0;
                let m = fs.len();
                while fs.len() > 0
                    invariant
                        m == fo.len(),
                        fs@ == fo.subrange(j as int, m as int),
                        j <= m,
                        fv == devices_view(fo).map_values(|d: DeviceView| tag(det.name@, d)),
                        devices_view(all@) == before + fv.subrange(0, j as int),
                    decreases fs.len(),
                {
                    let mut d = fs.remove(0);
                    assert(d == fo[j as int]);
                    if d.stack.as_str().is_empty() {
                        d.stack = det.name.clone();
                    }
                    assert(d@ == fv[j as int]);
                    let ghost dv = d@;
                    let ghost prev = all@;
                    all.push(d);
                    assert(devices_view(all@) =~= devices_view(prev).push(dv));
                    assert(fv.subrange(0, j + 1) =~= fv.subrange(0, j as int).push(fv[j as int]));
                    assert(devices_view(all@) =~= before + fv.subrange(0, j + 1));
                    j = j + 1;
                }
                assert(fv.subrange(0, m as int) =~= fv);
            },
            Err(e) => {
                assert(devices_view(all@) =~= before + Seq::<DeviceView>::empty());
                last_err = Some(e);
            },
        }
        i = i + 1;
    }
    assert(orig.subrange(0, n as int) =~= orig);
    let ok = all.len() > 0;
    if !ok {
        if let Some(e) = last_err {
            return Err(e);
        }
    }
    Ok((all, ok))
}

/// Two hex digits hold no `:` and read back as the byte.
proof fn lemma_hex2(b: u8)
    ensures
        !hex2(b).contains(':'),
        !hex2(b).contains('-'),
        hex_byte(hex2(b)) == Some(b),
{
    let h = hex2(b);
    let hi = (b / 16) as nat;
    let lo = (b % 16) as nat;
    assert(digit_value(hex_digit(hi)) == hi as int);
    assert(digit_value(hex_digit(lo)) == lo as int);
    assert(h[0] != ':' && h[1] != ':');
    assert(!h.contains(':')) by {
        if h.contains(':') {
            let k = choose|k: int| 0 <= k < h.len() && h[k] == ':';
        }
    }
    assert(h[0] != '-' && h[1] != '-');
    assert(!h.contains('-')) by {
        if h.contains('-') {
            let k = choose|k: int| 0 <= k < h.len() && h[k] == '-';
        }
    }
    assert(h[0] != '+');
    assert(h.drop_last() =~= seq![h[0]]);
    assert(seq![h[0]].drop_last() =~= Seq::<char>::empty());
    assert(digits_value(Seq::<char>::empty(), 16) == 0);
    assert(seq![h[0]].last() == h[0]);
    assert(digits_value(seq![h[0]], 16) == digits_value(Seq::<char>::empty(), 16) * 16 + digit_value(h[0]));
    assert(digits_value(seq![h[0]], 16) == hi as int);
    assert(digits_value(h, 16) == hi * 16 + lo);
    assert(crate::text::all_digits(h, 16));
}

/// Reading an address back from its text gives the address.
pub proof fn lemma_mac_text_roundtrip(m: MacAddr)
    ensures
        parse_mac(mac_text(m)) == Some(m),
{
    let b = m.0@;
    let h0 = hex2(b[0]);
    let h1 = hex2(b[1]);
    let h2 = hex2(b[2]);
    let h3 = hex2(b[3]);
    let h4 = hex2(b[4]);
    let h5 = hex2(b[5]);
    lemma_hex2(b[0]);
    lemma_hex2(b[1]);
    lemma_hex2(b[2]);
    lemma_hex2(b[3]);
    lemma_hex2(b[4]);
    lemma_hex2(b[5]);
    let t4 = h4 + seq![':'] + h5;
    let t3 = h3 + seq![':'] + t4;
    let t2 = h2 + seq![':'] + t3;
    let t1 = h1 + seq![':'] + t2;
    let t0 = h0 + seq![':'] + t1;
    assert(mac_text(m) =~= t0);
    assert(t0[2] == ':');
    assert(t0.contains(':'));
    lemma_split_part(h0, t1, ':');
    lemma_split_part(h1, t2, ':');
    lemma_split_part(h2, t3, ':');
    lemma_split_part(h3, t4, ':');
    lemma_split_part(h4, h5, ':');
    assert(h5 + Seq::<char>::empty() =~= h5);
    lemma_split_through(h5, Seq::empty(), ':', Seq::empty());
    assert(Seq::<char>::empty() + h5 =~= h5);
    assert(split(h5, ':') =~= seq![h5]);
    let ps = split(t0, ':');
    assert(ps =~= seq![h0, h1, h2, h3, h4, h5]);
    let r = parse_mac(mac_text(m))->0;
    assert(r.0 =~= m.0);
}

/// `aa-bb-cc-dd-ee-ff`: the address with `-` separators.
pub open spec fn mac_text_dashed(m: MacAddr) -> Seq<char> {
    let b = m.0@;
    hex2(b[0]) + seq!['-'] + hex2(b[1]) + seq!['-'] + hex2(b[2]) + seq!['-'] + hex2(b[3])
        + seq!['-'] + hex2(b[4]) + seq!['-'] + hex2(b[5])
}

/// Reading an address back from its `-`-separated text gives the address.
pub proof fn lemma_mac_dashed_roundtrip(m: MacAddr)
    ensures
        parse_mac(mac_text_dashed(m)) == Some(m),
{
    let b = m.0@;
    let h0 = hex2(b[0]);
    let h1 = hex2(b[1]);
    let h2 = hex2(b[2]);
    let h3 = hex2(b[3]);
    let h4 = hex2(b[4]);
    let h5 = hex2(b[5]);
    lemma_hex2(b[0]);
    lemma_hex2(b[1]);
    lemma_hex2(b[2]);
    lemma_hex2(b[3]);
    lemma_hex2(b[4]);
    lemma_hex2(b[5]);
    let t4 = h4 + seq!['-'] + h5;
    let t3 = h3 + seq!['-'] + t4;
    let t2 = h2 + seq!['-'] + t3;
    let t1 = h1 + seq!['-'] + t2;
    let t0 = h0 + seq!['-'] + t1;
    assert(mac_text_dashed(m) =~= t0);
    assert(t0[2] == '-');
    assert(t0.contains('-'));
    assert(!t0.contains(':')) by {
        if t0.contains(':') {
            let k = choose|k: int| 0 <= k < t0.len() && t0[k] == ':';
            if k < 2 {
                assert(h0[k] == ':');
            } else if k == 2 {
            } else if k < 5 {
                assert(h1[k - 3] == ':');
            } else if k == 5 {
            } else if k < 8 {
                assert(h2[k - 6] == ':');
            } else if k == 8 {
            } else if k < 11 {
                assert(h3[k - 9] == ':');
            } else if k == 11 {
            } else if k < 14 {
                assert(h4[k - 12] == ':');
            } else if k == 14 {
            } else {
                assert(h5[k - 15] == ':');
            }
        }
    }
    lemma_split_part(h0, t1, '-');
    lemma_split_part(h1, t2, '-');
    lemma_split_part(h2, t3, '-');
    lemma_split_part(h3, t4, '-');
    lemma_split_part(h4, h5, '-');
    assert(h5 + Seq::<char>::empty() =~= h5);
    lemma_split_through(h5, Seq::empty(), '-', Seq::empty());
    assert(Seq::<char>::empty() + h5 =~= h5);
    assert(split(h5, '-') =~= seq![h5]);
    let ps = split(t0, '-');
    assert(ps =~= seq![h0, h1, h2, h3, h4, h5]);
    let r = parse_mac(mac_text_dashed(m))->0;
    assert(r.0 =~= m.0);
}

/// An event WiFi stack (Omada today): users add their own by implementing
/// this and registering it.
pub trait Stack {
    /// The stack's name (also the tag of the devices it finds).
    fn name(&self) -> String;

    /// Devices of this stack on the LAN seen through `iface`.
    fn detect(&self, iface: &str) -> Result<Vec<Device>, Error>;

    /// The kind of device a DHCP client is, when it belongs to this stack.
    fn match_device(&self, hostname: &str, mac: &MacAddr) -> Option<DeviceKind>;
}

/// The registered stacks, in registration order.
pub struct Registry {
    stacks: Vec<Box<dyn Stack>>,
}

impl Registry {
    /// The registered stacks, in registration order.
    pub closed spec fn registered(self) -> Seq<Box<dyn Stack>> {
        self.stacks@
    }

    /// No stack registered.
    pub fn new() -> (r: Self)
        ensures
            r.registered().len() == 0,
    {
        Registry { stacks: Vec::new() }
    }

    /// Add a stack after the registered ones.
    pub fn register(&mut self, stack: Box<dyn Stack>)
        ensures
            final(self).registered() == old(self).registered().push(stack),
    {
        self.stacks.push(stack);
    }

    /// The registered stacks, in registration order.
    pub fn stacks(&self) -> (r: &[Box<dyn Stack>])
        ensures
            r@ == self.registered(),
    {
        self.stacks.as_slice()
    }

    /// How many stacks are registered.
    pub fn len(&self) -> (r: usize)
        ensures
            r == self.registered().len(),
    {
        self.stacks.len()
    }

    /// Ask every stack, in order, what it detects on `iface`, and combine
    /// the answers as [`detect_any`] does (every device tagged with its
    /// stack; an error only when nothing was found at all).
    pub fn detect_any(&self, iface: &str) -> (r: Result<(Vec<Device>, bool), Error>) {
        let mut results: Vec<Detection> = Vec::new();
        let mut i: usize = 0;
        while i < self.stacks.len()
            invariant
                i <= self.stacks@.len(),
            decreases self.stacks@.len() - i,
        {
            let s = &self.stacks[i];
            let name = s.name();
            let found = s.detect(iface);
            results.push(Detection { name, found });
            i = i + 1;
        }
        detect_any(results)
    }

    /// The first stack (in registration order) that claims the device: its
    /// name and the device's kind.
    pub fn match_device(&self, hostname: &str, mac: &MacAddr) -> (r: Option<(String, DeviceKind)>) {
        let mut i: usize = 0;
        while i < self.stacks.len()
            invariant
                i <= self.stacks@.len(),
            decreases self.stacks@.len() - i,
        {
            let s = &self.stacks[i];
            match s.match_device(hostname, mac) {
                Some(kind) => {
                    return Some((s.name(), kind));
                },
                None => {},
            }
            i = i + 1;
        }
        None
    }
}

} // verus!
