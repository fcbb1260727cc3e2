//! TP-Link Omada stack: ARP OUI + hostname match; the UDP discovery
//! broadcast itself is made by the caller, whose replies are merged here.

use vstd::prelude::*;
use vstd::string::StringExecFns;

use crate::gate::stack::{
    devices_view, mac_bytes, parse_mac, Device, DeviceKind, DeviceView, MacAddr,
};
use crate::net::addr::{parse_ipv4, parse_ipv4_chars};
use crate::net::{contains_substring, has_substring};
use crate::text::{lines, lines_chars, lower, lower_chars, string_from_chars, to_chars, views, words, words_chars};

verus! {

/// The stack reading ARP from a path (`/proc/net/arp` by default).
#[derive(Debug)]
pub struct OmadaStack {
    arp_path: String,
}

/// The first three bytes are a TP-Link OUI used on Omada APs/controllers.
pub open spec fn tp_link_oui(b: Seq<u8>) -> bool {
    let o = (b[0], b[1], b[2]);
    ||| o == (0x50u8, 0xc7u8, 0xbfu8)
    ||| o == (0x14u8, 0xebu8, 0xb6u8)
    ||| o == (0x98u8, 0xdau8, 0xc4u8)
    ||| o == (0xacu8, 0x84u8, 0xc6u8)
    ||| o == (0xc0u8, 0x06u8, 0xc3u8)
    ||| o == (0x60u8, 0x32u8, 0xb1u8)
    ||| o == (0xb0u8, 0x95u8, 0x75u8)
    ||| o == (0x00u8, 0x31u8, 0x92u8)
    ||| o == (0x18u8, 0xa6u8, 0xf7u8)
    ||| o == (0x54u8, 0xafu8, 0x97u8)
    ||| o == (0x70u8, 0x4fu8, 0x57u8)
    ||| o == (0x90u8, 0x9au8, 0x4au8)
    ||| o == (0xd8u8, 0x07u8, 0xb6u8)
    ||| o == (0xf4u8, 0xf2u8, 0x6du8)
    ||| o == (0x1cu8, 0x61u8, 0xb4u8)
    ||| o == (0x30u8, 0xdeu8, 0x4bu8)
    ||| o == (0x5cu8, 0xa6u8, 0xe6u8)
    ||| o == (0x68u8, 0xffu8, 0x7bu8)
    ||| o == (0x7cu8, 0x8bu8, 0xcau8)
    ||| o == (0xb4u8, 0xb0u8, 0x24u8)
}

/// The kind a hostname announces (case-insensitive): OC200/OC300 or
/// "controller" is a controller, "eap" or "omada" an access point.
pub open spec fn hostname_kind(hostname: Seq<char>) -> Option<DeviceKind> {
    let h = lower(hostname);
    if has_substring(h, "oc200"@) || has_substring(h, "oc300"@) || has_substring(h, "controller"@) {
        Some(DeviceKind::Controller)
    } else if has_substring(h, "eap"@) || has_substring(h, "omada"@) {
        Some(DeviceKind::AccessPoint)
    } else {
        None
    }
}

/// Every address under one of the TP-Link OUIs seen on Omada gear is claimed
/// by the stack, whatever its hostname: as an access point unless the
/// hostname names a controller or access point itself.
pub proof fn lemma_tp_link_ouis_claimed(hostname: Seq<char>, m: MacAddr)
    requires
        ({
            let o = (m.0@[0], m.0@[1], m.0@[2]);
            ||| o == (0x50u8, 0xc7u8, 0xbfu8)
            ||| o == (0x14u8, 0xebu8, 0xb6u8)
            ||| o == (0x98u8, 0xdau8, 0xc4u8)
            ||| o == (0xacu8, 0x84u8, 0xc6u8)
            ||| o == (0xc0u8, 0x06u8, 0xc3u8)
            ||| o == (0x60u8, 0x32u8, 0xb1u8)
            ||| o == (0xb0u8, 0x95u8, 0x75u8)
            ||| o == (0x00u8, 0x31u8, 0x92u8)
            ||| o == (0x18u8, 0xa6u8, 0xf7u8)
            ||| o == (0x54u8, 0xafu8, 0x97u8)
            ||| o == (0x70u8, 0x4fu8, 0x57u8)
            ||| o == (0x90u8, 0x9au8, 0x4au8)
            ||| o == (0xd8u8, 0x07u8, 0xb6u8)
            ||| o == (0xf4u8, 0xf2u8, 0x6du8)
            ||| o == (0x1cu8, 0x61u8, 0xb4u8)
            ||| o == (0x30u8, 0xdeu8, 0x4bu8)
            ||| o == (0x5cu8, 0xa6u8, 0xe6u8)
            ||| o == (0x68u8, 0xffu8, 0x7bu8)
            ||| o == (0x7cu8, 0x8bu8, 0xcau8)
            ||| o == (0xb4u8, 0xb0u8, 0x24u8)
        }),
    ensures
        omada_kind(hostname, m) is Some,
        hostname_kind(hostname) is None ==> omada_kind(hostname, m) == Some(DeviceKind::AccessPoint),
{
}

/// How the stack classifies a lease/ARP entry: a TP-Link OUI is at least an
/// access point; otherwise the hostname decides.
pub open spec fn omada_kind(hostname: Seq<char>, mac: MacAddr) -> Option<DeviceKind> {
    if tp_link_oui(mac_bytes(mac)) {
        match hostname_kind(hostname) {
            Some(k) => Some(k),
            None => Some(DeviceKind::AccessPoint),
        }
    } else {
        hostname_kind(hostname)
    }
}

/// The lines of a file after its header line.
pub open spec fn after_header(ls: Seq<Seq<char>>) -> Seq<Seq<char>> {
    if ls.len() == 0 {
        ls
    } else {
        ls.drop_first()
    }
}

/// The device one `/proc/net/arp` line names: a TP-Link hardware address in
/// the fourth column, the IP (when it parses) in the first.
pub open spec fn arp_device(line: Seq<char>) -> Option<DeviceView> {
    let ps = words(line);
    if ps.len() < 4 {
        None
    } else {
        match parse_mac(ps[3]) {
            Some(m) => if tp_link_oui(mac_bytes(m)) {
                Some(
                    DeviceView {
                        stack: "omada"@,
                        kind: DeviceKind::AccessPoint,
                        mac: Some(m),
                        ip: parse_ipv4(ps[0]),
                        hostname: Seq::empty(),
                    },
                )
            } else {
                None
            },
            None => None,
        }
    }
}

/// The devices named by a run of ARP lines, in order.
pub open spec fn arp_devices(ls: Seq<Seq<char>>) -> Seq<DeviceView>
    decreases ls.len(),
{
    if ls.len() == 0 {
        Seq::empty()
    } else {
        arp_devices(ls.drop_last()) + match arp_device(ls.last()) {
            Some(d) => seq![d],
            None => Seq::empty(),
        }
    }
}

/// The device was found already: it has a hardware address that one of
/// `found` has too.
pub open spec fn known_mac(found: Seq<DeviceView>, d: DeviceView) -> bool {
    d.mac is Some && exists|k: int|
        0 <= k < found.len() && #[trigger] found[k].mac == d.mac
}

/// `found` extended by the discovery replies, skipping a reply whose address
/// was seen before (among `found` and the replies kept so far).
pub open spec fn merge_replies(found: Seq<DeviceView>, extra: Seq<DeviceView>) -> Seq<DeviceView>
    decreases extra.len(),
{
    if extra.len() == 0 {
        found
    } else {
        let acc = merge_replies(found, extra.drop_last());
        if known_mac(acc, extra.last()) {
            acc
        } else {
            acc.push(extra.last())
        }
    }
}

/// The first three bytes are a TP-Link OUI.
pub fn is_tp_link_oui(mac: &MacAddr) -> (r: bool)
    ensures
        r == tp_link_oui(mac_bytes(*mac)),
{
    let b = mac.0;
    let (x, y, z) = (b[0], b[1], b[2]);
    (x == 0x50 && y == 0xc7 && z == 0xbf) || (x == 0x14 && y == 0xeb && z == 0xb6) || (x == 0x98
        && y == 0xda && z == 0xc4) || (x == 0xac && y == 0x84 && z == 0xc6) || (x == 0xc0 && y
        == 0x06 && z == 0xc3) || (x == 0x60 && y == 0x32 && z == 0xb1) || (x == 0xb0 && y == 0x95
        && z == 0x75) || (x == 0x00 && y == 0x31 && z == 0x92) || (x == 0x18 && y == 0xa6 && z
        == 0xf7) || (x == 0x54 && y == 0xaf && z == 0x97) || (x == 0x70 && y == 0x4f && z == 0x57)
        || (x == 0x90 && y == 0x9a && z == 0x4a) || (x == 0xd8 && y == 0x07 && z == 0xb6) || (x
        == 0xf4 && y == 0xf2 && z == 0x6d) || (x == 0x1c && y == 0x61 && z == 0xb4) || (x == 0x30
        && y == 0xde && z == 0x4b) || (x == 0x5c && y == 0xa6 && z == 0xe6) || (x == 0x68 && y
        == 0xff && z == 0x7b) || (x == 0x7c && y == 0x8b && z == 0xca) || (x == 0xb4 && y == 0xb0
        && z == 0x24)
}

/// The kind a hostname announces (see [`hostname_kind`]).
pub fn kind_from_hostname(hostname: &str) -> (r: Option<DeviceKind>)
    ensures
        r == hostname_kind(hostname@),
{
    let h = lower_chars(&to_chars(hostname));
    let oc200 = to_chars("oc200");
    let oc300 = to_chars("oc300");
    let controller = to_chars("controller");
    let eap = to_chars("eap");
    let omada = to_chars("omada");
    if contains_substring(&h, &oc200) || contains_substring(&h, &oc300) || contains_substring(
        &h,
        &controller,
    ) {
        return Some(DeviceKind::Controller);
    }
    if contains_substring(&h, &eap) || contains_substring(&h, &omada) {
        return Some(DeviceKind::AccessPoint);
    }
    None
}

/// The device of one ARP line (see [`arp_device`]).
fn arp_line_device(line: &[char]) -> (r: Option<Device>)
    ensures
        match arp_device(line@) {
            Some(d) => r is Some && r->0@ == d,
            None => r is None,
        },
{
    let ps = words_chars(line);
    let ghost pv = views(ps@);
    if ps.len() < 4 {
        return None;
    }
    assert(ps@[3]@ == pv[3]);
    assert(ps@[0]@ == pv[0]);
    let mac_text = string_from_chars(&ps[3]);
    let mac = match MacAddr::parse(mac_text.as_str()) {
        Some(m) => m,
        None => return None,
    };
    let ghost pm = parse_mac(pv[3])->0;
    assert(mac.0@ =~= pm.0@);
    assert(mac.0 =~= pm.0);
    assert(mac == pm);
    if !is_tp_link_oui(&mac) {
        return None;
    }
    let ip = parse_ipv4_chars(&ps[0]);
    Some(
        Device {
            stack: String::from_str("omada"),
            kind: DeviceKind::AccessPoint,
            mac: Some(mac),
            ip,
            hostname: String::new(),
        },
    )
}

/// Same hardware address (both present and equal, or both absent).
fn same_mac(a: &Option<MacAddr>, b: &Option<MacAddr>) -> (r: bool)
    ensures
        r == (*a == *b),
{
    match (a, b) {
        (Some(x), Some(y)) => {
            let r = x.same(y);
            proof {
                if r {
                    assert(x.0 =~= y.0);
                }
            }
            r
        },
        (None, None) => true,
        _ => false,
    }
}

impl OmadaStack {
    /// The ARP path, as text.
    pub closed spec fn path_view(self) -> Seq<char> {
        self.arp_path@
    }

    pub fn new() -> (r: Self)
        ensures
            r.path_view() == "/proc/net/arp"@,
    {
        OmadaStack { arp_path: String::from_str("/proc/net/arp") }
    }

    /// Read ARP from a custom path.
    pub fn with_arp_path(path: &str) -> (r: Self)
        ensures
            r.path_view() == path@,
    {
        OmadaStack { arp_path: String::from_str(path) }
    }

    /// Where ARP is read from.
    pub fn arp_path(&self) -> (r: &str)
        ensures
            r@ == self.path_view(),
    {
        self.arp_path.as_str()
    }

    /// `omada`.
    pub fn name(&self) -> (r: String)
        ensures
            r@ == "omada"@,
    {
        String::from_str("omada")
    }

    /// Classify a post-DHCP lease/ARP entry (see [`omada_kind`]).
    pub fn match_device(&self, hostname: &str, mac: &MacAddr) -> (r: Option<DeviceKind>)
        ensures
            r == omada_kind(hostname@, *mac),
    {
        if is_tp_link_oui(mac) {
            return match kind_from_hostname(hostname) {
                Some(k) => Some(k),
                None => Some(DeviceKind::AccessPoint),
            };
        }
        kind_from_hostname(hostname)
    }

    /// Devices in ARP text (`/proc/net/arp` contents, header line first).
    pub fn scan_arp(&self, text: &str) -> (r: Vec<Device>)
        ensures
            devices_view(r@) == arp_devices(after_header(lines(text@))),
    {
        let ls = lines_chars(&to_chars(text));
        let ghost lv = views(ls@);
        let ghost body = after_header(lv);
        let mut out: Vec<Device> = Vec::new();
        if ls.len() == 0 {
            return out;
        }
        let mut i: usize = 1;
        while i < ls.len()
            invariant
                lv == views(ls@),
                body == lv.drop_first(),
                lv.len() >= 1,
                1 <= i <= ls@.len(),
                devices_view(out@) == arp_devices(body.subrange(0, i - 1)),
            decreases ls@.len() - i,
        {
            let ghost prev = out@;
            assert(body.subrange(0, i as int).drop_last() =~= body.subrange(0, i - 1));
            assert(body.subrange(0, i as int).last() == ls@[i as int]@);
            match arp_line_device(&ls[i]) {
                Some(d) => {
                    let ghost dv = d@;
                    out.push(d);
                    assert(devices_view(out@) =~= devices_view(prev).push(dv));
                    assert(devices_view(out@) =~= devices_view(prev) + seq![dv]);
                },
                None => {
                    assert(devices_view(out@) =~= devices_view(prev) + Seq::<DeviceView>::empty());
                },
            }
            i = i + 1;
        }
        assert(body.subrange(0, body.len() as int) =~= body);
        out
    }

    /// Detection from ARP text plus the discovery replies (when the probe ran):
    /// the ARP devices, then each reply not seen before.
    pub fn detect(&self, arp_text: &str, replies: Option<Vec<Device>>) -> (r: Vec<Device>)
        ensures
            devices_view(r@) == match replies {
                Some(extra) => merge_replies(
                    arp_devices(after_header(lines(arp_text@))),
                    devices_view(extra@),
                ),
                None => arp_devices(after_header(lines(arp_text@))),
            },
    {
        let mut devices = self.scan_arp(arp_text);
        let extra = match replies {
            Some(e) => e,
            None => return devices,
        };
        let ghost base = devices_view(devices@);
        let ghost ev = devices_view(extra@);
        let mut es = extra;
        let ghost eo = es@;
        let n = es.len();
        let mut j: usize = 0;
        while es.len() > 0
            invariant
                n == eo.len(),
                es@ == eo.subrange(j as int, n as int),
                j <= n,
                ev == devices_view(eo),
                devices_view(devices@) == merge_replies(base, ev.subrange(0, j as int)),
            decreases es.len(),
        {
            let d = es.remove(0);
            assert(d@ == ev[j as int]);
            assert(ev.subrange(0, j + 1).drop_last() =~= ev.subrange(0, j as int));
            assert(ev.subrange(0, j + 1).last() == ev[j as int]);
            let ghost acc = devices_view(devices@);
            let mut seen = false;
            if d.mac.is_some() {
                let mut k: usize = 0;
                while k < devices.len()
                    invariant
                        k <= devices@.len(),
                        acc == devices_view(devices@),
                        d.mac is Some,
                        seen == exists|q: int| 0 <= q < k && #[trigger] acc[q].mac == d.mac,
                    decreases devices@.len() - k,
                {
                    if same_mac(&devices[k].mac, &d.mac) {
                        assert(acc[k as int].mac == d.mac);
                        seen = true;
                    }
                    k = k + 1;
                }
            }
            assert(seen == known_mac(acc, d@));
            if !seen {
                let ghost dv = d@;
                devices.push(d);
                assert(devices_view(devices@) =~= acc.push(dv));
            }
            j = j + 1;
        }
        assert(ev.subrange(0, n as int) =~= ev);
        devices
    }
}

} // verus!
