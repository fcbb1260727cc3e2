//! What `configure-dhcp` decides while bringing DHCP up or reporting on it:
//! whether DHCP is wanted, what to do with dnsmasq, and which reservations to
//! promote from detected, leased and ARP'd devices.

use vstd::prelude::*;
use vstd::string::StringExecFns;

use crate::config::{debug_quoted, debug_str};
use crate::gate::leases::{ArpEntry, LeaseEntry, LeaseView, leases_view};
use crate::gate::stack::{devices_view, kind_text, lemma_mac_key_injective, mac_key, mac_text, Device, DeviceView, MacAddr};
use crate::gate::sticky::StickyState;
use crate::net::addr::{ipv4_chars, ipv4_text};
use crate::text::string_from_chars;

verus! {

/// Default location of configure-ethernet's settings.
pub const DEFAULT_ETHERNET_CONF: &'static str = "/data/etc/configure-ethernet.conf";

/// Where `configure-dhcp` keeps and reads its files.
#[derive(Clone, Debug)]
pub struct Paths {
    pub state: String,
    pub ethernet_conf: String,
    pub arp: String,
}

impl Default for Paths {
    fn default() -> (r: Self)
        ensures
            r.state@ == "/data/etc/configure-dhcp.state"@,
            r.ethernet_conf@ == "/data/etc/configure-ethernet.conf"@,
            r.arp@ == "/proc/net/arp"@,
    {
        Paths {
            state: StickyState::path_default(),
            ethernet_conf: String::from_str(DEFAULT_ETHERNET_CONF),
            arp: String::from_str("/proc/net/arp"),
        }
    }
}

/// The interface `up` works on: the configured one, else the first Ethernet
/// interface, else `eth0`.
pub fn up_iface(configured: &str, first_ethernet: Option<String>) -> (r: String)
    ensures
        r@ == if configured@.len() > 0 {
            configured@
        } else {
            match first_ethernet {
                Some(f) => f@,
                None => "eth0"@,
            }
        },
{
    if !configured.is_empty() {
        return String::from_str(configured);
    }
    match first_ethernet {
        Some(f) => f,
        None => String::from_str("eth0"),
    }
}

/// DHCP is gated on when a stack was detected now or remembered from before.
pub fn gate_on(detect_ok: bool, sticky: &StickyState) -> (r: bool)
    ensures
        r == (detect_ok || sticky@.len() > 0),
{
    detect_ok || sticky.has_any()
}

/// `{"a", "b"}`: the `Debug` rendering of a set of names.
pub open spec fn set_debug(names: Seq<Seq<char>>) -> Seq<char> {
    seq!['{'] + debug_items(names) + seq!['}']
}

/// The names rendered by `Debug` and joined by `", "`.
pub open spec fn debug_items(names: Seq<Seq<char>>) -> Seq<char>
    decreases names.len(),
{
    if names.len() == 0 {
        Seq::empty()
    } else if names.len() == 1 {
        debug_str(names[0])
    } else {
        debug_items(names.drop_last()) + ", "@ + debug_str(names.last())
    }
}

/// Why DHCP is wanted: a stack detected now, or the sticky stacks.
pub fn up_reason(detect_ok: bool, sticky: &StickyState) -> (r: String)
    ensures
        r@ == if detect_ok {
            "stack detected"@
        } else {
            "sticky stacks: "@ + set_debug(sticky@)
        },
{
    if detect_ok {
        return String::from_str("stack detected");
    }
    let names = sticky.stacks();
    let mut items = String::new();
    let mut i: usize = 0;
    proof {
        assert(names_prefix_view(names@, 0) =~= Seq::<Seq<char>>::empty());
    }
    while i < names.len()
        invariant
            i <= names@.len(),
            crate::gate::sticky::names_of(names@) == sticky@,
            items@ == debug_items(names_prefix_view(names@, i as int)),
        decreases names@.len() - i,
    {
        let d = debug_quoted(names[i].as_str());
        if i > 0 {
            items.append(", ");
        }
        items.append(d.as_str());
        proof {
            let p = names_prefix_view(names@, i + 1);
            assert(p.drop_last() =~= names_prefix_view(names@, i as int));
            assert(p.last() == names@[i as int]@);
            assert(items@ =~= debug_items(p));
        }
        i = i + 1;
    }
    assert(names_prefix_view(names@, names@.len() as int) =~= sticky@);
    let mut r = String::from_str("sticky stacks: {");
    r.append(items.as_str());
    r.append("}");
    proof {
        reveal_strlit("sticky stacks: {");
        reveal_strlit("sticky stacks: ");
        reveal_strlit("}");
        assert(r@ =~= "sticky stacks: "@ + set_debug(sticky@));
    }
    r
}

/// The texts of the first `k` names.
pub open spec fn names_prefix_view(v: Seq<String>, k: int) -> Seq<Seq<char>> {
    crate::gate::sticky::names_of(v).subrange(0, k)
}

/// What to do with dnsmasq once its configuration is in place.
#[derive(Clone, Copy, Debug, PartialEq, Eq, Structural)]
pub enum DnsmasqStep {
    /// Not running: start it.
    Start,
    /// Running with a changed configuration: SIGHUP it.
    Reload,
    /// Running and up to date.
    Keep,
}

/// Start dnsmasq when it is not running, reload it when its configuration changed.
pub fn dnsmasq_step(running: bool, conf_changed: bool) -> (r: DnsmasqStep)
    ensures
        r == if !running {
            DnsmasqStep::Start
        } else if conf_changed {
            DnsmasqStep::Reload
        } else {
            DnsmasqStep::Keep
        },
{
    if !running {
        DnsmasqStep::Start
    } else if conf_changed {
        DnsmasqStep::Reload
    } else {
        DnsmasqStep::Keep
    }
}

/// `check` exits 1 when DHCP is gated on but dnsmasq is not running, else 0.
pub fn check_code(gate: bool, dnsmasq_running: bool) -> (r: i32)
    ensures
        r == if gate && !dnsmasq_running {
            1i32
        } else {
            0i32
        },
{
    if gate && !dnsmasq_running {
        1
    } else {
        0
    }
}

/// A reservation as values: hardware address and IP text.
pub open spec fn adds_view(v: Seq<(MacAddr, String)>) -> Seq<(MacAddr, Seq<char>)> {
    v.map_values(|a: (MacAddr, String)| (a.0, a.1@))
}

/// The candidate reservations, before dedupe: detected devices with both a
/// hardware address and an IP, then the leases, then the ARP entries that a
/// stack matched (`*_hits[k]` says whether entry `k` matched).
pub open spec fn additions(
    detected: Seq<DeviceView>,
    leases: Seq<LeaseView>,
    lease_hits: Seq<bool>,
    arp: Seq<ArpEntry>,
    arp_hits: Seq<bool>,
) -> Seq<(MacAddr, Seq<char>)> {
    device_adds(detected) + hit_leases(leases, lease_hits) + hit_arp(arp, arp_hits)
}

/// The detected devices whose hardware address and IP are both known.
pub open spec fn device_adds(ds: Seq<DeviceView>) -> Seq<(MacAddr, Seq<char>)>
    decreases ds.len(),
{
    if ds.len() == 0 {
        Seq::empty()
    } else {
        device_adds(ds.drop_last()) + match (ds.last().mac, ds.last().ip) {
            (Some(m), Some(ip)) => seq![(m, ipv4_text(ip))],
            _ => Seq::empty(),
        }
    }
}

pub open spec fn hit_leases(leases: Seq<LeaseView>, hits: Seq<bool>) -> Seq<(MacAddr, Seq<char>)>
    decreases leases.len(),
{
    if leases.len() == 0 {
        Seq::empty()
    } else {
        hit_leases(leases.drop_last(), hits) + if hits[leases.len() - 1] {
            seq![(leases.last().mac, ipv4_text(leases.last().ip))]
        } else {
            Seq::empty()
        }
    }
}

pub open spec fn hit_arp(arp: Seq<ArpEntry>, hits: Seq<bool>) -> Seq<(MacAddr, Seq<char>)>
    decreases arp.len(),
{
    if arp.len() == 0 {
        Seq::empty()
    } else {
        hit_arp(arp.drop_last(), hits) + if hits[arp.len() - 1] {
            seq![(arp.last().mac, ipv4_text(arp.last().ip))]
        } else {
            Seq::empty()
        }
    }
}

/// The IP last paired with `m`.
pub open spec fn last_ip(adds: Seq<(MacAddr, Seq<char>)>, m: MacAddr) -> Option<Seq<char>>
    decreases adds.len(),
{
    if adds.len() == 0 {
        None
    } else if adds.last().0 == m {
        Some(adds.last().1)
    } else {
        last_ip(adds.drop_last(), m)
    }
}

/// `out` is `adds` deduplicated by hardware address: one entry per address,
/// carrying the IP last paired with it, in address order.
pub open spec fn deduped(adds: Seq<(MacAddr, Seq<char>)>, out: Seq<(MacAddr, Seq<char>)>) -> bool {
    &&& forall|i: int, j: int| 0 <= i < j < out.len() ==> mac_key(#[trigger] out[i].0) < mac_key(#[trigger] out[j].0)
    &&& forall|j: int| 0 <= j < out.len() ==> last_ip(adds, #[trigger] out[j].0) == Some(out[j].1)
    &&& forall|k: int| 0 <= k < adds.len() ==> exists|j: int| 0 <= j < out.len() && #[trigger] out[j].0 == #[trigger] adds[k].0
}

proof fn lemma_last_ip_push(adds: Seq<(MacAddr, Seq<char>)>, a: (MacAddr, Seq<char>), m: MacAddr)
    ensures
        last_ip(adds.push(a), m) == if a.0 == m { Some(a.1) } else { last_ip(adds, m) },
{
    assert(adds.push(a).drop_last() =~= adds);
}

/// Dedupe by hardware address (the last IP wins), in address order.
pub fn dedupe_by_mac(adds: &Vec<(MacAddr, String)>) -> (r: Vec<(MacAddr, String)>)
    ensures
        deduped(adds_view(adds@), adds_view(r@)),
{
    let ghost av = adds_view(adds@);
    let mut out: Vec<(MacAddr, String)> = Vec::new();
    let mut i: usize = 0;
    while i < adds.len()
        invariant
            av == adds_view(adds@),
            i <= adds@.len(),
            deduped(av.subrange(0, i as int), adds_view(out@)),
        decreases adds@.len() - i,
    {
        let m = adds[i].0;
        let ip = adds[i].1.clone();
        let ghost a = av[i as int];
        assert(a == (m, ip@));
        let ghost pre = av.subrange(0, i as int);
        assert(av.subrange(0, i + 1) =~= pre.push(a));
        let ghost ov = adds_view(out@);
        let key = m.key();
        let mut p: usize = 0;
        while p < out.len() && out[p].0.key() < key
            invariant
                ov == adds_view(out@),
                p <= out@.len(),
                key == mac_key(m),
                forall|q: int| 0 <= q < p ==> mac_key(#[trigger] ov[q].0) < key,
            decreases out@.len() - p,
        {
            p = p + 1;
        }
        if p < out.len() && out[p].0.key() == key {
            let old_mac = out[p].0;
            proof {
                lemma_mac_key_injective(old_mac, m);
                assert(old_mac.0 =~= m.0);
            }
            out.set(p, (m, ip));
            let ghost nv = adds_view(out@);
            assert(nv =~= ov.update(p as int, (m, ip@)));
            assert forall|x: int, y: int| 0 <= x < y < nv.len() implies mac_key(#[trigger] nv[x].0) < mac_key(#[trigger] nv[y].0) by {
                assert(nv[x].0 == ov[x].0 && nv[y].0 == ov[y].0);
            }
            assert forall|j: int| 0 <= j < nv.len() implies last_ip(pre.push(a), #[trigger] nv[j].0) == Some(nv[j].1) by {
                lemma_last_ip_push(pre, a, nv[j].0);
                if j != p {
                    assert(nv[j] == ov[j]);
                    assert(ov[p as int].0 == old_mac);
                    if j < p {
                        assert(mac_key(ov[j].0) < mac_key(ov[p as int].0));
                    } else {
                        assert(mac_key(ov[p as int].0) < mac_key(ov[j].0));
                    }
                    assert(mac_key(nv[j].0) != key);
                }
            }
            assert forall|k: int| 0 <= k < pre.push(a).len() implies exists|j: int| 0 <= j < nv.len() && #[trigger] nv[j].0 == #[trigger] pre.push(a)[k].0 by {
                if k < pre.len() {
                    let j = choose|j: int| 0 <= j < ov.len() && #[trigger] ov[j].0 == #[trigger] pre[k].0;
                    assert(nv[j].0 == ov[j].0);
                    assert(pre.push(a)[k] == pre[k]);
                } else {
                    assert(nv[p as int].0 == m);
                }
            }
        } else {
            out.insert(p, (m, ip));
            let ghost nv = adds_view(out@);
            assert(nv =~= ov.insert(p as int, (m, ip@)));
            assert forall|x: int, y: int| 0 <= x < y < nv.len() implies mac_key(#[trigger] nv[x].0) < mac_key(#[trigger] nv[y].0) by {
                if y < p {
                    assert(nv[x] == ov[x] && nv[y] == ov[y]);
                } else if y == p {
                    assert(nv[x] == ov[x]);
                } else if x == p {
                    assert(nv[y] == ov[y - 1]);
                    assert(mac_key(ov[p as int].0) > key);
                    if y - 1 > p {
                        assert(mac_key(ov[p as int].0) < mac_key(ov[y - 1].0));
                    }
                } else if x < p {
                    assert(nv[x] == ov[x] && nv[y] == ov[y - 1]);
                    assert(mac_key(ov[p as int].0) > key);
                } else {
                    assert(nv[x] == ov[x - 1] && nv[y] == ov[y - 1]);
                }
            }
            assert forall|j: int| 0 <= j < nv.len() implies last_ip(pre.push(a), #[trigger] nv[j].0) == Some(nv[j].1) by {
                lemma_last_ip_push(pre, a, nv[j].0);
                if j < p {
                    assert(nv[j] == ov[j]);
                    assert(mac_key(nv[j].0) != key);
                } else if j > p {
                    assert(nv[j] == ov[j - 1]);
                    assert(mac_key(ov[p as int].0) > key);
                    if j - 1 > p {
                        assert(mac_key(ov[p as int].0) < mac_key(ov[j - 1].0));
                    }
                    assert(mac_key(nv[j].0) != key);
                }
            }
            assert forall|k: int| 0 <= k < pre.push(a).len() implies exists|j: int| 0 <= j < nv.len() && #[trigger] nv[j].0 == #[trigger] pre.push(a)[k].0 by {
                if k < pre.len() {
                    let j = choose|j: int| 0 <= j < ov.len() && #[trigger] ov[j].0 == #[trigger] pre[k].0;
                    assert(pre.push(a)[k] == pre[k]);
                    if j < p {
                        assert(nv[j] == ov[j]);
                    } else {
                        assert(nv[j + 1] == ov[j]);
                    }
                } else {
                    assert(nv[p as int].0 == m);
                }
            }
        }
        i = i + 1;
    }
    assert(av.subrange(0, adds@.len() as int) =~= av);
    out
}

/// The candidate reservations (see [`additions`]), before dedupe.
pub fn reservation_additions(
    detected: &Vec<Device>,
    leases: &Vec<LeaseEntry>,
    lease_hits: &Vec<bool>,
    arp: &Vec<ArpEntry>,
    arp_hits: &Vec<bool>,
) -> (r: Vec<(MacAddr, String)>)
    requires
        lease_hits@.len() == leases@.len(),
        arp_hits@.len() == arp@.len(),
    ensures
        adds_view(r@) == additions(
            devices_view(detected@),
            leases_view(leases@),
            lease_hits@,
            arp@,
            arp_hits@,
        ),
{
    let ghost dv = devices_view(detected@);
    let ghost lv = leases_view(leases@);
    let mut out: Vec<(MacAddr, String)> = Vec::new();
    let mut i: usize = 0;
    while i < detected.len()
        invariant
            dv == devices_view(detected@),
            i <= detected@.len(),
            adds_view(out@) == device_adds(dv.subrange(0, i as int)),
        decreases detected@.len() - i,
    {
        let ghost prev = adds_view(out@);
        assert(dv.subrange(0, i + 1).drop_last() =~= dv.subrange(0, i as int));
        assert(dv.subrange(0, i + 1).last() == detected@[i as int]@);
        let d = &detected[i];
        match (&d.mac, &d.ip) {
            (Some(m), Some(ip)) => {
                let t = string_from_chars(&ipv4_chars(*ip));
                out.push((*m, t));
                assert(adds_view(out@) =~= prev + seq![(*m, ipv4_text(*ip))]);
            },
            _ => {
                assert(adds_view(out@) =~= prev + Seq::<(MacAddr, Seq<char>)>::empty());
            },
        }
        i = i + 1;
    }
    assert(dv.subrange(0, dv.len() as int) =~= dv);
    let ghost base = adds_view(out@);
    let mut j: usize = 0;
    while j < leases.len()
        invariant
            lv == leases_view(leases@),
            lease_hits@.len() == leases@.len(),
            j <= leases@.len(),
            adds_view(out@) == base + hit_leases(lv.subrange(0, j as int), lease_hits@),
        decreases leases@.len() - j,
    {
        let ghost prev = adds_view(out@);
        let ghost sub = lv.subrange(0, j + 1);
        assert(sub.drop_last() =~= lv.subrange(0, j as int));
        assert(sub.last() == leases@[j as int]@);
        if lease_hits[j] {
            let l = &leases[j];
            let t = string_from_chars(&ipv4_chars(l.ip));
            out.push((l.mac, t));
            assert(adds_view(out@) =~= prev + seq![(l.mac, ipv4_text(l.ip))]);
        } else {
            assert(adds_view(out@) =~= prev + Seq::<(MacAddr, Seq<char>)>::empty());
        }
        j = j + 1;
    }
    assert(lv.subrange(0, lv.len() as int) =~= lv);
    let ghost base2 = adds_view(out@);
    let mut k: usize = 0;
    while k < arp.len()
        invariant
            arp_hits@.len() == arp@.len(),
            k <= arp@.len(),
            adds_view(out@) == base2 + hit_arp(arp@.subrange(0, k as int), arp_hits@),
        decreases arp@.len() - k,
    {
        let ghost prev = adds_view(out@);
        let ghost sub = arp@.subrange(0, k + 1);
        assert(sub.drop_last() =~= arp@.subrange(0, k as int));
        if arp_hits[k] {
            let e = arp[k];
            let t = string_from_chars(&ipv4_chars(e.ip));
            out.push((e.mac, t));
            assert(adds_view(out@) =~= prev + seq![(e.mac, ipv4_text(e.ip))]);
        } else {
            assert(adds_view(out@) =~= prev + Seq::<(MacAddr, Seq<char>)>::empty());
        }
        k = k + 1;
    }
    assert(arp@.subrange(0, arp@.len() as int) =~= arp@);
    proof {
        let total = additions(dv, lv, lease_hits@, arp@, arp_hits@);
        assert(adds_view(out@) =~= total);
    }
    out
}

/// The reservations `up` promotes: the candidates deduplicated by hardware
/// address (the last IP wins), in address order.
pub fn reservations(
    detected: &Vec<Device>,
    leases: &Vec<LeaseEntry>,
    lease_hits: &Vec<bool>,
    arp: &Vec<ArpEntry>,
    arp_hits: &Vec<bool>,
) -> (r: Vec<(MacAddr, String)>)
    requires
        lease_hits@.len() == leases@.len(),
        arp_hits@.len() == arp@.len(),
    ensures
        deduped(
            additions(devices_view(detected@), leases_view(leases@), lease_hits@, arp@, arp_hits@),
            adds_view(r@),
        ),
{
    let adds = reservation_additions(detected, leases, lease_hits, arp, arp_hits);
    dedupe_by_mac(&adds)
}

/// dnsmasq `dhcp-host=<mac>,<ip>` lines, one per reservation, in order.
pub open spec fn reservation_lines(res: Seq<(MacAddr, Seq<char>)>) -> Seq<char>
    decreases res.len(),
{
    if res.len() == 0 {
        Seq::empty()
    } else {
        reservation_lines(res.drop_last()) + "dhcp-host="@ + mac_text(res.last().0) + ","@
            + res.last().1 + "\n"@
    }
}

/// The reservations file body (see [`reservation_lines`]).
pub fn render_reservations(res: &Vec<(MacAddr, String)>) -> (r: String)
    ensures
        r@ == reservation_lines(adds_view(res@)),
{
    let mut s = String::from_str("");
    let mut i: usize = 0;
    proof {
        reveal_strlit("");
        assert(adds_view(res@).subrange(0, 0) =~= Seq::<(MacAddr, Seq<char>)>::empty());
    }
    while i < res.len()
        invariant
            i <= res@.len(),
            s@ == reservation_lines(adds_view(res@).subrange(0, i as int)),
        decreases res@.len() - i,
    {
        let ghost before = s@;
        let ghost av = adds_view(res@);
        assert(av.subrange(0, i + 1).drop_last() =~= av.subrange(0, i as int));
        assert(av.subrange(0, i + 1).last() == (res@[i as int].0, res@[i as int].1@));
        let mac = res[i].0.to_string();
        s.append("dhcp-host=");
        s.append(mac.as_str());
        s.append(",");
        s.append(res[i].1.as_str());
        s.append("\n");
        assert(s@ =~= reservation_lines(av.subrange(0, i + 1)));
        i = i + 1;
    }
    assert(adds_view(res@).subrange(0, res@.len() as int) =~= adds_view(res@));
    s
}

/// The event network's base dnsmasq configuration: the iface, the pool
/// `10.0.10.50..200` with week-long leases, the leasefile, and the
/// reservations file pulled in with `conf-file=`.
pub open spec fn base_conf_text(iface: Seq<char>, leasefile: Seq<char>, reservations: Seq<char>) -> Seq<char> {
    "interface="@ + iface + "\n"@ + "bind-interfaces\n"@
        + "dhcp-range=10.0.10.50,10.0.10.200,7d\n"@ + "dhcp-leasefile="@ + leasefile + "\n"@
        + "conf-file="@ + reservations + "\n"@
}

/// Render the base dnsmasq configuration (see [`base_conf_text`]).
pub fn render_base_conf(iface: &str, leasefile: &str, reservations: &str) -> (r: String)
    ensures
        r@ == base_conf_text(iface@, leasefile@, reservations@),
{
    let mut s = String::from_str("interface=");
    s.append(iface);
    s.append("\n");
    s.append("bind-interfaces\n");
    s.append("dhcp-range=10.0.10.50,10.0.10.200,7d\n");
    s.append("dhcp-leasefile=");
    s.append(leasefile);
    s.append("\n");
    s.append("conf-file=");
    s.append(reservations);
    s.append("\n");
    assert(s@ =~= base_conf_text(iface@, leasefile@, reservations@));
    s
}

/// `-` for a missing value.
pub open spec fn or_dash(v: Option<Seq<char>>) -> Seq<char> {
    match v {
        Some(t) => t,
        None => "-"@,
    }
}

/// The `check` line describing one detected device.
pub open spec fn device_line(d: DeviceView) -> Seq<char> {
    "  ["@ + d.stack + "] "@ + kind_text(d.kind) + " mac="@ + or_dash(
        match d.mac {
            Some(m) => Some(mac_text(m)),
            None => None,
        },
    ) + " ip="@ + or_dash(
        match d.ip {
            Some(ip) => Some(ipv4_text(ip)),
            None => None,
        },
    ) + " host="@ + (if d.hostname.len() == 0 {
        "-"@
    } else {
        d.hostname
    })
}

/// `  [stack] kind mac=.. ip=.. host=..`, `-` for what is unknown.
pub fn describe_device(d: &Device) -> (r: String)
    ensures
        r@ == device_line(d@),
{
    let mut s = String::from_str("  [");
    s.append(d.stack.as_str());
    s.append("] ");
    let k = d.kind.to_string();
    s.append(k.as_str());
    s.append(" mac=");
    match &d.mac {
        Some(m) => {
            let t = m.to_string();
            s.append(t.as_str());
        },
        None => s.append("-"),
    }
    s.append(" ip=");
    match &d.ip {
        Some(ip) => {
            let t = string_from_chars(&ipv4_chars(*ip));
            s.append(t.as_str());
        },
        None => s.append("-"),
    }
    s.append(" host=");
    if d.hostname.as_str().is_empty() {
        s.append("-");
    } else {
        s.append(d.hostname.as_str());
    }
    proof {
        assert(s@ =~= device_line(d@));
    }
    s
}

} // verus!
