//! Read dnsmasq leases and `/proc/net/arp` contents.

use vstd::prelude::*;
use vstd::string::StringExecFns;

use crate::gate::omada::after_header;
use crate::gate::stack::{parse_mac, MacAddr};
use crate::net::addr::{parse_ipv4, parse_ipv4_chars, Ipv4Addr};
use crate::text::{lines, lines_chars, string_from_chars, to_chars, views, words, words_chars};

verus! {

/// One dnsmasq lease.
#[derive(Clone, Debug)]
pub struct LeaseEntry {
    pub mac: MacAddr,
    pub ip: Ipv4Addr,
    pub hostname: String,
}

/// One ARP table entry.
#[derive(Clone, Copy, Debug)]
pub struct ArpEntry {
    pub ip: Ipv4Addr,
    pub mac: MacAddr,
}

/// A lease as values.
pub struct LeaseView {
    pub mac: MacAddr,
    pub ip: Ipv4Addr,
    pub hostname: Seq<char>,
}

impl View for LeaseEntry {
    type V = LeaseView;

    open spec fn view(&self) -> LeaseView {
        LeaseView { mac: self.mac, ip: self.ip, hostname: self.hostname@ }
    }
}

pub open spec fn leases_view(ls: Seq<LeaseEntry>) -> Seq<LeaseView> {
    ls.map_values(|l: LeaseEntry| l@)
}

/// The lease one `dnsmasq.leases` line holds:
/// `<expiry> <mac> <ip> <hostname> <client-id>`, hostname `*` meaning none.
pub open spec fn lease_of(line: Seq<char>) -> Option<LeaseView> {
    let ps = words(line);
    if ps.len() < 4 {
        None
    } else {
        match (parse_mac(ps[1]), parse_ipv4(ps[2])) {
            (Some(m), Some(ip)) => Some(
                LeaseView {
                    mac: m,
                    ip: ip,
                    hostname: if ps[3] == "*"@ {
                        Seq::empty()
                    } else {
                        ps[3]
                    },
                },
            ),
            _ => None,
        }
    }
}

/// The leases of a run of lines, in order.
pub open spec fn leases_of(ls: Seq<Seq<char>>) -> Seq<LeaseView>
    decreases ls.len(),
{
    if ls.len() == 0 {
        Seq::empty()
    } else {
        leases_of(ls.drop_last()) + match lease_of(ls.last()) {
            Some(l) => seq![l],
            None => Seq::empty(),
        }
    }
}

/// The entry one `/proc/net/arp` line holds: the IP in the first column, a
/// non-zero hardware address in the fourth.
pub open spec fn arp_entry_of(line: Seq<char>) -> Option<ArpEntry> {
    let ps = words(line);
    if ps.len() < 4 {
        None
    } else {
        match (parse_ipv4(ps[0]), parse_mac(ps[3])) {
            (Some(ip), Some(m)) => if m.0@ == seq![0u8, 0, 0, 0, 0, 0] {
                None
            } else {
                Some(ArpEntry { ip, mac: m })
            },
            _ => None,
        }
    }
}

/// The entries of a run of ARP lines, in order.
pub open spec fn arp_entries_of(ls: Seq<Seq<char>>) -> Seq<ArpEntry>
    decreases ls.len(),
{
    if ls.len() == 0 {
        Seq::empty()
    } else {
        arp_entries_of(ls.drop_last()) + match arp_entry_of(ls.last()) {
            Some(e) => seq![e],
            None => Seq::empty(),
        }
    }
}

fn lease_line(line: &[char]) -> (r: Option<LeaseEntry>)
    ensures
        match lease_of(line@) {
            Some(l) => r is Some && r->0@ == l,
            None => r is None,
        },
{
    let ps = words_chars(line);
    let ghost pv = views(ps@);
    if ps.len() < 4 {
        return None;
    }
    assert(ps@[1]@ == pv[1] && ps@[2]@ == pv[2] && ps@[3]@ == pv[3]);
    let mac_text = string_from_chars(&ps[1]);
    let mac = match MacAddr::parse(mac_text.as_str()) {
        Some(m) => m,
        None => return None,
    };
    let ip = match parse_ipv4_chars(&ps[2]) {
        Some(ip) => ip,
        None => return None,
    };
    let star = to_chars("*");
    let hostname = if crate::text::chars_eq(&ps[3], &star) {
        String::new()
    } else {
        string_from_chars(&ps[3])
    };
    proof {
        reveal_strlit("*");
    }
    Some(LeaseEntry { mac, ip, hostname })
}

fn arp_line(line: &[char]) -> (r: Option<ArpEntry>)
    ensures
        r == arp_entry_of(line@),
{
    let ps = words_chars(line);
    let ghost pv = views(ps@);
    if ps.len() < 4 {
        return None;
    }
    assert(ps@[0]@ == pv[0] && ps@[3]@ == pv[3]);
    let ip = match parse_ipv4_chars(&ps[0]) {
        Some(ip) => ip,
        None => return None,
    };
    let mac_text = string_from_chars(&ps[3]);
    let mac = match MacAddr::parse(mac_text.as_str()) {
        Some(m) => m,
        None => return None,
    };
    if mac.is_zero() {
        assert(mac.0@ =~= seq![0u8, 0, 0, 0, 0, 0]);
        return None;
    }
    proof {
        if mac.0@ == seq![0u8, 0, 0, 0, 0, 0] {
            assert(mac.0@[0] == 0 && mac.0@[1] == 0 && mac.0@[2] == 0);
            assert(mac.0@[3] == 0 && mac.0@[4] == 0 && mac.0@[5] == 0);
        }
    }
    Some(ArpEntry { ip, mac })
}

/// Leases in `dnsmasq.leases` text; lines that do not parse are skipped.
pub fn parse_leases(text: &str) -> (r: Vec<LeaseEntry>)
    ensures
        leases_view(r@) == leases_of(lines(text@)),
{
    let ls = lines_chars(&to_chars(text));
    let ghost lv = views(ls@);
    let mut out: Vec<LeaseEntry> = Vec::new();
    let mut i: usize = 0;
    while i < ls.len()
        invariant
            lv == views(ls@),
            i <= ls@.len(),
            leases_view(out@) == leases_of(lv.subrange(0, i as int)),
        decreases ls@.len() - i,
    {
        let ghost prev = out@;
        assert(lv.subrange(0, i + 1).drop_last() =~= lv.subrange(0, i as int));
        assert(lv.subrange(0, i + 1).last() == ls@[i as int]@);
        match lease_line(&ls[i]) {
            Some(l) => {
                let ghost v = l@;
                out.push(l);
                assert(leases_view(out@) =~= leases_view(prev) + seq![v]);
            },
            None => {
                assert(leases_view(out@) =~= leases_view(prev) + Seq::<LeaseView>::empty());
            },
        }
        i = i + 1;
    }
    assert(lv.subrange(0, lv.len() as int) =~= lv);
    out
}

/// Entries in `/proc/net/arp` text (header line first); lines that do not
/// parse, and all-zero hardware addresses, are skipped.
pub fn parse_arp(text: &str) -> (r: Vec<ArpEntry>)
    ensures
        r@ == arp_entries_of(after_header(lines(text@))),
{
    let ls = lines_chars(&to_chars(text));
    let ghost lv = views(ls@);
    let ghost body = after_header(lv);
    let mut out: Vec<ArpEntry> = Vec::new();
    if ls.len() == 0 {
        return out;
    }
    let mut i: usize = 1;
    while i < ls.len()
        invariant
            lv == views(ls@),
            body == lv.drop_first(),
            lv.len() >= 1,
            1 <= i <= ls@.len(),
            out@ == arp_entries_of(body.subrange(0, i - 1)),
        decreases ls@.len() - i,
    {
        let ghost prev = out@;
        assert(body.subrange(0, i as int).drop_last() =~= body.subrange(0, i - 1));
        assert(body.subrange(0, i as int).last() == ls@[i as int]@);
        match arp_line(&ls[i]) {
            Some(e) => {
                out.push(e);
                assert(out@ =~= prev + seq![e]);
            },
            None => {
                assert(out@ =~= prev + Seq::<ArpEntry>::empty());
            },
        }
        i = i + 1;
    }
    assert(body.subrange(0, body.len() as int) =~= body);
    out
}

} // verus!
