//! dnsmasq and interface facts `configure-dhcp` decides on: which processes
//! are dnsmasq, whether to start it, which interface is the Ethernet one.

use vstd::prelude::*;
use vstd::string::StringExecFns;

use crate::error::Error;
use crate::net::{contains_substring, has_substring};
use crate::text::{all_digits, chars_eq, is_ascii_digit, parse_unsigned, parse_unsigned_chars, split, split_chars, str_eq, text_less, text_lt, to_chars, lemma_text_lt_transitive, lemma_text_lt_total};

verus! {

pub const DNSMASQ_BIN: &'static str = "/usr/sbin/dnsmasq";

pub const IP_BIN: &'static str = "/sbin/ip";

/// Every char is an ASCII digit (vacuous for the empty name).
pub open spec fn ascii_digits(s: Seq<char>) -> bool {
    forall|i: int| 0 <= i < s.len() ==> #[trigger] is_ascii_digit(s[i])
}

/// The pid of a `/proc` entry that is a dnsmasq process: a numeric name
/// whose command line starts with the dnsmasq binary or mentions `dnsmasq`.
pub open spec fn dnsmasq_pid(name: Seq<char>, cmdline: Seq<char>) -> Option<i32> {
    if ascii_digits(name) && (split(cmdline, '\0')[0] == DNSMASQ_BIN@ || has_substring(
        cmdline,
        "dnsmasq"@,
    )) {
        match parse_unsigned(name, 10, i32::MAX as int) {
            Some(v) => Some(v as i32),
            None => None,
        }
    } else {
        None
    }
}

/// The dnsmasq pids among `/proc` entries (name, command line), in order.
pub open spec fn dnsmasq_pids_of(entries: Seq<(Seq<char>, Seq<char>)>) -> Seq<i32>
    decreases entries.len(),
{
    if entries.len() == 0 {
        Seq::empty()
    } else {
        dnsmasq_pids_of(entries.drop_last()) + match dnsmasq_pid(
            entries.last().0,
            entries.last().1,
        ) {
            Some(p) => seq![p],
            None => Seq::empty(),
        }
    }
}

pub open spec fn entries_view(v: Seq<(String, String)>) -> Seq<(Seq<char>, Seq<char>)> {
    v.map_values(|e: (String, String)| (e.0@, e.1@))
}

fn all_ascii_digits(v: &[char]) -> (r: bool)
    ensures
        r == ascii_digits(v@),
{
    let mut i: usize = 0;
    while i < v.len()
        invariant
            i <= v@.len(),
            forall|k: int| 0 <= k < i ==> #[trigger] is_ascii_digit(v@[k]),
        decreases v@.len() - i,
    {
        let u = v[i] as u32;
        if !(48 <= u && u <= 57) {
            assert(!is_ascii_digit(v@[i as int]));
            return false;
        }
        i = i + 1;
    }
    true
}

/// The pid of one `/proc` entry when it is dnsmasq (see [`dnsmasq_pid`]).
pub fn proc_entry_pid(name: &str, cmdline: &str) -> (r: Option<i32>)
    ensures
        r == dnsmasq_pid(name@, cmdline@),
{
    let nv = to_chars(name);
    if !all_ascii_digits(&nv) {
        return None;
    }
    let cv = to_chars(cmdline);
    let parts = split_chars(&cv, '\0');
    let bin = to_chars(DNSMASQ_BIN);
    let word = to_chars("dnsmasq");
    if !(chars_eq(&parts[0], &bin) || contains_substring(&cv, &word)) {
        return None;
    }
    match parse_unsigned_chars(&nv, 10, 0x7fff_ffff) {
        Some(v) => Some(v as i32),
        None => None,
    }
}

/// The dnsmasq processes among `/proc` entries (name, command line).
pub fn dnsmasq_pids(entries: &Vec<(String, String)>) -> (r: Vec<i32>)
    ensures
        r@ == dnsmasq_pids_of(entries_view(entries@)),
{
    let ghost ev = entries_view(entries@);
    let mut out: Vec<i32> = Vec::new();
    let mut i: usize = 0;
    while i < entries.len()
        invariant
            ev == entries_view(entries@),
            i <= entries@.len(),
            out@ == dnsmasq_pids_of(ev.subrange(0, i as int)),
        decreases entries@.len() - i,
    {
        let ghost prev = out@;
        assert(ev.subrange(0, i + 1).drop_last() =~= ev.subrange(0, i as int));
        assert(ev.subrange(0, i + 1).last() == ev[i as int]);
        match proc_entry_pid(entries[i].0.as_str(), entries[i].1.as_str()) {
            Some(p) => {
                out.push(p);
                assert(out@ =~= prev + seq![p]);
            },
            None => {
                assert(out@ =~= prev + Seq::<i32>::empty());
            },
        }
        i = i + 1;
    }
    assert(ev.subrange(0, ev.len() as int) =~= ev);
    out
}

/// Some dnsmasq process runs.
pub fn dnsmasq_running(entries: &Vec<(String, String)>) -> (r: bool)
    ensures
        r == (dnsmasq_pids_of(entries_view(entries@)).len() > 0),
{
    dnsmasq_pids(entries).len() > 0
}

/// Whether and how to start dnsmasq: missing binary is an error, a running
/// one is left alone (`None`), else the arguments to run it with.
pub fn start_dnsmasq(exists: bool, running: bool, conf: &str) -> (r: Result<Option<Vec<String>>, Error>)
    ensures
        !exists ==> (r matches Err(Error::DnsmasqMissing(p)) && p@ == DNSMASQ_BIN@),
        exists && running ==> (r matches Ok(None)),
        exists && !running ==> (r matches Ok(Some(args)) && args@.len() == 2 && args@[0]@ == "-C"@
            && args@[1]@ == conf@),
{
    if !exists {
        return Err(Error::DnsmasqMissing(String::from_str(DNSMASQ_BIN)));
    }
    if running {
        return Ok(None);
    }
    let mut args: Vec<String> = Vec::new();
    args.push(String::from_str("-C"));
    args.push(String::from_str(conf));
    Ok(Some(args))
}

/// Candidate Ethernet interfaces: `/sys/class/net` names other than `lo`
/// that are not wireless.
pub open spec fn is_candidate(e: (Seq<char>, bool)) -> bool {
    e.0 != "lo"@ && !e.1
}

pub open spec fn nets_view(v: Seq<(String, bool)>) -> Seq<(Seq<char>, bool)> {
    v.map_values(|e: (String, bool)| (e.0@, e.1))
}

/// The first Ethernet interface: the smallest candidate name in string order.
pub fn first_ethernet_iface(entries: &Vec<(String, bool)>) -> (r: Result<String, Error>)
    ensures
        match r {
            Ok(n) => exists|k: int|
                0 <= k < entries@.len() && is_candidate(#[trigger] nets_view(entries@)[k])
                    && nets_view(entries@)[k].0 == n@ && forall|j: int|
                    0 <= j < entries@.len() && is_candidate(#[trigger] nets_view(entries@)[j])
                        ==> nets_view(entries@)[j].0 == n@ || text_lt(n@, nets_view(entries@)[j].0),
            Err(e) => e == Error::NoEthernet && forall|j: int|
                0 <= j < entries@.len() ==> !is_candidate(#[trigger] nets_view(entries@)[j]),
        },
{
    let ghost ev = nets_view(entries@);
    let mut best: Option<usize> = None;
    let mut i: usize = 0;
    while i < entries.len()
        invariant
            ev == nets_view(entries@),
            i <= entries@.len(),
            match best {
                Some(b) => b < i && is_candidate(ev[b as int]) && forall|j: int|
                    0 <= j < i && is_candidate(#[trigger] ev[j]) ==> ev[j].0 == ev[b as int].0
                        || text_lt(ev[b as int].0, ev[j].0),
                None => forall|j: int| 0 <= j < i ==> !is_candidate(#[trigger] ev[j]),
            },
        decreases entries@.len() - i,
    {
        assert(ev[i as int] == (entries@[i as int].0@, entries@[i as int].1));
        let cand = !str_eq(entries[i].0.as_str(), "lo") && !entries[i].1;
        if cand {
            match best {
                None => {
                    best = Some(i);
                },
                Some(b) => {
                    let a = to_chars(entries[i].0.as_str());
                    let c = to_chars(entries[b].0.as_str());
                    assert(ev[b as int].0 == c@);
                    if text_less(&a, &c) {
                        proof {
                            assert forall|j: int|
                                0 <= j < i + 1 && is_candidate(#[trigger] ev[j]) implies ev[j].0 == a@
                                || text_lt(a@, ev[j].0) by {
                                if j < i {
                                    if ev[j].0 != c@ {
                                        lemma_text_lt_transitive(a@, c@, ev[j].0);
                                    }
                                }
                            }
                        }
                        best = Some(i);
                    } else {
                        proof {
                            lemma_text_lt_total(a@, c@);
                        }
                    }
                },
            }
        }
        i = i + 1;
    }
    match best {
        Some(b) => {
            let n = entries[b].0.clone();
            Ok(n)
        },
        None => Err(Error::NoEthernet),
    }
}

/// `ip -4 addr show` output lists an IPv4 address.
pub fn iface_has_ipv4(ip_output: &str) -> (r: bool)
    ensures
        r == has_substring(ip_output@, "inet "@),
{
    contains_substring(&to_chars(ip_output), &to_chars("inet "))
}

} // verus!
