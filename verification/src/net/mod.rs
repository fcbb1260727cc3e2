//! Physical Ethernet discovery: which device to own, what counts as Ethernet,
//! and the operations apply needs from the live system.

use vstd::prelude::*;
use vstd::string::StringExecFns;

use crate::constants::ARPHRD_ETHER;
use crate::error::Error;
use crate::text::{
    lemma_text_lt_total, lemma_text_lt_transitive, str_eq, text_less, text_lt, contains_char, parse_unsigned, parse_unsigned_chars, strip_leading_pattern, to_chars, trim,
    trim_chars,
};

pub mod addr;
pub mod probe;

pub use addr::{host_in_slash24, IfaceAddrs};

use addr::{cidr_addr, ipv4_text, Ipv4Addr};

verus! {

/// JSON `interface` sentinel: same as `null` (carrier-based pick).
pub const AUTO_IFACE: &'static str = "auto";

/// How long an automatic pick waits for PHY auto-negotiation after admin-up (ms).
pub const AUTO_CARRIER_WAIT_MS: u64 = 2000;

/// Carrier poll interval of an automatic pick (ms).
pub const AUTO_CARRIER_POLL_MS: u64 = 200;

/// Operations apply needs from the live system (real or fake in tests).
pub trait NetOps {
    fn list_ethernet(&self) -> Result<Vec<String>, Error>;

    fn is_physical_ethernet(&self, name: &str) -> bool;

    fn resolve_iface(&self, configured: Option<&str>) -> Result<String, Error>;

    /// Resolve without side effects (no `ip link set up` on candidates).
    /// Used by teardown, which runs after apply already admin-upped the iface.
    fn resolve_iface_passive(&self, configured: Option<&str>) -> Result<String, Error> {
        self.resolve_iface(configured)
    }

    fn bring_up(&self, iface: &str) -> Result<(), Error>;

    fn flush_addr(&self, iface: &str) -> Result<(), Error>;

    fn add_addr(&self, iface: &str, cidr: &str) -> Result<(), Error>;

    fn iface_has_ipv4(&self, iface: &str) -> bool;

    fn iface_has_addr(&self, iface: &str, ip: Ipv4Addr) -> bool;

    fn iface_ipv4_cidr(&self, iface: &str) -> Option<String>;

    fn carrier_up(&self, iface: &str) -> bool;

    fn ping(&self, host: Ipv4Addr) -> bool;

    /// Stop the dhclient instance owned for `iface` (pidfile).
    fn stop_dhclient(&self, iface: &str) -> Result<(), Error>;

    fn start_dhclient(&self, iface: &str) -> Result<(), Error>;

    fn dhclient_running(&self, iface: &str) -> bool;

    fn wait_ipv4(&self, iface: &str, timeout_ms: u64) -> bool;

    fn replace_default_via(&self, gw: Ipv4Addr, iface: &str) -> Result<(), Error>;

    fn del_default(&self) -> Result<(), Error>;

    /// Set the iface admin-down (a cable Ethernet that was not chosen; apply
    /// flushes it first).
    fn set_down(&self, iface: &str) -> Result<(), Error>;
}

/// The live system, read under a sysfs `class/net` directory.
#[derive(Clone, Debug)]
pub struct LiveNet {
    pub sys_class_net: String,
}

impl LiveNet {
    pub fn new() -> (r: Self)
        ensures
            r.sys_class_net@ == "/sys/class/net"@,
    {
        LiveNet { sys_class_net: String::from_str("/sys/class/net") }
    }

    pub fn with_sys_class_net(path: &str) -> (r: Self)
        ensures
            r.sys_class_net@ == path@,
    {
        LiveNet { sys_class_net: String::from_str(path) }
    }
}

/// `None` or `"auto"`: the device is picked by carrier, not pinned.
pub open spec fn is_auto_spec(configured: Option<Seq<char>>) -> bool {
    match configured {
        None => true,
        Some(n) => n == "auto"@,
    }
}

pub open spec fn opt_view(o: Option<&str>) -> Option<Seq<char>> {
    match o {
        Some(s) => Some(s@),
        None => None,
    }
}

/// `configured` asks for an automatic pick.
pub fn is_auto(configured: Option<&str>) -> (r: bool)
    ensures
        r == is_auto_spec(opt_view(configured)),
{
    match configured {
        None => true,
        Some(n) => {
            proof {
                reveal_strlit("auto");
            }
            crate::text::str_eq(n, AUTO_IFACE)
        },
    }
}

/// Index of the first candidate with carrier.
pub open spec fn first_carrier(carriers: Seq<bool>) -> Option<int>
    decreases carriers.len(),
{
    if carriers.len() == 0 {
        None
    } else if carriers[0] {
        Some(0)
    } else {
        match first_carrier(carriers.drop_first()) {
            Some(i) => Some(i + 1),
            None => None,
        }
    }
}

/// First sorted candidate with carrier, else the first one.
/// The index found is a position of the sequence.
pub proof fn lemma_first_carrier_range(carriers: Seq<bool>)
    ensures
        first_carrier(carriers) matches Some(i) ==> 0 <= i < carriers.len() && carriers[i],
    decreases carriers.len(),
{
    if carriers.len() > 0 && !carriers[0] {
        lemma_first_carrier_range(carriers.drop_first());
    }
}

pub open spec fn auto_pick(names: Seq<Seq<char>>, carriers: Seq<bool>) -> Option<Seq<char>> {
    if names.len() == 0 {
        None
    } else {
        match first_carrier(carriers) {
            Some(i) => Some(names[i]),
            None => Some(names[0]),
        }
    }
}

pub open spec fn names_view(names: Seq<String>) -> Seq<Seq<char>> {
    names.map_values(|n: String| n@)
}

/// The names other than `chosen`, in order.
pub open spec fn others_of(names: Seq<Seq<char>>, chosen: Seq<char>) -> Seq<Seq<char>>
    decreases names.len(),
{
    if names.len() == 0 {
        Seq::empty()
    } else {
        others_of(names.drop_last(), chosen) + if names.last() == chosen {
            Seq::empty()
        } else {
            seq![names.last()]
        }
    }
}

/// The cable Ethernet interfaces to release once `chosen` is picked
/// automatically: every other one, in order.
pub fn other_ethernet(names: &Vec<String>, chosen: &str) -> (r: Vec<String>)
    ensures
        names_view(r@) == others_of(names_view(names@), chosen@),
{
    let mut out: Vec<String> = Vec::new();
    let mut i: usize = 0;
    assert(names_view(names@).subrange(0, 0) =~= Seq::<Seq<char>>::empty());
    assert(names_view(out@) =~= Seq::<Seq<char>>::empty());
    while i < names.len()
        invariant
            i <= names@.len(),
            names_view(out@) == others_of(names_view(names@).subrange(0, i as int), chosen@),
        decreases names@.len() - i,
    {
        let ghost nv = names_view(names@);
        assert(nv.subrange(0, i + 1).drop_last() =~= nv.subrange(0, i as int));
        assert(nv.subrange(0, i + 1).last() == names@[i as int]@);
        let ghost before = names_view(out@);
        if !str_eq(names[i].as_str(), chosen) {
            out.push(String::from_str(names[i].as_str()));
            assert(names_view(out@) =~= before.push(names@[i as int]@));
        } else {
            assert(names_view(out@) =~= before);
        }
        assert(names_view(out@) =~= others_of(nv.subrange(0, i + 1), chosen@));
        i = i + 1;
    }
    assert(names_view(names@).subrange(0, names@.len() as int) =~= names_view(names@));
    out
}

/// Index of the first `true`.
pub fn first_with_carrier(carriers: &Vec<bool>) -> (r: Option<usize>)
    ensures
        match first_carrier(carriers@) {
            Some(i) => r == Some(i as usize),
            None => r is None,
        },
        r matches Some(i) ==> i < carriers@.len() && first_carrier(carriers@) == Some(i as int),
{
    let mut i: usize = 0;
    proof {
        lemma_first_carrier_range(carriers@);
    }
    assert(carriers@.skip(0) =~= carriers@);
    while i < carriers.len()
        invariant
            i <= carriers@.len(),
            first_carrier(carriers@) == match first_carrier(carriers@.skip(i as int)) {
                Some(j) => Some(j + i),
                None => None,
            },
        decreases carriers@.len() - i,
    {
        assert(carriers@.skip(i as int).drop_first() =~= carriers@.skip(i + 1));
        if carriers[i] {
            return Some(i);
        }
        i = i + 1;
    }
    assert(carriers@.skip(i as int).len() == 0);
    None
}

/// Pick among sorted physical Ethernet names: first with carrier, else the first.
pub fn pick_auto(names: &Vec<String>, carriers: &Vec<bool>) -> (r: Result<String, Error>)
    requires
        names@.len() == carriers@.len(),
    ensures
        match auto_pick(names_view(names@), carriers@) {
            Some(n) => r matches Ok(s) && s@ == n,
            None => r == Err::<String, Error>(Error::NoEthernet),
        },
{
    if names.len() == 0 {
        return Err(Error::NoEthernet);
    }
    match first_with_carrier(carriers) {
        Some(i) => {
            assert(names_view(names@)[i as int] == names@[i as int]@);
            let c = names[i].clone();
            assert(c@ == names@[i as int]@);
            Ok(c)
        },
        None => {
            assert(names_view(names@)[0] == names@[0]@);
            Ok(names[0].clone())
        },
    }
}

/// Which device to own: automatic pick among `names` (sorted physical Ethernet,
/// with their carriers), or the configured name when it is physical Ethernet.
pub fn resolve_iface(
    configured: Option<&str>,
    names: &Vec<String>,
    carriers: &Vec<bool>,
    configured_is_physical: bool,
) -> (r: Result<String, Error>)
    requires
        names@.len() == carriers@.len(),
    ensures
        is_auto_spec(opt_view(configured)) ==> match auto_pick(names_view(names@), carriers@) {
            Some(n) => r matches Ok(s) && s@ == n,
            None => r == Err::<String, Error>(Error::NoEthernet),
        },
        !is_auto_spec(opt_view(configured)) ==> (if configured_is_physical {
            r matches Ok(s) && s@ == configured->0@
        } else {
            r matches Err(Error::NotEthernet(s)) && s@ == configured->0@
        }),
{
    if is_auto(configured) {
        return pick_auto(names, carriers);
    }
    match configured {
        Some(name) => {
            if configured_is_physical {
                Ok(String::from_str(name))
            } else {
                Err(Error::NotEthernet(String::from_str(name)))
            }
        },
        None => Err(Error::NoEthernet),
    }
}

/// `needle` occurs in `s` at some position.
pub open spec fn has_substring(s: Seq<char>, needle: Seq<char>) -> bool {
    exists|i: int| 0 <= i && i + needle.len() <= s.len() && #[trigger] s.subrange(i, i + needle.len()) == needle
}

/// `s` contains `needle`.
pub fn contains_substring(s: &[char], needle: &[char]) -> (r: bool)
    ensures
        r == has_substring(s@, needle@),
{
    let n = s.len();
    let m = needle.len();
    if m > n {
        assert(!has_substring(s@, needle@));
        return false;
    }
    let mut i: usize = 0;
    while i <= n - m
        invariant
            n == s@.len(),
            m == needle@.len(),
            m <= n,
            i <= n - m + 1,
            forall|k: int| 0 <= k < i ==> #[trigger] s@.subrange(k, k + m) != needle@,
        decreases n - i,
    {
        let mut j: usize = 0;
        let mut same = true;
        while j < m
            invariant
                n == s@.len(),
                m == needle@.len(),
                i + m <= n,
                j <= m,
                same == (forall|k: int| 0 <= k < j ==> s@[i + k] == needle@[k]),
            decreases m - j,
        {
            if s[i + j] != needle[j] {
                same = false;
            }
            j = j + 1;
        }
        if same {
            assert(s@.subrange(i as int, i + m) =~= needle@);
            return true;
        }
        assert(s@.subrange(i as int, i + m) != needle@) by {
            let k = choose|k: int| 0 <= k < m && s@[i + k] != needle@[k];
            assert(s@.subrange(i as int, i + m)[k] == s@[i + k]);
        }
        i = i + 1;
    }
    false
}

/// sysfs facts about one `class/net` entry, as the caller read them.
pub struct SysfsEntry {
    /// The entry is a directory.
    pub is_dir: bool,
    /// Contents of `type`, when readable.
    pub type_text: Option<String>,
    /// `wireless` exists.
    pub wireless: bool,
    /// `bridge` is a directory.
    pub bridge: bool,
    /// Canonical path of the entry, when it resolves.
    pub canonical: Option<String>,
    /// Contents of `flags`, when readable.
    pub flags_text: Option<String>,
}

/// `IFF_LOOPBACK`.
pub const IFF_LOOPBACK: u32 = 8;

/// The `flags` text marks a loopback device: trimmed, `0x` prefixes stripped,
/// parsed as hex, with the `IFF_LOOPBACK` bit set.
pub open spec fn flags_loopback(flags: Seq<char>) -> bool {
    match parse_unsigned(strip_leading_pattern(trim(flags), "0x"@), 16, u32::MAX as int) {
        Some(v) => (v as u32) & 8u32 != 0,
        None => false,
    }
}

/// Physical Ethernet: `ARPHRD_ETHER`, not virtual, not wifi, not loopback, not bridge.
pub open spec fn physical_ethernet(name: Seq<char>, e: SysfsEntry) -> bool {
    &&& name.len() > 0
    &&& !name.contains('/')
    &&& e.is_dir
    &&& e.type_text matches Some(t) && parse_unsigned(trim(t@), 10, u16::MAX as int) == Some(1int)
    &&& !e.wireless
    &&& !e.bridge
    &&& !(e.canonical matches Some(c) && has_substring(c@, "/devices/virtual/"@))
    &&& !(e.flags_text matches Some(f) && flags_loopback(f@))
}

/// `str::trim_start_matches(p)` for a non-empty pattern.
fn strip_leading_chars(v: &[char], p: &[char]) -> (r: Vec<char>)
    requires
        p@.len() > 0,
    ensures
        r@ == strip_leading_pattern(v@, p@),
{
    let n = v.len();
    let m = p.len();
    let mut i: usize = 0;
    assert(v@.subrange(0, n as int) =~= v@);
    while i <= n && m <= n - i && prefix_at(v, p, i)
        invariant
            n == v@.len(),
            m == p@.len(),
            m > 0,
            i <= n,
            strip_leading_pattern(v@, p@) == strip_leading_pattern(
                v@.subrange(i as int, n as int),
                p@,
            ),
        decreases n - i,
    {
        assert(v@.subrange(i as int, n as int).subrange(0, m as int) =~= v@.subrange(
            i as int,
            i + m,
        ));
        assert(v@.subrange(i as int, n as int).subrange(m as int, n - i) =~= v@.subrange(
            i + m,
            n as int,
        ));
        i = i + m;
    }
    if m <= n - i {
        assert(v@.subrange(i as int, n as int).subrange(0, m as int) =~= v@.subrange(
            i as int,
            i + m,
        ));
    }
    crate::text::sub_vec(v, i, n)
}

/// `p` occurs in `v` at `i`.
fn prefix_at(v: &[char], p: &[char], i: usize) -> (r: bool)
    requires
        i + p@.len() <= v@.len(),
    ensures
        r == (v@.subrange(i as int, i + p@.len()) == p@),
{
    let m = p.len();
    let vn = v.len();
    let mut j: usize = 0;
    while j < m
        invariant
            m == p@.len(),
            vn == v@.len(),
            i + m <= vn,
            j <= m,
            forall|k: int| 0 <= k < j ==> v@[i + k] == p@[k],
        decreases m - j,
    {
        if v[i + j] != p[j] {
            assert(v@.subrange(i as int, i + m)[j as int] != p@[j as int]);
            return false;
        }
        j = j + 1;
    }
    assert(v@.subrange(i as int, i + m) =~= p@);
    true
}

/// Whether a sysfs entry named `name` is a physical Ethernet device.
pub fn is_physical_ethernet(name: &str, e: &SysfsEntry) -> (r: bool)
    ensures
        r == physical_ethernet(name@, *e),
{
    let nv = to_chars(name);
    if nv.len() == 0 || contains_char(&nv, '/') {
        return false;
    }
    if !e.is_dir {
        return false;
    }
    match &e.type_text {
        None => {
            return false;
        },
        Some(t) => {
            let tv = to_chars(t.as_str());
            let tt = trim_chars(&tv);
            match parse_unsigned_chars(&tt, 10, 65535) {
                Some(k) => {
                    if k != ARPHRD_ETHER as u64 {
                        return false;
                    }
                },
                None => {
                    return false;
                },
            }
        },
    }
    if e.wireless || e.bridge {
        return false;
    }
    match &e.canonical {
        Some(c) => {
            let cv = to_chars(c.as_str());
            let needle = to_chars("/devices/virtual/");
            if contains_substring(&cv, &needle) {
                return false;
            }
        },
        None => {},
    }
    match &e.flags_text {
        Some(f) => {
            let fv = to_chars(f.as_str());
            let ft = trim_chars(&fv);
            let prefix = to_chars("0x");
            proof {
                reveal_strlit("0x");
            }
            let stripped = strip_leading_chars(&ft, &prefix);
            match parse_unsigned_chars(&stripped, 16, 0xffff_ffff) {
                Some(val) => {
                    if (val as u32) & IFF_LOOPBACK != 0 {
                        return false;
                    }
                },
                None => {},
            }
        },
        None => {},
    }
    true
}

/// The CIDR names the address `ip` (`a.b.c.d/...`).
pub open spec fn cidr_is_addr(cidr: Seq<char>, ip: Ipv4Addr) -> bool {
    let p = ipv4_text(ip) + "/"@;
    p.len() <= cidr.len() && cidr.subrange(0, p.len() as int) == p
}

/// `cidr` starts with `"{ip}/"` (how an iface's address is matched).
pub fn cidr_has_addr(cidr: Option<&str>, ip: Ipv4Addr) -> (r: bool)
    ensures
        r == (configured_some(cidr) && cidr_is_addr(cidr->0@, ip)),
{
    match cidr {
        None => false,
        Some(c) => {
            let cv = to_chars(c);
            let mut p = addr::ipv4_chars(ip);
            p.push('/');
            proof {
                reveal_strlit("/");
            }
            assert(p@ =~= ipv4_text(ip) + "/"@);
            if p.len() > cv.len() {
                return false;
            }
            prefix_at(&cv, &p, 0)
        },
    }
}

pub open spec fn configured_some(o: Option<&str>) -> bool {
    o is Some
}

/// Address of a CIDR, `0.0.0.0` when it has none.
pub fn cidr_ip(cidr: &str) -> (r: Ipv4Addr)
    ensures
        r == match cidr_addr(cidr@) {
            Some(a) => a,
            None => Ipv4Addr { a: 0, b: 0, c: 0, d: 0 },
        },
{
    match addr::cidr_ipv4(cidr) {
        Some(a) => a,
        None => Ipv4Addr::unspecified(),
    }
}

/// `ethtool --set-eee <iface> eee off`.
pub fn ethtool_eee_args<'a>(iface: &'a str) -> (r: [&'a str; 4])
    ensures
        r@.map_values(|s: &str| s@) == seq!["--set-eee"@, iface@, "eee"@, "off"@],
{
    let r = ["--set-eee", iface, "eee", "off"];
    assert(r@.map_values(|s: &str| s@) =~= seq!["--set-eee"@, iface@, "eee"@, "off"@]);
    r
}

/// `ethtool -K <iface> tso off gso off`.
pub fn ethtool_offload_args<'a>(iface: &'a str) -> (r: [&'a str; 6])
    ensures
        r@.map_values(|s: &str| s@) == seq!["-K"@, iface@, "tso"@, "off"@, "gso"@, "off"@],
{
    let r = ["-K", iface, "tso", "off", "gso", "off"];
    assert(r@.map_values(|s: &str| s@) =~= seq!["-K"@, iface@, "tso"@, "off"@, "gso"@, "off"@]);
    r
}

/// `ethtool -C <iface> rx-usecs 0 tx-usecs 0`.
pub fn ethtool_coalesce_args<'a>(iface: &'a str) -> (r: [&'a str; 6])
    ensures
        r@.map_values(|s: &str| s@) == seq![
            "-C"@,
            iface@,
            "rx-usecs"@,
            "0"@,
            "tx-usecs"@,
            "0"@,
        ],
{
    let r = ["-C", iface, "rx-usecs", "0", "tx-usecs", "0"];
    assert(r@.map_values(|s: &str| s@) =~= seq![
        "-C"@,
        iface@,
        "rx-usecs"@,
        "0"@,
        "tx-usecs"@,
        "0"@,
    ]);
    r
}

/// `ip link show` output reports the link `state UP`.
pub fn link_state_up(link_output: &str) -> (r: bool)
    ensures
        r == has_substring(link_output@, "state UP"@),
{
    contains_substring(&to_chars(link_output), &to_chars("state UP"))
}

/// Equal, or before in string order.
pub open spec fn text_le(a: Seq<char>, b: Seq<char>) -> bool {
    a == b || text_lt(a, b)
}

/// Sorted in string order (repeats allowed), as `sort` leaves strings.
pub open spec fn sorted_texts(s: Seq<Seq<char>>) -> bool {
    forall|i: int, j: int| 0 <= i < j < s.len() ==> text_le(#[trigger] s[i], #[trigger] s[j])
}

/// The names of the entries that are physical Ethernet, in entry order.
pub open spec fn physical_names(es: Seq<(String, SysfsEntry)>) -> Seq<Seq<char>>
    decreases es.len(),
{
    if es.len() == 0 {
        Seq::empty()
    } else {
        let last = es.last();
        physical_names(es.drop_last()) + if physical_ethernet(last.0@, last.1) {
            seq![last.0@]
        } else {
            Seq::empty()
        }
    }
}

proof fn lemma_text_le_transitive(a: Seq<char>, b: Seq<char>, c: Seq<char>)
    requires
        text_le(a, b),
        text_le(b, c),
    ensures
        text_le(a, c),
{
    if a != b && b != c {
        lemma_text_lt_transitive(a, b, c);
    }
}

/// `a < b` in string order.
fn str_less(a: &str, b: &str) -> (r: bool)
    ensures
        r == text_lt(a@, b@),
{
    text_less(&to_chars(a), &to_chars(b))
}

/// The entries' names are pairwise different (as a directory's are).
pub open spec fn distinct_names(es: Seq<(String, SysfsEntry)>) -> bool {
    forall|i: int, j: int| 0 <= i < j < es.len() ==> es[i].0@ != es[j].0@
}

/// Strictly ascending in string order.
pub open spec fn strictly_sorted_texts(s: Seq<Seq<char>>) -> bool {
    forall|i: int, j: int| 0 <= i < j < s.len() ==> text_lt(#[trigger] s[i], #[trigger] s[j])
}

/// `t` is the name of one of the first `i` entries.
pub open spec fn named_before(es: Seq<(String, SysfsEntry)>, i: int, t: Seq<char>) -> bool {
    exists|j: int| 0 <= j < i && es[j].0@ == t
}

/// No name occurs twice.
pub open spec fn no_repeats(s: Seq<Seq<char>>) -> bool {
    forall|a: int, b: int| 0 <= a < b < s.len() ==> #[trigger] s[a] != #[trigger] s[b]
}

/// Sorted physical Ethernet names among `class/net` entries (name, sysfs facts).
pub fn list_physical_ethernet(entries: &Vec<(String, SysfsEntry)>) -> (r: Vec<String>)
    ensures
        sorted_texts(names_view(r@)),
        names_view(r@).to_multiset() == physical_names(entries@).to_multiset(),
        distinct_names(entries@) ==> strictly_sorted_texts(names_view(r@)),
{
    broadcast use vstd::seq_lib::to_multiset_build, vstd::seq_lib::to_multiset_insert;
    let mut out: Vec<String> = Vec::new();
    let mut i: usize = 0;
    assert(names_view(out@) =~= Seq::<Seq<char>>::empty());
    assert(entries@.subrange(0, 0) =~= Seq::<(String, SysfsEntry)>::empty());
    while i < entries.len()
        invariant
            i <= entries@.len(),
            sorted_texts(names_view(out@)),
            names_view(out@).to_multiset() == physical_names(entries@.subrange(0, i as int)).to_multiset(),
            forall|k: int| 0 <= k < out@.len() ==> named_before(entries@, i as int, #[trigger] names_view(out@)[k]),
            distinct_names(entries@) ==> no_repeats(names_view(out@)),
        decreases entries@.len() - i,
    {
        let ghost pre = entries@.subrange(0, i as int);
        assert(entries@.subrange(0, i + 1).drop_last() =~= pre);
        assert(entries@.subrange(0, i + 1).last() == entries@[i as int]);
        let name = entries[i].0.as_str();
        if is_physical_ethernet(name, &entries[i].1) {
            let ghost ov = names_view(out@);
            let mut p: usize = 0;
            while p < out.len() && str_less(out[p].as_str(), name)
                invariant
                    ov == names_view(out@),
                    p <= out@.len(),
                    forall|k: int| 0 <= k < p ==> text_lt(#[trigger] ov[k], name@),
                decreases out@.len() - p,
            {
                assert(ov[p as int] == out@[p as int]@);
                p = p + 1;
            }
            proof {
                if p < out@.len() {
                    assert(ov[p as int] == out@[p as int]@);
                    lemma_text_lt_total(ov[p as int], name@);
                }
            }
            out.insert(p, String::from_str(name));
            let ghost nv = names_view(out@);
            assert(nv =~= ov.insert(p as int, name@));
            assert forall|a: int, b: int| 0 <= a < b < nv.len() implies text_le(#[trigger] nv[a], #[trigger] nv[b]) by {
                if b < p {
                    assert(nv[a] == ov[a] && nv[b] == ov[b]);
                } else if b == p {
                    assert(nv[a] == ov[a]);
                } else if a == p {
                    assert(nv[b] == ov[b - 1]);
                    if b - 1 > p {
                        lemma_text_le_transitive(name@, ov[p as int], ov[b - 1]);
                    }
                } else if a < p {
                    assert(nv[a] == ov[a] && nv[b] == ov[b - 1]);
                    lemma_text_le_transitive(ov[a], name@, ov[p as int]);
                    if b - 1 > p {
                        lemma_text_le_transitive(ov[a], ov[p as int], ov[b - 1]);
                    }
                } else {
                    assert(nv[a] == ov[a - 1] && nv[b] == ov[b - 1]);
                }
            }
            assert(name@ == entries@[i as int].0@);
            assert forall|k: int| 0 <= k < nv.len() implies named_before(entries@, i + 1, #[trigger] nv[k]) by {
                if k < p {
                    assert(nv[k] == ov[k]);
                    assert(named_before(entries@, i as int, ov[k]));
                } else if k == p {
                    assert(entries@[i as int].0@ == nv[k]);
                } else {
                    assert(nv[k] == ov[k - 1]);
                    assert(named_before(entries@, i as int, ov[k - 1]));
                }
            }
            proof {
                if distinct_names(entries@) {
                    assert forall|k: int| 0 <= k < ov.len() implies ov[k] != name@ by {
                        assert(named_before(entries@, i as int, ov[k]));
                        let j = choose|j: int| 0 <= j < i && entries@[j].0@ == ov[k];
                        assert(entries@[j].0@ != entries@[i as int].0@);
                    }
                    assert forall|a: int, b: int| 0 <= a < b < nv.len() implies #[trigger] nv[a] != #[trigger] nv[b] by {
                        if b < p {
                            assert(nv[a] == ov[a] && nv[b] == ov[b]);
                        } else if b == p {
                            assert(nv[a] == ov[a]);
                        } else if a == p {
                            assert(nv[b] == ov[b - 1]);
                        } else if a < p {
                            assert(nv[a] == ov[a] && nv[b] == ov[b - 1]);
                        } else {
                            assert(nv[a] == ov[a - 1] && nv[b] == ov[b - 1]);
                        }
                    }
                }
            }
            assert(physical_names(entries@.subrange(0, i + 1)) =~= physical_names(pre).push(name@));
            proof {
                vstd::seq_lib::to_multiset_insert(ov, p as int, name@);
                vstd::seq_lib::to_multiset_build(physical_names(pre), name@);
                assert(nv.to_multiset() == ov.to_multiset().insert(name@));
            }
        } else {
            assert(physical_names(entries@.subrange(0, i + 1)) =~= physical_names(pre));
            assert forall|k: int| 0 <= k < out@.len() implies named_before(entries@, i + 1, #[trigger] names_view(out@)[k]) by {
                assert(named_before(entries@, i as int, names_view(out@)[k]));
            }
        }
        i = i + 1;
    }
    assert(entries@.subrange(0, entries@.len() as int) =~= entries@);
    proof {
        let rv = names_view(out@);
        if distinct_names(entries@) {
            assert forall|a: int, b: int| 0 <= a < b < rv.len() implies text_lt(#[trigger] rv[a], #[trigger] rv[b]) by {
                assert(text_le(rv[a], rv[b]));
                assert(rv[a] != rv[b]);
            }
        }
    }
    out
}

} // verus!
