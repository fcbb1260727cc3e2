//! `$DATA_DIR/etc/micronet.json` model: defaults, validation, derived addresses.
//!
//! The JSON (camelCase) is read and written outside the library; here the
//! configuration is a plain value and every operator check is proved.

pub mod watch;

use vstd::prelude::*;
use vstd::string::StringExecFns;

use crate::constants::{
    DEFAULT_LINK_RETRY_SECS, DEFAULT_PROBE_TIMEOUT_SECS, DEFAULT_RANGE_END, DEFAULT_RANGE_START,
    DEFAULT_STATIC_HOST, MAX_DNS_NAME_LEN, MAX_DNS_RECORDS, REQUIRED_PREFIX,
};
use crate::datadir;
use crate::error::Error;
use crate::net::addr::{ipv4_chars, ipv4_text, net_contains, Ipv4Addr, Ipv4Net};
use crate::text::{
    contains_char, is_ascii_alnum, lower, lower_chars, parse_unsigned, parse_unsigned_chars,
    split, split_chars, split_from, string_from_chars, strip_trailing, strip_trailing_chars, to_chars, trim,
    trim_chars, utf8_len, lower_char, char_utf8_len, is_ws, trim_start, trim_end,
};

verus! {

/// Default config path under the data root.
pub fn default_config_path(root: &str) -> (r: String)
    ensures
        r@ == datadir::join_all(root@, seq!["etc"@, "micronet.json"@]),
{
    datadir::path2(root, "etc", "micronet.json")
}

/// Default control socket under the data root.
pub fn default_socket_path(root: &str) -> (r: String)
    ensures
        r@ == datadir::join_all(root@, seq!["run"@, "micronet.sock"@]),
{
    datadir::path2(root, "run", "micronet.sock")
}

pub fn default_dnsmasq_conf_path(root: &str) -> (r: String)
    ensures
        r@ == datadir::join_all(root@, seq!["etc"@, "dnsmasq.conf"@]),
{
    datadir::path2(root, "etc", "dnsmasq.conf")
}

pub fn default_dnsmasq_leasefile(root: &str) -> (r: String)
    ensures
        r@ == datadir::join_all(root@, seq!["etc"@, "dnsmasq.leases"@]),
{
    datadir::path2(root, "etc", "dnsmasq.leases")
}

pub fn default_dnsmasq_pidfile(root: &str) -> (r: String)
    ensures
        r@ == datadir::join_all(root@, seq!["run"@, "dnsmasq.pid"@]),
{
    datadir::path2(root, "run", "dnsmasq.pid")
}

/// Per-iface dhclient pidfile (`$DATA_DIR/run/dhclient.<iface>.pid`).
pub fn dhclient_pidfile(root: &str, iface: &str) -> (r: String)
    ensures
        r@ == datadir::join_all(root@, seq!["run"@, "dhclient."@ + iface@ + ".pid"@]),
{
    let mut name = String::from_str("dhclient.");
    name.append(iface);
    name.append(".pid");
    datadir::path2(root, "run", name.as_str())
}

/// Per-iface dhclient leasefile (`$DATA_DIR/etc/dhclient.<iface>.leases`).
pub fn dhclient_leasefile(root: &str, iface: &str) -> (r: String)
    ensures
        r@ == datadir::join_all(root@, seq!["etc"@, "dhclient."@ + iface@ + ".leases"@]),
{
    let mut name = String::from_str("dhclient.");
    name.append(iface);
    name.append(".leases");
    datadir::path2(root, "etc", name.as_str())
}

#[derive(Clone, Debug, PartialEq, Eq)]
pub struct GatewayConfig {
    pub ip: Ipv4Addr,
    pub subnet: Ipv4Net,
    pub static_host: u8,
}

pub fn default_gateway_ip() -> (r: Ipv4Addr)
    ensures
        r == (Ipv4Addr { a: 192, b: 168, c: 0, d: 1 }),
{
    Ipv4Addr::new(192, 168, 0, 1)
}

pub fn default_subnet() -> (r: Ipv4Net)
    ensures
        r == (Ipv4Net { addr: Ipv4Addr { a: 192, b: 168, c: 0, d: 0 }, prefix_len: 24 }),
{
    Ipv4Net { addr: Ipv4Addr::new(192, 168, 0, 0), prefix_len: REQUIRED_PREFIX }
}

pub fn default_static_host() -> (r: u8)
    ensures
        r == 252,
{
    DEFAULT_STATIC_HOST
}

impl Default for GatewayConfig {
    fn default() -> (r: Self)
        ensures
            r.ip == default_gateway_ip_spec(),
            r.subnet == default_subnet_spec(),
            r.static_host == 252,
    {
        GatewayConfig {
            ip: default_gateway_ip(),
            subnet: default_subnet(),
            static_host: default_static_host(),
        }
    }
}

pub open spec fn default_gateway_ip_spec() -> Ipv4Addr {
    Ipv4Addr { a: 192, b: 168, c: 0, d: 1 }
}

pub open spec fn default_subnet_spec() -> Ipv4Net {
    Ipv4Net { addr: Ipv4Addr { a: 192, b: 168, c: 0, d: 0 }, prefix_len: 24 }
}

#[derive(Clone, Debug, PartialEq, Eq)]
pub struct DhcpConfig {
    pub range_start: u8,
    pub range_end: u8,
    /// dnsmasq lease duration (`7d`, `72h`, `3600`). Sticky MAC→IP window.
    pub sticky: String,
}

pub fn default_range_start() -> (r: u8)
    ensures
        r == 50,
{
    DEFAULT_RANGE_START
}

pub fn default_range_end() -> (r: u8)
    ensures
        r == 200,
{
    DEFAULT_RANGE_END
}

pub fn default_sticky() -> (r: String)
    ensures
        r@ == "7d"@,
{
    String::from_str("7d")
}

impl Default for DhcpConfig {
    fn default() -> (r: Self)
        ensures
            r.range_start == 50,
            r.range_end == 200,
            r.sticky@ == "7d"@,
    {
        DhcpConfig {
            range_start: default_range_start(),
            range_end: default_range_end(),
            sticky: default_sticky(),
        }
    }
}

/// Optional unicast DNS records served by dnsmasq in **gateway** mode only.
#[derive(Clone, Debug, PartialEq, Eq)]
pub struct DnsConfig {
    pub enabled: bool,
    pub records: Vec<DnsRecord>,
}

impl DnsConfig {
    /// Disabled with no records: the section is left out when the config is written.
    pub fn is_default(&self) -> (r: bool)
        ensures
            r == (!self.enabled && self.records@.len() == 0),
    {
        !self.enabled && self.records.len() == 0
    }
}

impl Default for DnsConfig {
    fn default() -> (r: Self)
        ensures
            !r.enabled,
            r.records@.len() == 0,
    {
        DnsConfig { enabled: false, records: Vec::new() }
    }
}

/// One unicast A record. Omitted `addr` uses `gateway.ip`.
#[derive(Clone, Debug, PartialEq, Eq)]
pub struct DnsRecord {
    pub name: String,
    pub addr: Option<Ipv4Addr>,
}

#[derive(Clone, Debug, PartialEq, Eq)]
pub struct Config {
    /// Physical Ethernet name. `None` or `"auto"` → first physical Ethernet
    /// with carrier (else first sorted name). Any other string is pinned.
    pub interface: Option<String>,
    pub gateway: GatewayConfig,
    pub dhcp: DhcpConfig,
    pub probe_timeout_secs: u64,
    /// Seconds without carrier on the chosen iface before a full re-select.
    pub link_retry_secs: u64,
    /// Static unicast names. Served only while mode is `gateway`.
    pub dns: DnsConfig,
}

pub fn default_probe_timeout() -> (r: u64)
    ensures
        r == 5,
{
    DEFAULT_PROBE_TIMEOUT_SECS
}

pub fn default_link_retry() -> (r: u64)
    ensures
        r == 15,
{
    DEFAULT_LINK_RETRY_SECS
}

/// The configuration every field of which has its default.
pub open spec fn is_default_config(c: Config) -> bool {
    &&& c.interface is None
    &&& c.gateway.ip == default_gateway_ip_spec()
    &&& c.gateway.subnet == default_subnet_spec()
    &&& c.gateway.static_host == 252
    &&& c.dhcp.range_start == 50
    &&& c.dhcp.range_end == 200
    &&& c.dhcp.sticky@ == "7d"@
    &&& c.probe_timeout_secs == 5
    &&& c.link_retry_secs == 15
    &&& !c.dns.enabled
    &&& c.dns.records@.len() == 0
}

impl Default for Config {
    fn default() -> (r: Self)
        ensures
            is_default_config(r),
    {
        Config {
            interface: None,
            gateway: GatewayConfig::default(),
            dhcp: DhcpConfig::default(),
            probe_timeout_secs: default_probe_timeout(),
            link_retry_secs: default_link_retry(),
            dns: DnsConfig::default(),
        }
    }
}

/// What `format!("{s:?}")` renders for a string.
pub uninterp spec fn debug_str(s: Seq<char>) -> Seq<char>;

/// Calls std's `Debug` for `str` (`format!("{s:?}")`). Claimed: the result is
/// a function of the text alone; what the quoting and escaping is, is left unsaid.
#[verifier::external_body]
pub(crate) fn debug_quoted(s: &str) -> (r: String)
    ensures
        r@ == debug_str(s@),
{
    format!("{s:?}")
}

/// `prefix` + `{t:?}` + `suffix`.
fn quoted_message(prefix: &str, t: &[char], suffix: &str) -> (r: String)
    ensures
        r@ == prefix@ + debug_str(t@) + suffix@,
{
    let ts = string_from_chars(t);
    let d = debug_quoted(ts.as_str());
    let mut m = String::from_str(prefix);
    m.append(d.as_str());
    m.append(suffix);
    m
}

/// The message of a config error.
fn config_error(m: &str) -> (r: Error)
    ensures
        r matches Error::Config(e) && e@ == m@,
{
    Error::Config(String::from_str(m))
}

// ---------------------------------------------------------------- dhcp.sticky

/// Suffix multiplier of a dnsmasq duration and the number part before it.
pub open spec fn sticky_split(t: Seq<char>) -> (Seq<char>, int) {
    if t.len() > 0 && t.last() == 's' {
        (t.drop_last(), 1)
    } else if t.len() > 0 && t.last() == 'm' {
        (t.drop_last(), 60)
    } else if t.len() > 0 && t.last() == 'h' {
        (t.drop_last(), 3600)
    } else if t.len() > 0 && t.last() == 'd' {
        (t.drop_last(), 86400)
    } else if t.len() > 0 && t.last() == 'w' {
        (t.drop_last(), 604800)
    } else {
        (t, 1)
    }
}

/// A dnsmasq duration in seconds (`7d`, `72h`, `45s`, bare seconds), or the error text.
pub open spec fn sticky_seconds(s: Seq<char>) -> Result<u64, Seq<char>> {
    let t = trim(s);
    if t.len() == 0 {
        Err("dhcp.sticky must not be empty"@)
    } else {
        let num = sticky_split(t).0;
        let mul = sticky_split(t).1;
        match parse_unsigned(num, 10, u64::MAX as int) {
            None => Err("dhcp.sticky "@ + debug_str(t) + " is not a duration"@),
            Some(n) => if n == 0 {
                Err("dhcp.sticky must be > 0"@)
            } else if n * mul > u64::MAX {
                Err("dhcp.sticky overflow"@)
            } else {
                Ok((n * mul) as u64)
            },
        }
    }
}

/// The decimal text of `n` is its digits: all ASCII digits, worth `n`.
pub proof fn lemma_decimal_digits(n: nat)
    ensures
        crate::text::decimal(n).len() > 0,
        forall|i: int| 0 <= i < crate::text::decimal(n).len() ==> 48 <= #[trigger] (crate::text::decimal(n)[i] as u32) <= 57,
        crate::text::all_digits(crate::text::decimal(n), 10),
        crate::text::digits_value(crate::text::decimal(n), 10) == n,
    decreases n,
{
    let d = crate::text::decimal(n);
    if n < 10 {
        assert(d == seq![((n + 48) as u32) as char]);
        assert((((n + 48) as u32) as char) as u32 == n + 48);
        assert(d.drop_last() =~= Seq::<char>::empty());
        assert(crate::text::digits_value(d, 10) == crate::text::digits_value(d.drop_last(), 10) * 10
            + crate::text::digit_value(d.last()));
    } else {
        lemma_decimal_digits(n / 10);
        let p = crate::text::decimal(n / 10);
        let c = (((n % 10) + 48) as u32) as char;
        assert(d == p.push(c));
        assert(c as u32 == (n % 10) + 48);
        assert(d.drop_last() =~= p);
        assert(crate::text::digits_value(d, 10) == crate::text::digits_value(p, 10) * 10
            + crate::text::digit_value(c));
        assert(n == (n / 10) * 10 + n % 10) by (nonlinear_arith);
        assert forall|i: int| 0 <= i < d.len() implies 48 <= #[trigger] (d[i] as u32) <= 57 by {
            if i < p.len() {
                assert(d[i] == p[i]);
            }
        }
    }
}

/// A positive number written in decimal, then nothing or one of the suffixes
/// `s`, `m`, `h`, `d`, `w`, is that many seconds, minutes, hours, days or
/// weeks: 1, 60, 3600, 86400 and 604800 seconds each.
pub proof fn lemma_sticky_units(n: nat)
    requires
        0 < n,
    ensures
        n <= u64::MAX ==> sticky_seconds(crate::text::decimal(n)) == Ok::<u64, Seq<char>>(n as u64),
        n <= u64::MAX ==> sticky_seconds(crate::text::decimal(n).push('s')) == Ok::<u64, Seq<char>>(
            n as u64,
        ),
        60 * n <= u64::MAX ==> sticky_seconds(crate::text::decimal(n).push('m')) == Ok::<
            u64,
            Seq<char>,
        >((60 * n) as u64),
        3600 * n <= u64::MAX ==> sticky_seconds(crate::text::decimal(n).push('h')) == Ok::<
            u64,
            Seq<char>,
        >((3600 * n) as u64),
        86400 * n <= u64::MAX ==> sticky_seconds(crate::text::decimal(n).push('d')) == Ok::<
            u64,
            Seq<char>,
        >((86400 * n) as u64),
        604800 * n <= u64::MAX ==> sticky_seconds(crate::text::decimal(n).push('w')) == Ok::<
            u64,
            Seq<char>,
        >((604800 * n) as u64),
{
    let d = crate::text::decimal(n);
    lemma_decimal_digits(n);
    assert(48 <= (d[0] as u32) <= 57);
    assert(48 <= (d.last() as u32) <= 57);
    assert(d[0] != '+');
    assert(trim_start(d) == d);
    assert(trim_end(d) == d);
    assert(trim(d) == d);
    assert(sticky_split(d) == (d, 1int));
    assert forall|c: char| c == 's' || c == 'm' || c == 'h' || c == 'd' || c == 'w' implies {
        let x = #[trigger] d.push(c);
        &&& trim(x) == x
        &&& x.drop_last() == d
    } by {
        let x = d.push(c);
        assert(x[0] == d[0]);
        assert(x.last() == c);
        assert(trim_start(x) == x);
        assert(trim_end(x) == x);
        assert(x.drop_last() =~= d);
    }
    assert(d.push('s').drop_last() == d);
    assert(d.push('m').drop_last() == d);
    assert(d.push('h').drop_last() == d);
    assert(d.push('d').drop_last() == d);
    assert(d.push('w').drop_last() == d);
}

/// Parse a dnsmasq duration (`7d`, `72h`, `45s`, bare seconds). Must be > 0.
pub fn parse_sticky(s: &str) -> (r: Result<u64, Error>)
    ensures
        match sticky_seconds(s@) {
            Ok(n) => r == Ok::<u64, Error>(n),
            Err(m) => r matches Err(Error::Config(e)) && e@ == m,
        },
{
    let v = to_chars(s);
    let t = trim_chars(&v);
    let n = t.len();
    if n == 0 {
        return Err(config_error("dhcp.sticky must not be empty"));
    }
    let last = t[n - 1];
    let (end, mul): (usize, u64) = if last == 's' {
        (n - 1, 1)
    } else if last == 'm' {
        (n - 1, 60)
    } else if last == 'h' {
        (n - 1, 3600)
    } else if last == 'd' {
        (n - 1, 86400)
    } else if last == 'w' {
        (n - 1, 604800)
    } else {
        (n, 1)
    };
    let num = crate::text::sub_vec(&t, 0, end);
    assert(num@ == sticky_split(t@).0 && mul == sticky_split(t@).1) by {
        assert(t@.drop_last() =~= t@.subrange(0, n - 1));
        assert(t@ =~= t@.subrange(0, n as int));
    }
    assert(t@ == trim(s@));
    match parse_unsigned_chars(&num, 10, u64::MAX) {
        None => Err(Error::Config(quoted_message("dhcp.sticky ", &t, " is not a duration"))),
        Some(k) => {
            if k == 0 {
                return Err(config_error("dhcp.sticky must be > 0"));
            }
            match k.checked_mul(mul) {
                None => Err(config_error("dhcp.sticky overflow")),
                Some(p) => Ok(p),
            }
        },
    }
}

// ---------------------------------------------------------------- DNS names

/// What is wrong with one label of a DNS name, if anything.
pub open spec fn label_fault(l: Seq<char>) -> Option<Seq<char>> {
    if l.len() == 0 || utf8_len(l) > 63 {
        Some(" has an empty or overlong label"@)
    } else if l[0] == '-' || l.last() == '-' {
        Some(" has a label starting or ending with '-'"@)
    } else if !(forall|i: int| 0 <= i < l.len() ==> is_ascii_alnum(#[trigger] l[i]) || l[i] == '-') {
        Some(" is not a DNS hostname"@)
    } else {
        None
    }
}

/// The first label fault, labels taken in order.
pub open spec fn labels_fault(ls: Seq<Seq<char>>) -> Option<Seq<char>>
    decreases ls.len(),
{
    if ls.len() == 0 {
        None
    } else {
        match label_fault(ls[0]) {
            Some(f) => Some(f),
            None => labels_fault(ls.drop_first()),
        }
    }
}

/// Lowercased labels joined by dots.
pub open spec fn join_lower(ls: Seq<Seq<char>>) -> Seq<char>
    decreases ls.len(),
{
    if ls.len() == 0 {
        Seq::empty()
    } else if ls.len() == 1 {
        lower(ls[0])
    } else {
        join_lower(ls.drop_last()) + seq!['.'] + lower(ls.last())
    }
}

/// `normalize_dns_name`: the normalized name, or the error text.
pub open spec fn dns_name(name: Seq<char>) -> Result<Seq<char>, Seq<char>> {
    let t = strip_trailing(trim(name), '.');
    if t.len() == 0 {
        Err("dns record name must not be empty"@)
    } else if utf8_len(t) > 253 {
        Err("dns record name longer than 253 characters"@)
    } else if t.contains('\0') || t.contains(' ') || t.contains(',') {
        Err("dns record name "@ + debug_str(t) + " has illegal characters"@)
    } else {
        match labels_fault(split(t, '.')) {
            Some(f) => Err("dns record name "@ + debug_str(t) + f),
            None => Ok(join_lower(split(t, '.'))),
        }
    }
}

/// The parts joined back with the separator between them.
pub open spec fn join_sep(ls: Seq<Seq<char>>, c: char) -> Seq<char>
    decreases ls.len(),
{
    if ls.len() <= 1 {
        if ls.len() == 1 {
            ls[0]
        } else {
            Seq::empty()
        }
    } else {
        ls[0] + seq![c] + join_sep(ls.drop_first(), c)
    }
}

/// Splitting and joining back gives the text.
pub proof fn lemma_join_split(s: Seq<char>, c: char, cur: Seq<char>)
    ensures
        join_sep(split_from(s, c, cur), c) == cur + s,
    decreases s.len(),
{
    crate::text::lemma_split_from_nonempty(s, c, cur);
    if s.len() == 0 {
        assert(cur + s =~= cur);
    } else if s[0] == c {
        lemma_join_split(s.drop_first(), c, Seq::empty());
        crate::text::lemma_split_from_nonempty(s.drop_first(), c, Seq::empty());
        let rest = split_from(s.drop_first(), c, Seq::empty());
        assert((seq![cur] + rest).drop_first() =~= rest);
        assert(Seq::<char>::empty() + s.drop_first() =~= s.drop_first());
        assert(cur + seq![c] + s.drop_first() =~= cur + s);
    } else {
        lemma_join_split(s.drop_first(), c, cur.push(s[0]));
        assert(cur.push(s[0]) + s.drop_first() =~= cur + s);
    }
}

/// Joining peels off the last part.
proof fn lemma_join_last(ls: Seq<Seq<char>>, c: char)
    requires
        ls.len() >= 2,
    ensures
        join_sep(ls, c) == join_sep(ls.drop_last(), c) + seq![c] + ls.last(),
    decreases ls.len(),
{
    assert(join_sep(ls, c) == ls[0] + seq![c] + join_sep(ls.drop_first(), c));
    if ls.len() == 2 {
        assert(ls.drop_first() =~= seq![ls[1]]);
        assert(ls.drop_last() =~= seq![ls[0]]);
        assert(join_sep(ls.drop_first(), c) == ls[1]);
        assert(join_sep(ls.drop_last(), c) == ls[0]);
    } else {
        lemma_join_last(ls.drop_first(), c);
        assert(ls.drop_first().drop_last() =~= ls.drop_last().drop_first());
        assert(ls.drop_last()[0] == ls[0]);
        assert(ls.drop_first().last() == ls.last());
        assert(join_sep(ls.drop_last(), c) == ls[0] + seq![c] + join_sep(ls.drop_last().drop_first(), c));
        assert(ls[0] + seq![c] + (join_sep(ls.drop_first().drop_last(), c) + seq![c] + ls.last())
            =~= (ls[0] + seq![c] + join_sep(ls.drop_first().drop_last(), c)) + seq![c] + ls.last());
    }
}

/// Lowercasing the joined labels is joining the lowercased labels.
proof fn lemma_join_lower(ls: Seq<Seq<char>>)
    requires
        ls.len() >= 1,
    ensures
        join_lower(ls) == lower(join_sep(ls, '.')),
    decreases ls.len(),
{
    if ls.len() == 1 {
    } else {
        lemma_join_lower(ls.drop_last());
        lemma_join_last(ls, '.');
        let a = join_sep(ls.drop_last(), '.');
        assert(lower(a + seq!['.'] + ls.last()) =~= lower(a) + seq!['.'] + lower(ls.last()));
    }
}

/// A normalized DNS name is the trimmed name without its trailing dots,
/// lowercased.
pub proof fn lemma_dns_name_is_lowered(name: Seq<char>)
    ensures
        dns_name(name) is Ok ==> dns_name(name)->Ok_0 == lower(strip_trailing(trim(name), '.')),
{
    let t = strip_trailing(trim(name), '.');
    crate::text::lemma_split_from_nonempty(t, '.', Seq::empty());
    lemma_join_split(t, '.', Seq::empty());
    assert(Seq::<char>::empty() + t =~= t);
    lemma_join_lower(split(t, '.'));
}

proof fn lemma_lower_char(x: char)
    ensures
        (lower_char(x) == '.') == (x == '.'),
        (lower_char(x) == '-') == (x == '-'),
        (lower_char(x) == '\0') == (x == '\0'),
        (lower_char(x) == ' ') == (x == ' '),
        (lower_char(x) == ',') == (x == ','),
        is_ascii_alnum(lower_char(x)) == is_ascii_alnum(x),
        lower_char(lower_char(x)) == lower_char(x),
        char_utf8_len(lower_char(x)) == char_utf8_len(x),
        is_ascii_alnum(x) ==> !is_ws(lower_char(x)),
{
}

proof fn lemma_lower_utf8_len(s: Seq<char>)
    ensures
        utf8_len(lower(s)) == utf8_len(s),
    decreases s.len(),
{
    if s.len() > 0 {
        assert(lower(s).drop_last() =~= lower(s.drop_last()));
        lemma_lower_utf8_len(s.drop_last());
        lemma_lower_char(s.last());
    }
}

proof fn lemma_lower_twice(s: Seq<char>)
    ensures
        lower(lower(s)) == lower(s),
{
    assert forall|k: int| 0 <= k < s.len() implies #[trigger] lower(lower(s))[k] == lower(s)[k] by {
        lemma_lower_char(s[k]);
    }
    assert(lower(lower(s)) =~= lower(s));
}

/// Splitting the lowercased text at `.` gives the lowercased parts.
proof fn lemma_split_lower(s: Seq<char>, cur: Seq<char>)
    ensures
        split_from(lower(s), '.', lower(cur)) == split_from(s, '.', cur).map_values(
            |l: Seq<char>| lower(l),
        ),
    decreases s.len(),
{
    if s.len() == 0 {
        assert(lower(s).len() == 0);
        assert(seq![cur].map_values(|l: Seq<char>| lower(l)) =~= seq![lower(cur)]);
    } else {
        lemma_lower_char(s[0]);
        assert(lower(s)[0] == lower_char(s[0]));
        assert(lower(s).drop_first() =~= lower(s.drop_first()));
        if s[0] == '.' {
            lemma_split_lower(s.drop_first(), Seq::empty());
            assert(lower(Seq::<char>::empty()) =~= Seq::<char>::empty());
            let rest = split_from(s.drop_first(), '.', Seq::empty());
            assert((seq![cur] + rest).map_values(|l: Seq<char>| lower(l)) =~= seq![lower(cur)]
                + rest.map_values(|l: Seq<char>| lower(l)));
        } else {
            lemma_split_lower(s.drop_first(), cur.push(s[0]));
            assert(lower(cur.push(s[0])) =~= lower(cur).push(lower(s)[0]));
        }
    }
}

/// Every label of a name without a label fault is well formed.
proof fn lemma_labels_each(ls: Seq<Seq<char>>, k: int)
    requires
        labels_fault(ls) is None,
        0 <= k < ls.len(),
    ensures
        label_fault(ls[k]) is None,
    decreases ls.len(),
{
    if k > 0 {
        lemma_labels_each(ls.drop_first(), k - 1);
    }
}

/// Lowercasing keeps labels well formed.
proof fn lemma_labels_lower(ls: Seq<Seq<char>>)
    requires
        labels_fault(ls) is None,
    ensures
        labels_fault(ls.map_values(|l: Seq<char>| lower(l))) is None,
    decreases ls.len(),
{
    if ls.len() > 0 {
        let lls = ls.map_values(|l: Seq<char>| lower(l));
        assert(lls.drop_first() =~= ls.drop_first().map_values(|l: Seq<char>| lower(l)));
        lemma_labels_lower(ls.drop_first());
        let l = ls[0];
        let m = lls[0];
        assert(m == lower(l));
        lemma_lower_utf8_len(l);
        lemma_lower_char(l[0]);
        lemma_lower_char(l.last());
        assert(m[0] == lower_char(l[0]));
        assert(m.last() == lower_char(l.last()));
        assert forall|i: int| 0 <= i < m.len() implies is_ascii_alnum(#[trigger] m[i]) || m[i] == '-' by {
            lemma_lower_char(l[i]);
            assert(m[i] == lower_char(l[i]));
        }
    }
}

/// The first and last characters of joined non-empty parts.
proof fn lemma_join_ends(ls: Seq<Seq<char>>, c: char)
    requires
        ls.len() >= 1,
        ls[0].len() > 0,
        ls.last().len() > 0,
    ensures
        join_sep(ls, c).len() > 0,
        join_sep(ls, c)[0] == ls[0][0],
        join_sep(ls, c).last() == ls.last().last(),
{
    if ls.len() >= 2 {
        lemma_join_last(ls, c);
        assert(join_sep(ls, c) == ls[0] + seq![c] + join_sep(ls.drop_first(), c));
    }
}

/// Normalizing a normalized name changes nothing.
pub proof fn lemma_dns_name_idempotent(name: Seq<char>)
    requires
        dns_name(name) is Ok,
    ensures
        dns_name(dns_name(name)->Ok_0) == dns_name(name),
{
    let t = strip_trailing(trim(name), '.');
    let ls = split(t, '.');
    lemma_dns_name_is_lowered(name);
    let u = lower(t);
    assert(dns_name(name)->Ok_0 == u);
    crate::text::lemma_split_from_nonempty(t, '.', Seq::empty());
    lemma_join_split(t, '.', Seq::empty());
    assert(Seq::<char>::empty() + t =~= t);
    assert(join_sep(ls, '.') == t);
    lemma_labels_each(ls, 0);
    lemma_labels_each(ls, ls.len() - 1);
    lemma_join_ends(ls, '.');
    let l0 = ls[0];
    let ll = ls.last();
    assert(l0[0] != '-' && (is_ascii_alnum(l0[0]) || l0[0] == '-'));
    assert(ll.last() == ll[ll.len() - 1]);
    assert(ll.last() != '-' && (is_ascii_alnum(ll[ll.len() - 1]) || ll[ll.len() - 1] == '-'));
    lemma_lower_char(t[0]);
    lemma_lower_char(t.last());
    assert(u.len() == t.len());
    assert(u[0] == lower_char(t[0]));
    assert(u.last() == lower_char(t.last()));
    // trim and strip leave `u` alone.
    assert(!is_ws(u[0]));
    assert(trim_start(u) == u);
    assert(!is_ws(u.last()));
    assert(trim_end(u) == u);
    assert(trim(u) == u);
    assert(u.last() != '.');
    assert(strip_trailing(u, '.') == u);
    lemma_lower_utf8_len(t);
    assert(!u.contains('\0') && !u.contains(' ') && !u.contains(',')) by {
        if u.contains('\0') || u.contains(' ') || u.contains(',') {
            let k = choose|k: int| 0 <= k < u.len() && (u[k] == '\0' || u[k] == ' ' || u[k] == ',');
            lemma_lower_char(t[k]);
            assert(u[k] == lower_char(t[k]));
            assert(t.contains(t[k]));
        }
    }
    lemma_split_lower(t, Seq::empty());
    assert(lower(Seq::<char>::empty()) =~= Seq::<char>::empty());
    let lls = ls.map_values(|l: Seq<char>| lower(l));
    assert(split(u, '.') == lls);
    lemma_labels_lower(ls);
    lemma_join_split(u, '.', Seq::empty());
    assert(Seq::<char>::empty() + u =~= u);
    assert(join_sep(lls, '.') == u);
    lemma_join_lower(lls);
    lemma_lower_twice(t);
    assert(join_lower(lls) == u);
}

/// ASCII text takes one UTF-8 byte per character.
proof fn lemma_ascii_utf8_len(s: Seq<char>)
    requires
        forall|i: int| 0 <= i < s.len() ==> (#[trigger] s[i] as u32) < 128,
    ensures
        utf8_len(s) == s.len(),
    decreases s.len(),
{
    if s.len() > 0 {
        assert forall|i: int| 0 <= i < s.drop_last().len() implies (#[trigger] s.drop_last()[i] as u32) < 128 by {
            assert(s.drop_last()[i] == s[i]);
        }
        lemma_ascii_utf8_len(s.drop_last());
        assert((s.last() as u32) < 128);
    }
}

/// An ASCII letter, digit or `-`.
pub open spec fn hostname_char(ch: char) -> bool {
    ||| 48 <= (ch as u32) <= 57
    ||| 65 <= (ch as u32) <= 90
    ||| 97 <= (ch as u32) <= 122
    ||| ch == '-'
}

/// Every character of the joined parts is the separator or a character of a part.
proof fn lemma_join_chars(ls: Seq<Seq<char>>)
    requires
        forall|k: int, i: int| 0 <= k < ls.len() && 0 <= i < ls[k].len() ==> hostname_char(#[trigger] ls[k][i]),
    ensures
        forall|i: int| 0 <= i < join_sep(ls, '.').len() ==> hostname_char(#[trigger] join_sep(ls, '.')[i])
            || join_sep(ls, '.')[i] == '.',
    decreases ls.len(),
{
    let j = join_sep(ls, '.');
    if ls.len() == 1 {
        assert forall|i: int| 0 <= i < j.len() implies hostname_char(#[trigger] j[i]) || j[i] == '.' by {
            assert(j[i] == ls[0][i]);
        }
    } else if ls.len() >= 2 {
        let rest = ls.drop_first();
        assert forall|k: int, i: int| 0 <= k < rest.len() && 0 <= i < rest[k].len() implies hostname_char(#[trigger] rest[k][i]) by {
            assert(rest[k] == ls[k + 1]);
        }
        lemma_join_chars(rest);
        let r = join_sep(rest, '.');
        assert(j == ls[0] + seq!['.'] + r);
        assert forall|i: int| 0 <= i < j.len() implies hostname_char(#[trigger] j[i]) || j[i] == '.' by {
            if i < ls[0].len() {
                assert(j[i] == ls[0][i]);
            } else if i == ls[0].len() {
            } else {
                assert(j[i] == r[i - ls[0].len() - 1]);
            }
        }
    }
}

/// Labels each free of a fault leave the name free of one.
proof fn lemma_labels_none(ls: Seq<Seq<char>>)
    requires
        forall|k: int| 0 <= k < ls.len() ==> #[trigger] label_fault(ls[k]) is None,
    ensures
        labels_fault(ls) is None,
    decreases ls.len(),
{
    if ls.len() > 0 {
        assert forall|k: int| 0 <= k < ls.drop_first().len() implies #[trigger] label_fault(ls.drop_first()[k]) is None by {
            assert(ls.drop_first()[k] == ls[k + 1]);
        }
        lemma_labels_none(ls.drop_first());
        assert(label_fault(ls[0]) is None);
    }
}

/// A host name accepted as DNS names go: at most 253 characters, labels
/// between dots of 1 to 63 ASCII letters, digits or `-`, never starting or
/// ending with `-`. It normalizes to itself in ASCII lowercase.
pub proof fn lemma_dns_name_accepts(name: Seq<char>)
    requires
        name.len() <= 253,
        forall|k: int| 0 <= k < split(name, '.').len() ==> 1 <= (#[trigger] split(name, '.')[k]).len() <= 63,
        forall|k: int| 0 <= k < split(name, '.').len() ==> (#[trigger] split(name, '.')[k])[0] != '-',
        forall|k: int| 0 <= k < split(name, '.').len() ==> (#[trigger] split(name, '.')[k]).last() != '-',
        forall|k: int, i: int| 0 <= k < split(name, '.').len() && 0 <= i < split(name, '.')[k].len()
            ==> hostname_char(#[trigger] split(name, '.')[k][i]),
    ensures
        dns_name(name) == Ok::<Seq<char>, Seq<char>>(lower(name)),
{
    let ls = split(name, '.');
    crate::text::lemma_split_from_nonempty(name, '.', Seq::empty());
    lemma_join_split(name, '.', Seq::empty());
    assert(Seq::<char>::empty() + name =~= name);
    assert(join_sep(ls, '.') == name);
    assert forall|k: int| 0 <= k < ls.len() implies #[trigger] label_fault(ls[k]) is None by {
        let l = ls[k];
        assert(1 <= l.len() <= 63);
        assert forall|i: int| 0 <= i < l.len() implies (#[trigger] l[i] as u32) < 128 by {
            assert(hostname_char(ls[k][i]));
        }
        lemma_ascii_utf8_len(l);
        assert(l[0] != '-');
        assert(l.last() != '-');
        assert forall|i: int| 0 <= i < l.len() implies is_ascii_alnum(#[trigger] l[i]) || l[i] == '-' by {
            assert(hostname_char(ls[k][i]));
        }
    }
    lemma_labels_none(ls);
    lemma_join_chars(ls);
    assert forall|i: int| 0 <= i < name.len() implies (#[trigger] name[i] as u32) < 128 by {
        assert(hostname_char(name[i]) || name[i] == '.');
    }
    lemma_ascii_utf8_len(name);
    assert(ls[0].len() >= 1 && ls.last().len() >= 1);
    lemma_join_ends(ls, '.');
    let f = ls[0][0];
    let ll = ls.last();
    assert(hostname_char(f) && f != '-');
    assert(ll.last() == ll[ll.len() - 1]);
    assert(hostname_char(ll[ll.len() - 1]) && ll.last() != '-');
    assert(name[0] == f);
    assert(!is_ws(name[0]));
    assert(trim_start(name) == name);
    assert(!is_ws(name.last()));
    assert(trim_end(name) == name);
    assert(trim(name) == name);
    assert(name.last() != '.');
    assert(strip_trailing(name, '.') == name);
    assert(!name.contains('\0') && !name.contains(' ') && !name.contains(',')) by {
        if name.contains('\0') || name.contains(' ') || name.contains(',') {
            let i = choose|i: int| 0 <= i < name.len() && (name[i] == '\0' || name[i] == ' ' || name[i] == ',');
            assert(hostname_char(name[i]) || name[i] == '.');
        }
    }
    assert(dns_name(name) is Ok);
    lemma_dns_name_is_lowered(name);
}

/// A configuration that validates keeps the gateway host and the static host
/// out of the DHCP pool, has a non-empty pool, distinct gateway and static
/// hosts, a `/24` subnet and positive timers.
pub proof fn lemma_valid_config_fields(c: Config)
    requires
        config_fault(c) is None,
    ensures
        !(c.dhcp.range_start <= c.gateway.ip.d && c.gateway.ip.d <= c.dhcp.range_end),
        !(c.dhcp.range_start <= c.gateway.static_host && c.gateway.static_host <= c.dhcp.range_end),
        c.dhcp.range_start < c.dhcp.range_end,
        c.gateway.static_host != c.gateway.ip.d,
        c.gateway.subnet.prefix_len == 24,
        c.probe_timeout_secs > 0,
        c.link_retry_secs > 0,
{
}

/// A prefix never takes more UTF-8 bytes than the whole.
pub proof fn lemma_utf8_len_prefix(s: Seq<char>, k: int)
    requires
        0 <= k <= s.len(),
    ensures
        utf8_len(s.subrange(0, k)) <= utf8_len(s),
        utf8_len(s) >= 0,
    decreases s.len(),
{
    if s.len() == 0 {
        assert(s.subrange(0, k) =~= s);
    } else if k == s.len() {
        assert(s.subrange(0, k) =~= s);
        lemma_utf8_len_prefix(s.drop_last(), 0);
    } else {
        lemma_utf8_len_prefix(s.drop_last(), k);
        assert(s.drop_last().subrange(0, k) =~= s.subrange(0, k));
    }
}

/// `utf8_len(v) > limit`, reading no further than needed.
fn utf8_len_exceeds(v: &[char], limit: usize) -> (r: bool)
    requires
        limit <= 1024,
    ensures
        r == (utf8_len(v@) > limit),
{
    let mut n: usize = 0;
    let mut i: usize = 0;
    while i < v.len()
        invariant
            limit <= 1024,
            i <= v@.len(),
            n == utf8_len(v@.subrange(0, i as int)),
            n <= limit,
        decreases v@.len() - i,
    {
        assert(v@.subrange(0, i + 1).drop_last() =~= v@.subrange(0, i as int));
        n = n + crate::text::char_len_utf8(v[i]);
        i = i + 1;
        if n > limit {
            proof {
                lemma_utf8_len_prefix(v@, i as int);
            }
            return true;
        }
    }
    assert(v@.subrange(0, v@.len() as int) =~= v@);
    false
}

#[verifier::loop_isolation(false)]
/// One label's fault code: 0 none, 1 empty/overlong, 2 hyphen at an end, 3 not a hostname.
fn check_label(l: &[char]) -> (r: u8)
    ensures
        r == 0 <==> label_fault(l@) is None,
        r == 1 ==> label_fault(l@) == Some(" has an empty or overlong label"@),
        r == 2 ==> label_fault(l@) == Some(" has a label starting or ending with '-'"@),
        r == 3 ==> label_fault(l@) == Some(" is not a DNS hostname"@),
        r <= 3,
{
    let n = l.len();
    if n == 0 || utf8_len_exceeds(l, 63) {
        return 1;
    }
    if l[0] == '-' || l[n - 1] == '-' {
        return 2;
    }
    let mut i: usize = 0;
    while i < n
        invariant
            n == l@.len(),
            i <= n,
            forall|k: int| 0 <= k < i ==> is_ascii_alnum(#[trigger] l@[k]) || l@[k] == '-',
        decreases n - i,
    {
        let c = l[i];
        let u = c as u32;
        let ok = (48 <= u && u <= 57) || (65 <= u && u <= 90) || (97 <= u && u <= 122) || c == '-';
        if !ok {
            assert(!(is_ascii_alnum(l@[i as int]) || l@[i as int] == '-'));
            assert(!(forall|k: int| 0 <= k < l@.len() ==> is_ascii_alnum(#[trigger] l@[k]) || l@[k] == '-'));
            return 3;
        }
        i = i + 1;
    }
    0
}

/// Trim, strip a trailing root dot, lowercase. Rejects empty / illegal labels.
pub fn normalize_dns_name(name: &str) -> (r: Result<String, Error>)
    ensures
        match dns_name(name@) {
            Ok(n) => r matches Ok(s) && s@ == n,
            Err(m) => r matches Err(Error::Config(e)) && e@ == m,
        },
{
    let v = to_chars(name);
    let tr = trim_chars(&v);
    let t = strip_trailing_chars(&tr, '.');
    if t.len() == 0 {
        return Err(config_error("dns record name must not be empty"));
    }
    if utf8_len_exceeds(&t, MAX_DNS_NAME_LEN) {
        return Err(config_error("dns record name longer than 253 characters"));
    }
    if contains_char(&t, '\0') || contains_char(&t, ' ') || contains_char(&t, ',') {
        return Err(
            Error::Config(quoted_message("dns record name ", &t, " has illegal characters")),
        );
    }
    let labels = split_chars(&t, '.');
    let ghost ls = split(t@, '.');
    assert(dns_name(name@) == match labels_fault(ls) {
        Some(f) => Err("dns record name "@ + debug_str(t@) + f),
        None => Ok(join_lower(ls)),
    });
    let mut out: Vec<char> = Vec::new();
    let mut k: usize = 0;
    assert(ls.skip(0) =~= ls);
    while k < labels.len()
        invariant
            labels@.len() == ls.len(),
            forall|j: int| 0 <= j < labels@.len() ==> #[trigger] labels@[j]@ == ls[j],
            k <= labels@.len(),
            labels_fault(ls) == labels_fault(ls.skip(k as int)),
            out@ == join_lower(ls.take(k as int)),
            dns_name(name@) == match labels_fault(ls) {
                Some(f) => Err("dns record name "@ + debug_str(t@) + f),
                None => Ok(join_lower(ls)),
            },
        decreases labels@.len() - k,
    {
        let l = &labels[k];
        assert(l@ == ls[k as int]);
        assert(ls.skip(k as int)[0] == ls[k as int]);
        let f = check_label(l);
        if f != 0 {
            let suffix = if f == 1 {
                " has an empty or overlong label"
            } else if f == 2 {
                " has a label starting or ending with '-'"
            } else {
                " is not a DNS hostname"
            };
            assert(labels_fault(ls) == Some(suffix@));
            return Err(Error::Config(quoted_message("dns record name ", &t, suffix)));
        }
        assert(ls.skip(k as int).drop_first() =~= ls.skip(k + 1));
        let low = lower_chars(l);
        if k > 0 {
            out.push('.');
        }
        let mut j: usize = 0;
        let ghost before = out@;
        while j < low.len()
            invariant
                j <= low@.len(),
                out@ == before + low@.subrange(0, j as int),
            decreases low@.len() - j,
        {
            out.push(low[j]);
            j = j + 1;
            assert(out@ =~= before + low@.subrange(0, j as int));
        }
        assert(low@.subrange(0, low@.len() as int) =~= low@);
        proof {
            assert(ls.take(k + 1).drop_last() =~= ls.take(k as int));
            assert(ls.take(k + 1).last() == ls[k as int]);
            if k == 0 {
                assert(before =~= Seq::<char>::empty());
                assert(out@ =~= lower(ls[0]));
            } else {
                assert(out@ =~= join_lower(ls.take(k as int)) + seq!['.'] + lower(ls[k as int]));
            }
        }
        k = k + 1;
    }
    assert(ls.take(labels@.len() as int) =~= ls);
    assert(ls.skip(labels@.len() as int) =~= Seq::<Seq<char>>::empty());
    Ok(string_from_chars(&out))
}

// ---------------------------------------------------------------- validation

/// The first DNS-record error, records taken in order, `seen` being the
/// normalized names met so far.
pub open spec fn dns_records_fault(records: Seq<DnsRecord>, seen: Seq<Seq<char>>) -> Option<
    Seq<char>,
>
    decreases records.len(),
{
    if records.len() == 0 {
        None
    } else {
        match dns_name(records[0].name@) {
            Err(m) => Some(m),
            Ok(n) => if seen.contains(n) {
                Some("dns.records duplicate name "@ + n)
            } else {
                dns_records_fault(records.drop_first(), seen.push(n))
            },
        }
    }
}

/// The error `Config::validate` reports for `c`, checks taken in order; `None` when valid.
pub open spec fn config_fault(c: Config) -> Option<Seq<char>> {
    let gw_host = c.gateway.ip.d;
    let rs = c.dhcp.range_start;
    let re = c.dhcp.range_end;
    if c.gateway.subnet.prefix_len != 24 {
        Some("gateway.subnet must be /24"@)
    } else if !net_contains(c.gateway.subnet, c.gateway.ip) {
        Some("gateway.ip is not in gateway.subnet"@)
    } else if c.gateway.static_host == gw_host {
        Some("gateway.staticHost must differ from gateway.ip host"@)
    } else if rs >= re {
        Some("dhcp.rangeStart must be < rangeEnd"@)
    } else if rs <= c.gateway.static_host && c.gateway.static_host <= re {
        Some("gateway.staticHost must be outside dhcp range"@)
    } else if rs <= gw_host && gw_host <= re {
        Some("gateway.ip host must be outside dhcp range"@)
    } else if sticky_seconds(c.dhcp.sticky@) is Err {
        Some(sticky_seconds(c.dhcp.sticky@)->Err_0)
    } else if c.probe_timeout_secs == 0 {
        Some("probeTimeoutSecs must be > 0"@)
    } else if c.link_retry_secs == 0 {
        Some("linkRetrySecs must be > 0"@)
    } else if c.interface is Some && c.interface->0@.len() == 0 {
        Some("interface must not be empty"@)
    } else if c.interface is Some && (c.interface->0@.contains('/') || c.interface->0@.contains(
        '\0',
    )) {
        Some("interface must be a simple device name"@)
    } else if c.dns.records@.len() > 64 {
        Some("dns.records must have at most 64 entries"@)
    } else {
        dns_records_fault(c.dns.records@, Seq::empty())
    }
}

/// `n` is among the first `len` names.
fn seen_contains(seen: &Vec<Vec<char>>, n: &[char]) -> (r: bool)
    ensures
        r == seen@.map_values(|x: Vec<char>| x@).contains(n@),
{
    let ghost sv = seen@.map_values(|x: Vec<char>| x@);
    let mut i: usize = 0;
    while i < seen.len()
        invariant
            i <= seen@.len(),
            sv == seen@.map_values(|x: Vec<char>| x@),
            forall|k: int| 0 <= k < i ==> sv[k] != n@,
        decreases seen@.len() - i,
    {
        if crate::text::chars_eq(&seen[i], n) {
            assert(sv[i as int] == n@);
            return true;
        }
        i = i + 1;
    }
    false
}

impl Config {
    /// Validate operator input: `Ok` exactly when no check fails; otherwise the
    /// first failing check's message.
    pub fn validate(&self) -> (r: Result<(), Error>)
        ensures
            match config_fault(*self) {
                None => r is Ok,
                Some(m) => r matches Err(Error::Config(e)) && e@ == m,
            },
            r is Ok ==> !(self.dhcp.range_start <= self.gateway.ip.d && self.gateway.ip.d
                <= self.dhcp.range_end),
            r is Ok ==> !(self.dhcp.range_start <= self.gateway.static_host
                && self.gateway.static_host <= self.dhcp.range_end),
            r is Ok ==> self.dhcp.range_start < self.dhcp.range_end,
            r is Ok ==> self.gateway.static_host != self.gateway.ip.d,
    {
        let gw_host = self.gateway.ip.d;
        let rs = self.dhcp.range_start;
        let re = self.dhcp.range_end;
        if self.gateway.subnet.prefix_len != REQUIRED_PREFIX {
            return Err(config_error("gateway.subnet must be /24"));
        }
        if !self.gateway.subnet.contains(&self.gateway.ip) {
            return Err(config_error("gateway.ip is not in gateway.subnet"));
        }
        if self.gateway.static_host == gw_host {
            return Err(config_error("gateway.staticHost must differ from gateway.ip host"));
        }
        if rs >= re {
            return Err(config_error("dhcp.rangeStart must be < rangeEnd"));
        }
        if self.gateway.static_host >= rs && self.gateway.static_host <= re {
            return Err(config_error("gateway.staticHost must be outside dhcp range"));
        }
        if gw_host >= rs && gw_host <= re {
            return Err(config_error("gateway.ip host must be outside dhcp range"));
        }
        match parse_sticky(self.dhcp.sticky.as_str()) {
            Err(e) => {
                return Err(e);
            },
            Ok(_) => {},
        }
        if self.probe_timeout_secs == 0 {
            return Err(config_error("probeTimeoutSecs must be > 0"));
        }
        if self.link_retry_secs == 0 {
            return Err(config_error("linkRetrySecs must be > 0"));
        }
        match &self.interface {
            Some(name) => {
                let v = to_chars(name.as_str());
                if v.len() == 0 {
                    return Err(config_error("interface must not be empty"));
                }
                if contains_char(&v, '/') || contains_char(&v, '\0') {
                    return Err(config_error("interface must be a simple device name"));
                }
            },
            None => {},
        }
        self.validate_dns()
    }

    fn validate_dns(&self) -> (r: Result<(), Error>)
        ensures
            self.dns.records@.len() > 64 ==> (r matches Err(Error::Config(e)) && e@
                == "dns.records must have at most 64 entries"@),
            self.dns.records@.len() <= 64 ==> match dns_records_fault(
                self.dns.records@,
                Seq::empty(),
            ) {
                None => r is Ok,
                Some(m) => r matches Err(Error::Config(e)) && e@ == m,
            },
    {
        if self.dns.records.len() > MAX_DNS_RECORDS {
            return Err(config_error("dns.records must have at most 64 entries"));
        }
        let ghost recs = self.dns.records@;
        let mut seen: Vec<Vec<char>> = Vec::new();
        let mut i: usize = 0;
        assert(recs.skip(0) =~= recs);
        assert(seen@.map_values(|x: Vec<char>| x@) =~= Seq::<Seq<char>>::empty());
        while i < self.dns.records.len()
            invariant
                recs == self.dns.records@,
                recs.len() <= 64,
                i <= recs.len(),
                dns_records_fault(recs, Seq::empty()) == dns_records_fault(
                    recs.skip(i as int),
                    seen@.map_values(|x: Vec<char>| x@),
                ),
            decreases recs.len() - i,
        {
            let rec = &self.dns.records[i];
            assert(recs.skip(i as int)[0] == recs[i as int]);
            assert(recs.skip(i as int).drop_first() =~= recs.skip(i + 1));
            let name = normalize_dns_name(rec.name.as_str());
            match name {
                Err(e) => {
                    return Err(e);
                },
                Ok(n) => {
                    let nv = to_chars(n.as_str());
                    if seen_contains(&seen, &nv) {
                        let mut m = String::from_str("dns.records duplicate name ");
                        m.append(n.as_str());
                        return Err(Error::Config(m));
                    }
                    let ghost before = seen@;
                    seen.push(nv);
                    assert(seen@.map_values(|x: Vec<char>| x@) =~= before.map_values(
                        |x: Vec<char>| x@,
                    ).push(n@));
                },
            }
            i = i + 1;
        }
        Ok(())
    }

    /// A-record IPv4 (`addr`, or `gateway.ip` when omitted).
    pub fn dns_record_ip(&self, rec: &DnsRecord) -> (r: Ipv4Addr)
        ensures
            r == match rec.addr {
                Some(a) => a,
                None => self.gateway.ip,
            },
    {
        match rec.addr {
            Some(a) => a,
            None => self.gateway.ip,
        }
    }

    /// Host address `.N` in `gateway.subnet` (/24).
    pub fn host_addr(&self, host: u8) -> (r: Ipv4Addr)
        requires
            self.gateway.subnet.prefix_len == 24,
        ensures
            r == (Ipv4Addr {
                a: self.gateway.subnet.addr.a,
                b: self.gateway.subnet.addr.b,
                c: self.gateway.subnet.addr.c,
                d: host,
            }),
    {
        let n = self.gateway.subnet.network();
        proof {
            crate::net::addr::lemma_mask24_octets(n, self.gateway.subnet.addr);
        }
        Ipv4Addr::new(n.a, n.b, n.c, host)
    }

    pub fn static_addr(&self) -> (r: Ipv4Addr)
        requires
            self.gateway.subnet.prefix_len == 24,
        ensures
            r == self.host_spec(self.gateway.static_host),
    {
        self.host_addr(self.gateway.static_host)
    }

    pub fn range_start_addr(&self) -> (r: Ipv4Addr)
        requires
            self.gateway.subnet.prefix_len == 24,
        ensures
            r == self.host_spec(self.dhcp.range_start),
    {
        self.host_addr(self.dhcp.range_start)
    }

    pub fn range_end_addr(&self) -> (r: Ipv4Addr)
        requires
            self.gateway.subnet.prefix_len == 24,
        ensures
            r == self.host_spec(self.dhcp.range_end),
    {
        self.host_addr(self.dhcp.range_end)
    }

    /// `.N` of the gateway subnet.
    pub open spec fn host_spec(self, host: u8) -> Ipv4Addr {
        Ipv4Addr {
            a: self.gateway.subnet.addr.a,
            b: self.gateway.subnet.addr.b,
            c: self.gateway.subnet.addr.c,
            d: host,
        }
    }

    /// `gateway.ip/24`.
    pub open spec fn gateway_cidr_spec(self) -> Seq<char> {
        ipv4_text(self.gateway.ip) + "/24"@
    }

    /// `<static host>/24`.
    pub open spec fn static_cidr_spec(self) -> Seq<char> {
        ipv4_text(self.host_spec(self.gateway.static_host)) + "/24"@
    }

    pub fn gateway_cidr(&self) -> (r: String)
        ensures
            r@ == self.gateway_cidr_spec(),
    {
        cidr_string(self.gateway.ip)
    }

    pub fn static_cidr(&self) -> (r: String)
        requires
            self.gateway.subnet.prefix_len == 24,
        ensures
            r@ == self.static_cidr_spec(),
    {
        cidr_string(self.static_addr())
    }
}

/// `format!("{ip}/24")`.
pub fn cidr_string(ip: Ipv4Addr) -> (r: String)
    ensures
        r@ == ipv4_text(ip) + "/24"@,
{
    let v = ipv4_chars(ip);
    let mut s = string_from_chars(&v);
    s.append("/24");
    s
}

} // verus!
