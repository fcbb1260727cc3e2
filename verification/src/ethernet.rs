//! configure-ethernet: the settings file, and what the command outputs it
//! reads say. Running `ip`, `ping` and `dhclient` is the caller's part.

use vstd::prelude::*;
use vstd::string::StringExecFns;

use crate::error::Error;
use crate::gate::dnsmasq::{first_ethernet_iface, is_candidate, nets_view};
use crate::net::addr::{ipv4_chars, ipv4_text, parse_ipv4, parse_ipv4_chars, Ipv4Addr};
use crate::net::{contains_substring, has_substring};
use crate::text::{
    is_ascii_digit, is_ws, lemma_split_part, lemma_split_through, split, split_from, trim_end,
    trim_start, upper_char, first_index, drop_cr, chars_eq, lines, lines_chars, split_once, split_once_chars, string_from_chars, text_lt, to_chars,
    trim, trim_chars, upper, upper_chars, views, words, words_chars,
};

verus! {

pub const DEFAULT_CONFIG_PATH: &'static str = "/data/etc/configure-ethernet.conf";

pub const DEFAULT_PRIMARY: &'static str = "192.168.0.120";

pub const DEFAULT_SECONDARY: &'static str = "192.168.1.120";

pub const DEFAULT_PREFIX_LEN: u8 = 24;

/// The two static addresses to try, in order.
#[derive(Clone, Debug)]
pub struct Settings {
    pub primary_addr: String,
    pub secondary_addr: String,
}

/// Settings as values.
pub struct SettingsView {
    pub primary: Seq<char>,
    pub secondary: Seq<char>,
}

impl View for Settings {
    type V = SettingsView;

    open spec fn view(&self) -> SettingsView {
        SettingsView { primary: self.primary_addr@, secondary: self.secondary_addr@ }
    }
}

pub open spec fn is_primary_key(k: Seq<char>) -> bool {
    k == "PRIMARY"@ || k == "PRIMARY_ADDRESS"@ || k == "ADDRESS"@
}

pub open spec fn is_secondary_key(k: Seq<char>) -> bool {
    k == "SECONDARY"@ || k == "SECONDARY_ADDRESS"@ || k == "FALLBACK"@ || k == "FALLBACK_ADDRESS"@
}

/// One settings line applied to `s`: `KEY=address` (key case-insensitive,
/// blanks trimmed) sets the primary or secondary address when the value is
/// an IPv4 address; comments, blank lines and anything else leave `s` alone.
pub open spec fn apply_line(line: Seq<char>, s: SettingsView) -> SettingsView {
    let l = trim(line);
    if l.len() == 0 || l[0] == '#' {
        s
    } else {
        match split_once(l, '=') {
            None => s,
            Some((k, v)) => {
                let key = upper(trim(k));
                let value = trim(v);
                if value.len() == 0 || parse_ipv4(value) is None {
                    s
                } else if is_primary_key(key) {
                    SettingsView { primary: value, ..s }
                } else if is_secondary_key(key) {
                    SettingsView { secondary: value, ..s }
                } else {
                    s
                }
            },
        }
    }
}

/// The settings after reading `ls` in order over `s`.
pub open spec fn apply_lines(ls: Seq<Seq<char>>, s: SettingsView) -> SettingsView
    decreases ls.len(),
{
    if ls.len() == 0 {
        s
    } else {
        apply_line(ls.last(), apply_lines(ls.drop_last(), s))
    }
}

fn key_is(key: &[char], word: &str) -> (r: bool)
    ensures
        r == (key@ == word@),
{
    chars_eq(key, &to_chars(word))
}

/// Read the settings file's text over the defaults.
pub fn parse_config(text: &str, defaults: Settings) -> (r: Settings)
    ensures
        r@ == apply_lines(lines(text@), defaults@),
{
    let ls = lines_chars(&to_chars(text));
    let ghost lv = views(ls@);
    let mut cfg = defaults;
    let mut i: usize = 0;
    while i < ls.len()
        invariant
            lv == views(ls@),
            i <= ls@.len(),
            cfg@ == apply_lines(lv.subrange(0, i as int), defaults@),
        decreases ls@.len() - i,
    {
        assert(lv.subrange(0, i + 1).drop_last() =~= lv.subrange(0, i as int));
        assert(lv.subrange(0, i + 1).last() == ls@[i as int]@);
        let ghost before = cfg@;
        let l = trim_chars(&ls[i]);
        if l.len() > 0 && l[0] != '#' {
            match split_once_chars(&l, '=') {
                Some((k, v)) => {
                    let key = upper_chars(&trim_chars(&k));
                    let value = trim_chars(&v);
                    if value.len() > 0 && parse_ipv4_chars(&value).is_some() {
                        if key_is(&key, "PRIMARY") || key_is(&key, "PRIMARY_ADDRESS") || key_is(&key, "ADDRESS") {
                            cfg.primary_addr = string_from_chars(&value);
                        } else if key_is(&key, "SECONDARY") || key_is(&key, "SECONDARY_ADDRESS")
                            || key_is(&key, "FALLBACK") || key_is(&key, "FALLBACK_ADDRESS") {
                            cfg.secondary_addr = string_from_chars(&value);
                        }
                    }
                },
                None => {},
            }
        }
        assert(cfg@ == apply_line(ls@[i as int]@, before));
        i = i + 1;
    }
    assert(lv.subrange(0, lv.len() as int) =~= lv);
    cfg
}

/// The settings file written when none exists.
pub open spec fn config_text(s: SettingsView) -> Seq<char> {
    "# configure-ethernet static addresses (edit to match club subnet)\nPRIMARY="@ + s.primary
        + "\nSECONDARY="@ + s.secondary + "\n"@
}

/// Render the settings file.
pub fn render_config(cfg: &Settings) -> (r: String)
    ensures
        r@ == config_text(cfg@),
{
    let mut s = String::from_str("# configure-ethernet static addresses (edit to match club subnet)\nPRIMARY=");
    s.append(cfg.primary_addr.as_str());
    s.append("\nSECONDARY=");
    s.append(cfg.secondary_addr.as_str());
    s.append("\n");
    s
}

/// The gateway assumed for a static address: `.1` in its /24, empty when
/// the address does not parse.
pub open spec fn gateway_text(addr: Seq<char>) -> Seq<char> {
    match parse_ipv4(addr) {
        Some(ip) => ipv4_text(Ipv4Addr { d: 1, ..ip }),
        None => Seq::empty(),
    }
}

/// `.1` of the address's /24 (`""` for an invalid address).
pub fn gateway_for(addr: &str) -> (r: String)
    ensures
        r@ == gateway_text(addr@),
{
    match Ipv4Addr::parse(addr) {
        Some(ip) => {
            let g = Ipv4Addr { a: ip.a, b: ip.b, c: ip.c, d: 1 };
            g.to_string()
        },
        None => String::new(),
    }
}

/// `ip link show` output says the link is up.
pub fn iface_link_up(link_output: &str) -> (r: bool)
    ensures
        r == (has_substring(link_output@, "state UP"@) || has_substring(link_output@, ",UP"@)),
{
    let t = to_chars(link_output);
    contains_substring(&t, &to_chars("state UP")) || contains_substring(&t, &to_chars(",UP"))
}

/// The word after the first `via` that has one, in a line's words.
pub open spec fn via_in(ws: Seq<Seq<char>>) -> Option<Seq<char>> {
    if exists|i: int| 0 <= i && i + 1 < ws.len() && ws[i] == "via"@ {
        let i = choose|i: int|
            0 <= i && i + 1 < ws.len() && ws[i] == "via"@ && forall|k: int|
                0 <= k < i ==> !(k + 1 < ws.len() && ws[k] == "via"@);
        Some(ws[i + 1])
    } else {
        None
    }
}

/// The default gateway in `ip route show default` output: the word after
/// `via` in the first line that has one.
pub open spec fn default_gateway_in(ls: Seq<Seq<char>>) -> Option<Seq<char>>
    decreases ls.len(),
{
    if ls.len() == 0 {
        None
    } else {
        match via_in(words(ls[0])) {
            Some(g) => Some(g),
            None => default_gateway_in(ls.drop_first()),
        }
    }
}

fn via_of(ws: &Vec<Vec<char>>) -> (r: Option<Vec<char>>)
    ensures
        match via_in(views(ws@)) {
            Some(g) => r matches Some(x) && x@ == g,
            None => r is None,
        },
{
    let ghost wv = views(ws@);
    let via_word = to_chars("via");
    let mut i: usize = 0;
    while i < ws.len()
        invariant
            wv == views(ws@),
            via_word@ == "via"@,
            i <= ws@.len(),
            forall|k: int| 0 <= k < i ==> !(k + 1 < wv.len() && wv[k] == "via"@),
        decreases ws@.len() - i,
    {
        assert(wv[i as int] == ws@[i as int]@);
        if i + 1 < ws.len() && chars_eq(&ws[i], &via_word) {
            proof {
                let j = choose|j: int|
                    0 <= j && j + 1 < wv.len() && wv[j] == "via"@ && forall|k: int|
                        0 <= k < j ==> !(k + 1 < wv.len() && wv[k] == "via"@);
                assert(j == i);
                assert(wv[i + 1] == ws@[i + 1]@);
            }
            return Some(crate::text::sub_vec(&ws[i + 1], 0, ws[i + 1].len()));
        }
        i = i + 1;
    }
    None
}

/// The default gateway named in `ip route show default` output.
pub fn default_gateway(route_output: &str) -> (r: Option<String>)
    ensures
        match default_gateway_in(lines(route_output@)) {
            Some(g) => r matches Some(x) && x@ == g,
            None => r is None,
        },
{
    let ls = lines_chars(&to_chars(route_output));
    let ghost lv = views(ls@);
    let mut i: usize = 0;
    assert(lv.subrange(0, lv.len() as int) =~= lv);
    while i < ls.len()
        invariant
            lv == views(ls@),
            lv == lines(route_output@),
            i <= ls@.len(),
            default_gateway_in(lv) == default_gateway_in(lv.subrange(i as int, lv.len() as int)),
        decreases ls@.len() - i,
    {
        let ghost rest = lv.subrange(i as int, lv.len() as int);
        assert(rest[0] == ls@[i as int]@);
        assert(rest.drop_first() =~= lv.subrange(i + 1, lv.len() as int));
        let ws = words_chars(&ls[i]);
        assert(views(ws@) == words(rest[0]));
        match via_of(&ws) {
            Some(g) => {
                assert(default_gateway_in(rest) == Some(g@));
                return Some(string_from_chars(&g));
            },
            None => {},
        }
        i = i + 1;
    }
    assert(lv.subrange(i as int, lv.len() as int).len() == 0);
    None
}

/// The Ethernet interface to configure: the first non-wireless one other
/// than `lo`, in name order.
pub fn first_ethernet_interface(entries: &Vec<(String, bool)>) -> (r: Result<String, Error>)
    ensures
        match r {
            Ok(n) => exists|k: int|
                0 <= k < entries@.len() && is_candidate(#[trigger] nets_view(entries@)[k])
                    && nets_view(entries@)[k].0 == n@ && forall|j: int|
                    0 <= j < entries@.len() && is_candidate(#[trigger] nets_view(entries@)[j])
                        ==> nets_view(entries@)[j].0 == n@ || text_lt(n@, nets_view(entries@)[j].0),
            Err(e) => (e matches Error::Other(m) && m@ == "no Ethernet interface found"@)
                && forall|j: int| 0 <= j < entries@.len() ==> !is_candidate(#[trigger] nets_view(entries@)[j]),
        },
{
    match first_ethernet_iface(entries) {
        Ok(n) => Ok(n),
        Err(_) => Err(Error::Other(String::from_str("no Ethernet interface found"))),
    }
}

/// The address to add for a static attempt: `<addr>/24`.
pub fn static_cidr(addr: &str) -> (r: String)
    ensures
        r@ == addr@ + "/24"@,
{
    let mut s = String::from_str(addr);
    s.append("/24");
    s
}

/// One way of bringing the interface up.
#[derive(Clone, Debug)]
pub enum Attempt {
    /// Static address (with its /24's `.1` as gateway, which must answer a ping).
    Static(String),
    /// dhclient.
    Dhcp,
}

/// The attempts `configure` makes, in order, stopping at the first that
/// works: the primary address, the secondary address, then DHCP.
pub fn attempts(cfg: &Settings) -> (r: Vec<Attempt>)
    ensures
        r@.len() == 3,
        r@[0] matches Attempt::Static(a) && a@ == cfg.primary_addr@,
        r@[1] matches Attempt::Static(a) && a@ == cfg.secondary_addr@,
        r@[2] is Dhcp,
{
    let mut v: Vec<Attempt> = Vec::new();
    v.push(Attempt::Static(cfg.primary_addr.clone()));
    v.push(Attempt::Static(cfg.secondary_addr.clone()));
    v.push(Attempt::Dhcp);
    v
}

/// A DHCP attempt worked: an IPv4 address arrived, and either the default
/// gateway answered a ping or the address is still there.
pub fn dhcp_outcome(has_ipv4: bool, gateway_answered: Option<bool>, has_ipv4_again: bool) -> (r: bool)
    ensures
        r == (has_ipv4 && (gateway_answered == Some(true) || has_ipv4_again)),
{
    if !has_ipv4 {
        return false;
    }
    if let Some(true) = gateway_answered {
        return true;
    }
    has_ipv4_again
}

/// A character of dotted-decimal text.
pub open spec fn ip_char(c: char) -> bool {
    is_ascii_digit(c) || c == '.'
}

/// Every character of `s` is a separator or lies in a part all of whose
/// characters are dotted-decimal ones.
proof fn lemma_split_chars(s: Seq<char>, cur: Seq<char>)
    requires
        forall|k: int| 0 <= k < split_from(s, '.', cur).len() ==> forall|i: int|
            0 <= i < #[trigger] split_from(s, '.', cur)[k].len() ==> ip_char(split_from(s, '.', cur)[k][i]),
    ensures
        forall|i: int| 0 <= i < s.len() ==> ip_char(#[trigger] s[i]),
        forall|i: int| 0 <= i < cur.len() ==> ip_char(#[trigger] cur[i]),
    decreases s.len(),
{
    if s.len() == 0 {
        assert(split_from(s, '.', cur)[0] == cur);
    } else if s[0] == '.' {
        let rest = split_from(s.drop_first(), '.', Seq::empty());
        assert(split_from(s, '.', cur) == seq![cur] + rest);
        assert(split_from(s, '.', cur)[0] == cur);
        assert forall|k: int| 0 <= k < rest.len() implies forall|i: int|
            0 <= i < #[trigger] rest[k].len() ==> ip_char(rest[k][i]) by {
            assert(split_from(s, '.', cur)[k + 1] == rest[k]);
        }
        lemma_split_chars(s.drop_first(), Seq::empty());
        assert forall|i: int| 0 <= i < s.len() implies ip_char(#[trigger] s[i]) by {
            if i > 0 {
                assert(s.drop_first()[i - 1] == s[i]);
            }
        }
    } else {
        assert(split_from(s, '.', cur) == split_from(s.drop_first(), '.', cur.push(s[0])));
        lemma_split_chars(s.drop_first(), cur.push(s[0]));
        assert forall|i: int| 0 <= i < s.len() implies ip_char(#[trigger] s[i]) by {
            if i > 0 {
                assert(s.drop_first()[i - 1] == s[i]);
            } else {
                assert(cur.push(s[0])[cur.len() as int] == s[0]);
            }
        }
        assert forall|i: int| 0 <= i < cur.len() implies ip_char(#[trigger] cur[i]) by {
            assert(cur.push(s[0])[i] == cur[i]);
        }
    }
}

/// IPv4 text is made of digits and dots only, and is not empty.
proof fn lemma_ipv4_chars(v: Seq<char>)
    requires
        parse_ipv4(v) is Some,
    ensures
        v.len() > 0,
        forall|i: int| 0 <= i < v.len() ==> ip_char(#[trigger] v[i]),
{
    let ps = split(v, '.');
    assert forall|k: int| 0 <= k < ps.len() implies forall|i: int|
        0 <= i < #[trigger] ps[k].len() ==> ip_char(ps[k][i]) by {
        assert(crate::net::addr::octet_ok(ps[k]));
    }
    lemma_split_chars(v, Seq::empty());
    if v.len() == 0 {
        assert(ps =~= seq![Seq::<char>::empty()]);
    }
}

/// Text without whitespace at its ends is its own trim.
proof fn lemma_trim_plain(t: Seq<char>)
    requires
        t.len() > 0,
        !is_ws(t[0]),
        !is_ws(t.last()),
    ensures
        trim(t) == t,
{
    assert(trim_start(t) == t);
    assert(trim_end(t) == t);
}

/// `KEY=value` with a key free of `=`: the split is at the key's end.
proof fn lemma_split_key(key: Seq<char>, value: Seq<char>)
    requires
        !key.contains('='),
    ensures
        split_once(key + seq!['='] + value, '=') == Some((key, value)),
{
    let l = key + seq!['='] + value;
    let n = key.len() as int;
    assert(l[n] == '=');
    assert(l.contains('='));
    let i = first_index(l, '=')->0;
    assert(forall|k: int| 0 <= k < n ==> l[k] == key[k]);
    if i < n {
        assert(key[i] == '=');
        assert(key.contains('='));
    }
    if i > n {
        assert(l[n] != '=');
    }
    assert(i == n);
    assert(l.subrange(0, n) =~= key);
    assert(l.subrange(n + 1, l.len() as int) =~= value);
}

/// How one `KEY=address` line of the written file is read.
proof fn lemma_key_line(key: Seq<char>, v: Seq<char>, s: SettingsView)
    requires
        parse_ipv4(v) is Some,
        key.len() > 0,
        forall|i: int| 0 <= i < key.len() ==> 65 <= (#[trigger] key[i] as u32) <= 90 || key[i] == '_',
    ensures
        apply_line(key + seq!['='] + v, s) == if is_primary_key(key) {
            SettingsView { primary: v, ..s }
        } else if is_secondary_key(key) {
            SettingsView { secondary: v, ..s }
        } else {
            s
        },
{
    lemma_ipv4_chars(v);
    let l = key + seq!['='] + v;
    assert(l[0] == key[0]);
    assert(l.last() == v.last());
    assert(!is_ws(v.last()) && !is_ws(v[0]));
    lemma_trim_plain(l);
    lemma_trim_plain(v);
    lemma_trim_plain(key);
    assert(!key.contains('=')) by {
        if key.contains('=') {
            let k = choose|k: int| 0 <= k < key.len() && key[k] == '=';
        }
    }
    lemma_split_key(key, v);
    assert(upper(key) =~= key) by {
        assert forall|i: int| 0 <= i < key.len() implies upper(key)[i] == key[i] by {
            assert(upper_char(key[i]) == key[i]);
        }
    }
}

/// The file `render_config` writes reads back, over any defaults, as the
/// settings written, when both addresses are IPv4 text.
pub proof fn lemma_config_roundtrip(s: SettingsView, d: SettingsView)
    requires
        parse_ipv4(s.primary) is Some,
        parse_ipv4(s.secondary) is Some,
    ensures
        apply_lines(lines(config_text(s)), d) == s,
{
    let c = "# configure-ethernet static addresses (edit to match club subnet)"@;
    let pk = "PRIMARY"@;
    let sk = "SECONDARY"@;
    reveal_strlit("# configure-ethernet static addresses (edit to match club subnet)");
    reveal_strlit("# configure-ethernet static addresses (edit to match club subnet)\nPRIMARY=");
    reveal_strlit("\nSECONDARY=");
    reveal_strlit("\n");
    reveal_strlit("PRIMARY");
    reveal_strlit("SECONDARY");
    reveal_strlit("PRIMARY_ADDRESS");
    reveal_strlit("ADDRESS");
    reveal_strlit("SECONDARY_ADDRESS");
    reveal_strlit("FALLBACK");
    reveal_strlit("FALLBACK_ADDRESS");
    let l1 = pk + seq!['='] + s.primary;
    let l2 = sk + seq!['='] + s.secondary;
    let t = config_text(s);
    assert(t =~= c + seq!['\n'] + (l1 + seq!['\n'] + (l2 + seq!['\n'] + Seq::<char>::empty())));
    lemma_ipv4_chars(s.primary);
    lemma_ipv4_chars(s.secondary);
    assert(!c.contains('\n')) by {
        if c.contains('\n') {
            let k = choose|k: int| 0 <= k < c.len() && c[k] == '\n';
        }
    }
    assert(!l1.contains('\n')) by {
        if l1.contains('\n') {
            let k = choose|k: int| 0 <= k < l1.len() && l1[k] == '\n';
            if k > 7 {
                assert(l1[k] == s.primary[k - 8]);
            }
        }
    }
    assert(!l2.contains('\n')) by {
        if l2.contains('\n') {
            let k = choose|k: int| 0 <= k < l2.len() && l2[k] == '\n';
            if k > 9 {
                assert(l2[k] == s.secondary[k - 10]);
            }
        }
    }
    lemma_split_part(c, l1 + seq!['\n'] + (l2 + seq!['\n'] + Seq::<char>::empty()), '\n');
    lemma_split_part(l1, l2 + seq!['\n'] + Seq::<char>::empty(), '\n');
    lemma_split_part(l2, Seq::<char>::empty(), '\n');
    assert(split(Seq::<char>::empty(), '\n') =~= seq![Seq::<char>::empty()]);
    let ps = split(t, '\n');
    assert(ps =~= seq![c, l1, l2, Seq::<char>::empty()]);
    assert(drop_cr(c) == c);
    assert(l1.last() == s.primary.last());
    assert(drop_cr(l1) == l1);
    assert(l2.last() == s.secondary.last());
    assert(drop_cr(l2) == l2);
    let ls = lines(t);
    assert(ls =~= seq![c, l1, l2]);
    assert(ls.drop_last() =~= seq![c, l1]);
    assert(seq![c, l1].drop_last() =~= seq![c]);
    assert(seq![c].drop_last() =~= Seq::<Seq<char>>::empty());
    lemma_trim_plain(c);
    assert(apply_line(c, d) == d);
    lemma_key_line(pk, s.primary, d);
    let d1 = SettingsView { primary: s.primary, ..d };
    assert(is_primary_key(pk));
    assert(apply_line(l1, d) == d1);
    lemma_key_line(sk, s.secondary, d1);
    assert(!is_primary_key(sk));
    assert(is_secondary_key(sk));
    assert(apply_line(l2, d1) == s);
    assert(apply_lines(Seq::<Seq<char>>::empty(), d) == d);
    assert(apply_lines(seq![c], d) == d);
    assert(apply_lines(seq![c, l1], d) == d1);
    assert(apply_lines(seq![c, l1, l2], d) == s);
}

} // verus!
