//! Own a single process via a pidfile: read the pid, and recognise the
//! process by its `/proc/<pid>/cmdline`. Never `killall` or scan all of `/proc`.

use vstd::prelude::*;
use vstd::string::StringExecFns;

use crate::datadir;
use crate::text::{
    parse_unsigned, parse_unsigned_chars, push_decimal, split, split_chars, string_from_chars,
    to_chars, trim, trim_chars, decimal,
};

verus! {

/// The pid a pidfile's text names: the trimmed text read as an `i32`,
/// kept only when positive.
pub open spec fn pid_of(text: Seq<char>) -> Option<i32> {
    match parse_unsigned(trim(text), 10, i32::MAX as int) {
        Some(v) => if v > 0 {
            Some(v as i32)
        } else {
            None
        },
        None => None,
    }
}

/// Pid named by a pidfile's contents (`None` for garbage, zero or negative).
pub fn read_pid(text: &str) -> (r: Option<i32>)
    ensures
        r == pid_of(text@),
{
    let v = to_chars(text);
    let t = trim_chars(&v);
    match parse_unsigned_chars(&t, 10, 0x7fff_ffff) {
        Some(n) => {
            if n > 0 {
                Some(n as i32)
            } else {
                None
            }
        },
        None => None,
    }
}

/// `<proc_root>/<pid>/cmdline`.
pub fn cmdline_path(proc_root: &str, pid: i32) -> (r: String)
    requires
        pid > 0,
    ensures
        r@ == datadir::join_all(proc_root@, seq![decimal(pid as nat), "cmdline"@]),
{
    let mut d: Vec<char> = Vec::new();
    push_decimal(&mut d, pid as u64);
    let ds = string_from_chars(&d);
    datadir::path2(proc_root, ds.as_str(), "cmdline")
}

/// What `String::from_utf8_lossy` renders for the bytes.
pub uninterp spec fn utf8_lossy(bytes: Seq<u8>) -> Seq<char>;

/// Calls `String::from_utf8_lossy`. Claimed: the text is a function of the
/// bytes alone, and ASCII bytes (valid UTF-8, one character each) come back
/// unchanged, as std documents for valid UTF-8; how other sequences are
/// decoded or replaced is left unsaid.
#[verifier::external_body]
fn lossy_text(bytes: &[u8]) -> (r: String)
    ensures
        r@ == utf8_lossy(bytes@),
        (forall|i: int| 0 <= i < bytes@.len() ==> #[trigger] bytes@[i] < 128) ==> r@
            == bytes@.map_values(|b: u8| b as char),
{
    String::from_utf8_lossy(bytes).into_owned()
}

/// Path components of `p` as `Path::components` yields its normal ones:
/// non-empty parts other than `.`.
pub open spec fn components(p: Seq<char>) -> Seq<Seq<char>> {
    split(p, '/').filter(|c: Seq<char>| c.len() > 0 && c != "."@)
}

/// `Path::file_name` of a Unix path: the last component unless it is `..`.
pub open spec fn file_name(p: Seq<char>) -> Option<Seq<char>> {
    let cs = components(p);
    if cs.len() == 0 || cs.last() == ".."@ {
        None
    } else {
        Some(cs.last())
    }
}

/// The name a process of `bin` may show: the file name, else `bin` itself.
pub open spec fn bin_name(bin: Seq<char>) -> Seq<char> {
    match file_name(bin) {
        Some(n) => n,
        None => bin,
    }
}

/// `t` ends with `s`.
pub open spec fn ends_with(t: Seq<char>, s: Seq<char>) -> bool {
    s.len() <= t.len() && t.subrange(t.len() - s.len(), t.len() as int) == s
}

/// One NUL-separated argument names the binary: all of `bin`, its file name,
/// or a path ending in `/<file name>`.
pub open spec fn arg_names_bin(arg: Seq<u8>, bin: Seq<char>) -> bool {
    let t = utf8_lossy(arg);
    &&& arg.len() > 0
    &&& (t == bin || t == bin_name(bin) || ends_with(t, seq!['/'] + bin_name(bin)))
}

/// Split bytes at every `sep`, `cur` being the part already read.
pub open spec fn split_bytes_from(s: Seq<u8>, sep: u8, cur: Seq<u8>) -> Seq<Seq<u8>>
    decreases s.len(),
{
    if s.len() == 0 {
        seq![cur]
    } else if s[0] == sep {
        seq![cur] + split_bytes_from(s.drop_first(), sep, Seq::empty())
    } else {
        split_bytes_from(s.drop_first(), sep, cur.push(s[0]))
    }
}

/// A `/proc/<pid>/cmdline` names the binary: some argument does.
pub open spec fn cmdline_names(cmdline: Seq<u8>, bin: Seq<char>) -> bool {
    let parts = split_bytes_from(cmdline, 0, Seq::empty());
    cmdline.len() > 0 && exists|k: int| 0 <= k < parts.len() && arg_names_bin(#[trigger] parts[k], bin)
}

/// Components of a path, as a vector.
#[verifier::loop_isolation(false)]
fn components_of(p: &[char]) -> (r: Vec<Vec<char>>)
    ensures
        crate::text::views(r@) == components(p@),
{
    let parts = split_chars(p, '/');
    let ghost ps = split(p@, '/');
    let ghost pred = |c: Seq<char>| c.len() > 0 && c != "."@;
    let mut out: Vec<Vec<char>> = Vec::new();
    let mut i: usize = 0;
    let dot = to_chars(".");
    proof {
        reveal_strlit(".");
    }
    while i < parts.len()
        invariant
            parts@.len() == ps.len(),
            forall|k: int| 0 <= k < parts@.len() ==> #[trigger] parts@[k]@ == ps[k],
            i <= parts@.len(),
            dot@ == "."@,
            crate::text::views(out@) == ps.take(i as int).filter(pred),
        decreases parts@.len() - i,
    {
        let c = &parts[i];
        assert(ps.take(i + 1).drop_last() =~= ps.take(i as int));
        proof {
            reveal_with_fuel(Seq::<_>::filter, 1);
        }
        let ghost before = crate::text::views(out@);
        assert(ps.take(i + 1).last() == ps[i as int]);
        assert(ps.take(i + 1).len() > 0);
        assert(ps.take(i + 1).filter(pred) == if pred(ps[i as int]) {
            ps.take(i as int).filter(pred).push(ps[i as int])
        } else {
            ps.take(i as int).filter(pred)
        });
        if c.len() > 0 && !crate::text::chars_eq(c, &dot) {
            let copy = crate::text::sub_vec(c, 0, c.len());
            assert(copy@ =~= ps[i as int]);
            assert(pred(ps[i as int]));
            let ghost old_out = out@;
            out.push(copy);
            assert(out@ == old_out.push(copy));
            assert forall|k: int| 0 <= k < out@.len() implies #[trigger] crate::text::views(out@)[k]
                == before.push(ps[i as int])[k] by {
                if k < old_out.len() {
                    assert(out@[k] == old_out[k]);
                }
            }
            assert(crate::text::views(out@) =~= before.push(ps[i as int]));
        } else {
            assert(c@ == ps[i as int]);
            assert(!pred(ps[i as int]));
            assert(crate::text::views(out@) =~= before);
        }
        i = i + 1;
    }
    assert(ps.take(parts@.len() as int) =~= ps);
    out
}

/// `Path::file_name(bin)`, else `bin`.
fn bin_name_of(bin: &[char]) -> (r: Vec<char>)
    ensures
        r@ == bin_name(bin@),
{
    let cs = components_of(bin);
    let ghost cv = crate::text::views(cs@);
    if cs.len() == 0 {
        return crate::text::sub_vec(bin, 0, bin.len());
    }
    let last = &cs[cs.len() - 1];
    assert(cv.last() == last@);
    let dd = to_chars("..");
    proof {
        reveal_strlit("..");
    }
    if crate::text::chars_eq(last, &dd) {
        return crate::text::sub_vec(bin, 0, bin.len());
    }
    crate::text::sub_vec(last, 0, last.len())
}

/// `t` ends with `s`.
fn ends_with_chars(t: &[char], s: &[char]) -> (r: bool)
    ensures
        r == ends_with(t@, s@),
{
    let n = t.len();
    let m = s.len();
    if m > n {
        return false;
    }
    let tail = crate::text::sub_vec(t, n - m, n);
    crate::text::chars_eq(&tail, s)
}

/// One argument names the binary (see [`arg_names_bin`]).
fn arg_ok(arg: &[u8], bv: &Vec<char>, name: &Vec<char>, suffix: &Vec<char>, Ghost(bin): Ghost<Seq<char>>) -> (r: bool)
    requires
        name@ == bin_name(bin),
        suffix@ == seq!['/'] + bin_name(bin),
        bv@ == bin,
    ensures
        r == arg_names_bin(arg@, bin),
{
    if arg.len() == 0 {
        return false;
    }
    let text = lossy_text(arg);
    let tv = to_chars(text.as_str());
    crate::text::chars_eq(&tv, bv) || crate::text::chars_eq(&tv, name) || ends_with_chars(&tv, suffix)
}

/// True when `cmdline` (NUL-separated arguments) names the binary `bin`.
pub fn cmdline_matches(cmdline: &[u8], bin: &str) -> (r: bool)
    ensures
        r == cmdline_names(cmdline@, bin@),
{
    if cmdline.len() == 0 {
        return false;
    }
    let bv = to_chars(bin);
    let name = bin_name_of(&bv);
    let mut suffix: Vec<char> = Vec::new();
    suffix.push('/');
    let mut j: usize = 0;
    while j < name.len()
        invariant
            j <= name@.len(),
            suffix@ == seq!['/'] + name@.subrange(0, j as int),
        decreases name@.len() - j,
    {
        suffix.push(name[j]);
        j = j + 1;
        assert(suffix@ =~= seq!['/'] + name@.subrange(0, j as int));
    }
    assert(name@.subrange(0, name@.len() as int) =~= name@);
    let ghost all = split_bytes_from(cmdline@, 0, Seq::empty());
    let ghost done: Seq<Seq<u8>> = Seq::empty();
    let mut cur: Vec<u8> = Vec::new();
    let mut i: usize = 0;
    let n = cmdline.len();
    assert(cmdline@.subrange(0, n as int) =~= cmdline@);
    assert(done + split_bytes_from(cmdline@.subrange(0, n as int), 0, cur@) =~= all);
    while i < n
        invariant
            n == cmdline@.len(),
            n > 0,
            i <= n,
            all == split_bytes_from(cmdline@, 0, Seq::empty()),
            all == done + split_bytes_from(cmdline@.subrange(i as int, n as int), 0, cur@),
            forall|k: int| 0 <= k < done.len() ==> !arg_names_bin(#[trigger] done[k], bin@),
            name@ == bin_name(bin@),
            suffix@ == seq!['/'] + bin_name(bin@),
            bv@ == bin@,
        decreases n - i,
    {
        let ghost rest = cmdline@.subrange(i as int, n as int);
        assert(rest[0] == cmdline@[i as int]);
        assert(rest.drop_first() =~= cmdline@.subrange(i + 1, n as int));
        if cmdline[i] == 0 {
            if arg_ok(cur.as_slice(), &bv, &name, &suffix, Ghost(bin@)) {
                assert(all[done.len() as int] == cur@);
                assert(arg_names_bin(all[done.len() as int], bin@));
                return true;
            }
            proof {
                assert(all =~= done.push(cur@) + split_bytes_from(
                    cmdline@.subrange(i + 1, n as int),
                    0,
                    Seq::empty(),
                ));
                done = done.push(cur@);
            }
            cur = Vec::new();
            assert(cur@ =~= Seq::<u8>::empty());
        } else {
            cur.push(cmdline[i]);
        }
        i = i + 1;
    }
    assert(cmdline@.subrange(n as int, n as int).len() == 0);
    assert(all =~= done.push(cur@));
    if arg_ok(cur.as_slice(), &bv, &name, &suffix, Ghost(bin@)) {
        assert(all[done.len() as int] == cur@);
        assert(arg_names_bin(all[done.len() as int], bin@));
        return true;
    }
    assert forall|k: int| 0 <= k < all.len() implies !arg_names_bin(#[trigger] all[k], bin@) by {
        if k < done.len() {
            assert(all[k] == done[k]);
        }
    }
    false
}

/// The pidfile names a live process of `bin`: a pid was read from it and
/// that process's `/proc/<pid>/cmdline` (empty when unreadable) names `bin`.
pub fn is_alive(pid: Option<i32>, cmdline: &[u8], bin: &str) -> (r: bool)
    ensures
        r == (pid is Some && cmdline_names(cmdline@, bin@)),
{
    match pid {
        Some(_) => cmdline_matches(cmdline, bin),
        None => false,
    }
}

/// Stopping a pidfile-owned process: the pid to send SIGTERM to (then
/// SIGKILL if it still names `bin` after the grace period), or `None` when
/// there is nothing alive to stop. The pidfile is removed either way.
pub fn stop(pid: Option<i32>, alive: bool) -> (r: Option<i32>)
    ensures
        r == (if alive { pid } else { None::<i32> }),
{
    if alive {
        pid
    } else {
        None
    }
}

} // verus!
