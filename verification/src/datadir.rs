//! Persistent data root: `DATA_DIR` (absolute) then `/data`.
//!
//! The environment is read by the caller; paths are plain text joined the way
//! `PathBuf::push` joins them on Unix.

use vstd::prelude::*;
use vstd::string::StringExecFns;

use crate::text::to_chars;

verus! {

/// Env var for the persistent data root.
pub const ENV_DATA_DIR: &'static str = "DATA_DIR";
/// Hub image default when `DATA_DIR` is unset.
pub const DEFAULT_ROOT: &'static str = "/data";

/// The data root for a `DATA_DIR` value: used when non-empty and absolute.
pub open spec fn data_root(env: Option<Seq<char>>) -> Seq<char> {
    match env {
        Some(v) => if v.len() > 0 && v[0] == '/' {
            v
        } else {
            "/data"@
        },
        None => "/data"@,
    }
}

/// `PathBuf::push` on Unix: an absolute part replaces the path; otherwise a
/// `/` separates the two unless the path is empty or already ends with one.
pub open spec fn join(base: Seq<char>, part: Seq<char>) -> Seq<char> {
    if part.len() > 0 && part[0] == '/' {
        part
    } else if base.len() > 0 && base.last() != '/' {
        base + seq!['/'] + part
    } else {
        base + part
    }
}

/// `base` with every part pushed in order.
pub open spec fn join_all(base: Seq<char>, parts: Seq<Seq<char>>) -> Seq<char>
    decreases parts.len(),
{
    if parts.len() == 0 {
        base
    } else {
        join_all(join(base, parts[0]), parts.drop_first())
    }
}

/// The persistent data directory for the value of `DATA_DIR` (if set).
pub fn root(data_dir_env: Option<&str>) -> (r: String)
    ensures
        r@ == data_root(
            match data_dir_env {
                Some(v) => Some(v@),
                None => None,
            },
        ),
{
    match data_dir_env {
        Some(v) => {
            let c = to_chars(v);
            if c.len() > 0 && c[0] == '/' {
                String::from_str(v)
            } else {
                proof {
                    reveal_strlit("/data");
                }
                String::from_str(DEFAULT_ROOT)
            }
        },
        None => {
            proof {
                reveal_strlit("/data");
            }
            String::from_str(DEFAULT_ROOT)
        },
    }
}

/// Push `part` onto `base` (see [`join`]).
pub fn join_path(base: &str, part: &str) -> (r: String)
    ensures
        r@ == join(base@, part@),
{
    let b = to_chars(base);
    let p = to_chars(part);
    if p.len() > 0 && p[0] == '/' {
        String::from_str(part)
    } else if b.len() > 0 && b[b.len() - 1] != '/' {
        let mut s = String::from_str(base);
        s.append("/");
        s.append(part);
        proof {
            reveal_strlit("/");
        }
        assert(s@ =~= base@ + seq!['/'] + part@);
        s
    } else {
        let mut s = String::from_str(base);
        s.append(part);
        s
    }
}

/// Join `parts` under `root`.
pub fn path(root: &str, parts: &Vec<String>) -> (r: String)
    ensures
        r@ == join_all(root@, parts@.map_values(|p: String| p@)),
{
    let ghost ps = parts@.map_values(|p: String| p@);
    let mut out = String::from_str(root);
    let mut i: usize = 0;
    assert(ps.skip(0) =~= ps);
    while i < parts.len()
        invariant
            ps == parts@.map_values(|p: String| p@),
            i <= parts@.len(),
            join_all(root@, ps) == join_all(out@, ps.skip(i as int)),
        decreases parts@.len() - i,
    {
        assert(ps.skip(i as int)[0] == parts@[i as int]@);
        assert(ps.skip(i as int).drop_first() =~= ps.skip(i + 1));
        out = join_path(out.as_str(), parts[i].as_str());
        i = i + 1;
    }
    assert(ps.skip(parts@.len() as int) =~= Seq::<Seq<char>>::empty());
    out
}

/// `root` with `a` then `b` pushed.
pub fn path2(root: &str, a: &str, b: &str) -> (r: String)
    ensures
        r@ == join_all(root@, seq![a@, b@]),
{
    let x = join_path(root, a);
    let y = join_path(x.as_str(), b);
    assert(seq![a@, b@].drop_first() =~= seq![b@]);
    assert(seq![b@].drop_first() =~= Seq::<Seq<char>>::empty());
    assert(join_all(x@, seq![b@]) == join_all(y@, Seq::<Seq<char>>::empty()));
    assert(join_all(root@, seq![a@, b@]) == join_all(x@, seq![b@]));
    y
}

} // verus!
