//! Which file events concern the configuration: the watcher itself runs
//! outside the library.

use vstd::prelude::*;

use crate::text::{chars_eq, sub_vec, to_chars};

verus! {

/// The last `/`-separated component of a path.
pub open spec fn base_name(p: Seq<char>) -> Seq<char>
    decreases p.len(),
{
    if p.len() == 0 || p.last() == '/' {
        Seq::empty()
    } else {
        base_name(p.drop_last()).push(p.last())
    }
}

/// An event on `path` concerns the configuration when the path's last
/// component is exactly the configuration file's name (editor backups and
/// hidden temporaries beside it do not).
pub fn is_relevant_path(path: &str, config_name: &str) -> (r: bool)
    ensures
        r == (base_name(path@) == config_name@),
{
    let p = to_chars(path);
    let mut start: usize = p.len();
    assert(p@.subrange(0, p@.len() as int) =~= p@);
    assert(p@.subrange(p@.len() as int, p@.len() as int) =~= Seq::<char>::empty());
    while start > 0 && p[start - 1] != '/'
        invariant
            start <= p@.len(),
            base_name(p@) == base_name(p@.subrange(0, start as int)) + p@.subrange(
                start as int,
                p@.len() as int,
            ),
        decreases start,
    {
        let ghost q = p@.subrange(0, start as int);
        assert(q.drop_last() =~= p@.subrange(0, start - 1));
        assert(p@.subrange(start - 1, p@.len() as int) =~= seq![q.last()] + p@.subrange(
            start as int,
            p@.len() as int,
        ));
        start = start - 1;
    }
    assert(base_name(p@.subrange(0, start as int)) =~= Seq::<char>::empty());
    let base = sub_vec(&p, start, p.len());
    let name = to_chars(config_name);
    assert(base_name(p@) =~= base@);
    chars_eq(&base, &name)
}

} // verus!
