//! Sticky state: stacks previously detected (survive reboot under /data).

use vstd::prelude::*;
use vstd::string::StringExecFns;

use crate::text::{chars_eq, lemma_text_lt_total, lemma_text_lt_transitive, lemma_text_lt_irreflexive, text_less, text_lt, to_chars};

verus! {

/// Strictly increasing in string order (so also free of repeats).
pub open spec fn sorted_names(s: Seq<Seq<char>>) -> bool {
    forall|i: int, j: int| 0 <= i < j < s.len() ==> text_lt(#[trigger] s[i], #[trigger] s[j])
}

/// The texts of a list of strings.
pub open spec fn names_of(v: Seq<String>) -> Seq<Seq<char>> {
    v.map_values(|s: String| s@)
}

/// `a < b` in string order.
fn str_less(a: &str, b: &str) -> (r: bool)
    ensures
        r == text_lt(a@, b@),
{
    text_less(&to_chars(a), &to_chars(b))
}

/// The set of a sequence grown by one element.
proof fn lemma_push_to_set<A>(p: Seq<A>, x: A)
    ensures
        p.push(x).to_set() == p.to_set().insert(x),
{
    assert forall|y: A| #[trigger] p.push(x).to_set().contains(y) <==> p.to_set().insert(x).contains(y) by {
        if p.push(x).contains(y) {
            let k = choose|k: int| 0 <= k < p.len() + 1 && p.push(x)[k] == y;
            if k < p.len() {
                assert(p[k] == y);
            }
        }
        if p.contains(y) {
            let k = choose|k: int| 0 <= k < p.len() && p[k] == y;
            assert(p.push(x)[k] == y);
        }
        if y == x {
            assert(p.push(x)[p.len() as int] == x);
        }
    }
    assert(p.push(x).to_set() =~= p.to_set().insert(x));
}

/// Insert `name` into a sorted list of names, keeping it sorted (no change
/// when it is there already).
pub fn insert_sorted(v: &mut Vec<String>, name: &str)
    requires
        sorted_names(names_of(old(v)@)),
    ensures
        sorted_names(names_of(final(v)@)),
        names_of(final(v)@).to_set() == names_of(old(v)@).to_set().insert(name@),
        names_of(old(v)@).contains(name@) ==> names_of(final(v)@) == names_of(old(v)@),
{
    let n = to_chars(name);
    let ghost s = names_of(v@);
    let mut i: usize = 0;
    while i < v.len() && str_less(v[i].as_str(), name)
        invariant
            s == names_of(v@),
            n@ == name@,
            i <= v@.len(),
            forall|k: int| 0 <= k < i ==> text_lt(#[trigger] s[k], n@),
        decreases v@.len() - i,
    {
        assert(v@[i as int]@ == s[i as int]);
        i = i + 1;
    }
    if i < v.len() {
        assert(v@[i as int]@ == s[i as int]);
        assert(!text_lt(s[i as int], n@));
        let c = to_chars(v[i].as_str());
        assert(c@ == s[i as int]);
        if chars_eq(&c, &n) {
            assert(s.contains(name@));
            assert(s.to_set().insert(name@) =~= s.to_set());
            return;
        }
        proof {
            lemma_text_lt_total(s[i as int], n@);
        }
    }
    proof {
        if s.contains(name@) {
            let k = choose|k: int| 0 <= k < s.len() && s[k] == name@;
            if k < i {
                lemma_text_lt_irreflexive(n@);
            } else if k > i {
                lemma_text_lt_transitive(n@, s[i as int], s[k]);
                lemma_text_lt_irreflexive(n@);
            }
        }
    }
    let ghost before = v@;
    v.insert(i, String::from_str(name));
    let ghost t = names_of(v@);
    assert(t =~= s.insert(i as int, name@));
    assert forall|a: int, b: int| 0 <= a < b < t.len() implies text_lt(#[trigger] t[a], #[trigger] t[b]) by {
        if b < i {
            assert(t[a] == s[a] && t[b] == s[b]);
        } else if b == i {
            assert(t[a] == s[a]);
        } else if a == i {
            assert(t[b] == s[b - 1]);
            if b - 1 > i {
                lemma_text_lt_transitive(n@, s[i as int], s[b - 1]);
            }
        } else if a < i {
            assert(t[a] == s[a] && t[b] == s[b - 1]);
            if b - 1 >= i {
                lemma_text_lt_transitive(s[a], n@, s[i as int]);
                if b - 1 > i {
                    lemma_text_lt_transitive(s[a], s[i as int], s[b - 1]);
                }
            }
        } else {
            assert(t[a] == s[a - 1] && t[b] == s[b - 1]);
        }
    }
    assert(t.to_set() =~= s.to_set().insert(name@)) by {
        assert forall|x: Seq<char>| t.to_set().contains(x) <==> s.to_set().insert(name@).contains(x) by {
            if t.contains(x) {
                let k = choose|k: int| 0 <= k < t.len() && t[k] == x;
                if k < i {
                    assert(s[k] == x);
                } else if k > i {
                    assert(s[k - 1] == x);
                }
            }
            if s.contains(x) {
                let k = choose|k: int| 0 <= k < s.len() && s[k] == x;
                if k < i {
                    assert(t[k] == x);
                } else {
                    assert(t[k + 1] == x);
                }
            }
            if x == name@ {
                assert(t[i as int] == x);
            }
        }
    }
}

/// Stack names that previously gated DHCP on, in string order.
#[derive(Debug)]
pub struct StickyState {
    stacks: Vec<String>,
}

impl View for StickyState {
    type V = Seq<Seq<char>>;

    closed spec fn view(&self) -> Seq<Seq<char>> {
        names_of(self.stacks@)
    }
}

impl StickyState {
    #[verifier::type_invariant]
    closed spec fn sorted(self) -> bool {
        sorted_names(names_of(self.stacks@))
    }

    /// No stack remembered.
    pub fn new() -> (r: Self)
        ensures
            r@ == Seq::<Seq<char>>::empty(),
    {
        let r = StickyState { stacks: Vec::new() };
        assert(names_of(r.stacks@) =~= Seq::<Seq<char>>::empty());
        r
    }

    /// The state holding `names` (a set: order and repeats do not matter).
    pub fn from_names(names: &Vec<String>) -> (r: Self)
        ensures
            sorted_names(r@),
            r@.to_set() == names_of(names@).to_set(),
    {
        let mut v: Vec<String> = Vec::new();
        let mut i: usize = 0;
        assert(names_of(v@) =~= Seq::<Seq<char>>::empty());
        assert(names_of(names@).subrange(0, 0).to_set() =~= Set::<Seq<char>>::empty());
        assert(names_of(v@).to_set() =~= Set::<Seq<char>>::empty());
        while i < names.len()
            invariant
                i <= names@.len(),
                sorted_names(names_of(v@)),
                names_of(v@).to_set() == names_of(names@).subrange(0, i as int).to_set(),
            decreases names@.len() - i,
        {
            insert_sorted(&mut v, names[i].as_str());
            assert(names_of(names@).subrange(0, i + 1) =~= names_of(names@).subrange(0, i as int).push(names@[i as int]@));
            proof {
                lemma_push_to_set(names_of(names@).subrange(0, i as int), names@[i as int]@);
            }
            i = i + 1;
        }
        assert(names_of(names@).subrange(0, names@.len() as int) =~= names_of(names@));
        StickyState { stacks: v }
    }

    /// Where the state lives.
    pub fn path_default() -> (r: String)
        ensures
            r@ == "/data/etc/configure-dhcp.state"@,
    {
        String::from_str("/data/etc/configure-dhcp.state")
    }

    /// The names, in string order.
    pub fn stacks(&self) -> (r: Vec<String>)
        ensures
            names_of(r@) == self@,
            sorted_names(self@),
    {
        proof {
            use_type_invariant(self);
        }
        let mut out: Vec<String> = Vec::new();
        let mut i: usize = 0;
        while i < self.stacks.len()
            invariant
                i <= self.stacks@.len(),
                names_of(out@) == names_of(self.stacks@).subrange(0, i as int),
            decreases self.stacks@.len() - i,
        {
            let ghost prev = out@;
            let c = self.stacks[i].clone();
            assert(c@ == names_of(self.stacks@)[i as int]);
            out.push(c);
            assert(names_of(out@) =~= names_of(prev).push(c@));
            assert(names_of(self.stacks@).subrange(0, i + 1) =~= names_of(self.stacks@).subrange(0, i as int).push(c@));
            i = i + 1;
        }
        assert(names_of(self.stacks@).subrange(0, i as int) =~= names_of(self.stacks@));
        out
    }

    /// Some stack was remembered.
    pub fn has_any(&self) -> (r: bool)
        ensures
            r == (self@.len() > 0),
    {
        self.stacks.len() > 0
    }

    /// `name` was remembered.
    pub fn contains(&self, name: &str) -> (r: bool)
        ensures
            r == self@.contains(name@),
    {
        let n = to_chars(name);
        let mut i: usize = 0;
        while i < self.stacks.len()
            invariant
                i <= self.stacks@.len(),
                n@ == name@,
                forall|k: int| 0 <= k < i ==> #[trigger] names_of(self.stacks@)[k] != name@,
            decreases self.stacks@.len() - i,
        {
            let c = to_chars(self.stacks[i].as_str());
            if chars_eq(&c, &n) {
                assert(names_of(self.stacks@)[i as int] == name@);
                return true;
            }
            i = i + 1;
        }
        false
    }

    /// Remember a stack that gated DHCP on.
    pub fn remember(&mut self, stack_name: &str)
        ensures
            final(self)@.to_set() == old(self)@.to_set().insert(stack_name@),
            sorted_names(final(self)@),
            old(self)@.contains(stack_name@) ==> final(self)@ == old(self)@,
    {
        proof {
            use_type_invariant(&*self);
        }
        let mut v: Vec<String> = Vec::new();
        std::mem::swap(&mut v, &mut self.stacks);
        insert_sorted(&mut v, stack_name);
        self.stacks = v;
    }
}

impl Default for StickyState {
    fn default() -> (r: Self)
        ensures
            r@ == Seq::<Seq<char>>::empty(),
    {
        StickyState::new()
    }
}

/// Two sorted name lists holding the same names are the same list: a
/// sticky state is determined by the set of names it holds.
pub proof fn lemma_sorted_names_unique(a: Seq<Seq<char>>, b: Seq<Seq<char>>)
    requires
        sorted_names(a),
        sorted_names(b),
        a.to_set() == b.to_set(),
    ensures
        a == b,
    decreases a.len(),
{
    if a.len() == 0 {
        if b.len() > 0 {
            assert(b.to_set().contains(b[0]));
            assert(!a.to_set().contains(b[0]));
        }
        assert(a =~= b);
        return;
    }
    assert(a.to_set().contains(a[0]));
    assert(b.to_set().contains(a[0]));
    let j = choose|j: int| 0 <= j < b.len() && b[j] == a[0];
    assert(b.to_set().contains(b[0]));
    assert(a.to_set().contains(b[0]));
    let i = choose|i: int| 0 <= i < a.len() && a[i] == b[0];
    if j > 0 {
        assert(text_lt(b[0], b[j]));
        if i > 0 {
            assert(text_lt(a[0], a[i]));
            lemma_text_lt_transitive(a[0], b[0], a[0]);
        }
        lemma_text_lt_irreflexive(a[0]);
    }
    assert(a[0] == b[0]);
    let a2 = a.drop_first();
    let b2 = b.drop_first();
    assert(sorted_names(a2)) by {
        assert forall|x: int, y: int| 0 <= x < y < a2.len() implies text_lt(#[trigger] a2[x], #[trigger] a2[y]) by {
            assert(a2[x] == a[x + 1] && a2[y] == a[y + 1]);
        }
    }
    assert(sorted_names(b2)) by {
        assert forall|x: int, y: int| 0 <= x < y < b2.len() implies text_lt(#[trigger] b2[x], #[trigger] b2[y]) by {
            assert(b2[x] == b[x + 1] && b2[y] == b[y + 1]);
        }
    }
    assert(a2.to_set() =~= b2.to_set()) by {
        assert forall|n: Seq<char>| #[trigger] a2.to_set().contains(n) <==> b2.to_set().contains(n) by {
            if a2.contains(n) {
                let k = choose|k: int| 0 <= k < a2.len() && a2[k] == n;
                assert(a[k + 1] == n);
                assert(text_lt(a[0], n));
                assert(b.to_set().contains(n));
                let q = choose|q: int| 0 <= q < b.len() && b[q] == n;
                if q == 0 {
                    lemma_text_lt_irreflexive(n);
                }
                assert(b2[q - 1] == n);
            }
            if b2.contains(n) {
                let k = choose|k: int| 0 <= k < b2.len() && b2[k] == n;
                assert(b[k + 1] == n);
                assert(text_lt(b[0], n));
                assert(a.to_set().contains(n));
                let q = choose|q: int| 0 <= q < a.len() && a[q] == n;
                if q == 0 {
                    lemma_text_lt_irreflexive(n);
                }
                assert(a2[q - 1] == n);
            }
        }
    }
    lemma_sorted_names_unique(a2, b2);
    assert(a =~= seq![a[0]] + a2);
    assert(b =~= seq![b[0]] + b2);
}

/// Remembering two stacks in either order gives the same state: what
/// `remember` leaves is fixed by the set of names remembered.
pub proof fn lemma_remember_order_free(
    base: Seq<Seq<char>>,
    x: Seq<char>,
    y: Seq<char>,
    xy: Seq<Seq<char>>,
    yx: Seq<Seq<char>>,
)
    requires
        sorted_names(xy),
        sorted_names(yx),
        xy.to_set() == base.to_set().insert(x).insert(y),
        yx.to_set() == base.to_set().insert(y).insert(x),
    ensures
        xy == yx,
{
    assert(base.to_set().insert(x).insert(y) =~= base.to_set().insert(y).insert(x));
    lemma_sorted_names_unique(xy, yx);
}

} // verus!
