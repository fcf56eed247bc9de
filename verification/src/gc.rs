//! Garbage collection on the ESP: the paths still in use, and which of the paths found under
//! a directory are not.
use vstd::prelude::*;

use crate::paths::{names_of, path_names};
use crate::strmap::chars_eq;
use crate::text::str_chars;

verus! {

/// A path compared the way `Path`'s `==` compares: whether it is absolute, whether it starts
/// with a `.` component, and its other components (empty ones and inner `.` dropped).
pub open spec fn path_key(p: Seq<char>) -> (bool, bool, Seq<Seq<char>>) {
    let absolute = p.len() > 0 && p[0] == '/';
    let cur_dir = !absolute && p.len() > 0 && p[0] == '.' && (p.len() == 1 || p[1] == '/');
    (absolute, cur_dir, path_names(p))
}

/// Two paths are the same path.
pub open spec fn same_path(a: Seq<char>, b: Seq<char>) -> bool {
    path_key(a) == path_key(b)
}

/// The components of a path as a comparable value.
struct PathKey {
    absolute: bool,
    cur_dir: bool,
    names: Vec<Vec<char>>,
}

impl PathKey {
    spec fn view(&self) -> (bool, bool, Seq<Seq<char>>) {
        (self.absolute, self.cur_dir, self.names@.map_values(|v: Vec<char>| v@))
    }
}

fn path_key_of(p: &str) -> (r: PathKey)
    ensures
        r@ == path_key(p@),
{
    let c = str_chars(p);
    let absolute = c.len() > 0 && c[0] == '/';
    let cur_dir = !absolute && c.len() > 0 && c[0] == '.' && (c.len() == 1 || c[1] == '/');
    PathKey { absolute, cur_dir, names: names_of(&c) }
}

fn same_key(a: &PathKey, b: &PathKey) -> (r: bool)
    ensures
        r == (a@ == b@),
{
    if a.absolute != b.absolute || a.cur_dir != b.cur_dir || a.names.len() != b.names.len() {
        assert(a@.0 != b@.0 || a@.1 != b@.1 || a@.2.len() != b@.2.len());
        return false;
    }
    let ghost an = a.names@.map_values(|v: Vec<char>| v@);
    let ghost bn = b.names@.map_values(|v: Vec<char>| v@);
    let mut i: usize = 0;
    while i < a.names.len()
        invariant
            0 <= i <= a.names@.len(),
            a.names@.len() == b.names@.len(),
            an == a.names@.map_values(|v: Vec<char>| v@),
            bn == b.names@.map_values(|v: Vec<char>| v@),
            forall|j: int| 0 <= j < i ==> an[j] == bn[j],
        decreases a.names@.len() - i,
    {
        if !chars_eq(&a.names[i], &b.names[i]) {
            assert(an[i as int] != bn[i as int]);
            return false;
        }
        i = i + 1;
    }
    assert(an =~= bn);
    true
}

/// Whether two paths are the same path, component by component.
pub fn paths_equal(a: &str, b: &str) -> (r: bool)
    ensures
        r == same_path(a@, b@),
{
    same_key(&path_key_of(a), &path_key_of(b))
}

/// The garbage collection roots: every path still in use, each directory on the way to a
/// file included.
#[derive(Debug)]
pub struct Roots {
    paths: Vec<String>,
}

/// The path is the same as one of the roots.
pub open spec fn in_roots(roots: Set<Seq<char>>, p: Seq<char>) -> bool {
    exists|q: Seq<char>| #[trigger] roots.contains(q) && same_path(q, p)
}

impl Roots {
    /// The root paths.
    pub closed spec fn view(&self) -> Set<Seq<char>> {
        self.paths@.map_values(|s: String| s@).to_set()
    }

    /// No roots.
    pub fn new() -> (r: Self)
        ensures
            r@ == Set::<Seq<char>>::empty(),
    {
        let r = Roots { paths: Vec::new() };
        assert(r@ =~= Set::<Seq<char>>::empty());
        r
    }

    /// Adds paths to the roots.
    ///
    /// Not only files but also every directory that holds them has to be added: for
    /// `rootdir/example/file.txt`, all of `rootdir`, `rootdir/example` and
    /// `rootdir/example/file.txt`.
    pub fn extend(&mut self, other: &Vec<String>)
        ensures
            final(self)@ == old(self)@ + other@.map_values(|s: String| s@).to_set(),
    {
        let ghost r0 = self.paths@.map_values(|s: String| s@);
        let ghost o = other@.map_values(|s: String| s@);
        let mut i: usize = 0;
        while i < other.len()
            invariant
                0 <= i <= other@.len(),
                o == other@.map_values(|s: String| s@),
                self.paths@.map_values(|s: String| s@) == r0 + o.take(i as int),
            decreases other@.len() - i,
        {
            let ghost before = self.paths@;
            self.paths.push(other[i].clone());
            assert(self.paths@.map_values(|s: String| s@) =~= before.map_values(|s: String| s@).push(o[i as int]));
            assert(o.take(i + 1) =~= o.take(i as int).push(o[i as int]));
            i = i + 1;
        }
        assert(o.take(i as int) =~= o);
        assert((r0 + o).to_set() =~= r0.to_set() + o.to_set()) by {
            assert forall|x: Seq<char>| (r0 + o).to_set().contains(x) <==> (r0.to_set() + o.to_set()).contains(x) by {
                if (r0 + o).contains(x) {
                    let k = choose|k: int| 0 <= k < (r0 + o).len() && (r0 + o)[k] == x;
                    if k < r0.len() {
                        assert(r0[k] == x);
                    } else {
                        assert(o[k - r0.len()] == x);
                    }
                }
                if r0.contains(x) {
                    let k = choose|k: int| 0 <= k < r0.len() && r0[k] == x;
                    assert((r0 + o)[k] == x);
                }
                if o.contains(x) {
                    let k = choose|k: int| 0 <= k < o.len() && o[k] == x;
                    assert((r0 + o)[r0.len() + k] == x);
                }
            }
        }
    }

    /// Whether a path is one of the roots, compared component by component.
    pub fn in_use(&self, path: &str) -> (r: bool)
        ensures
            r == in_roots(self@, path@),
    {
        let ghost ps = self.paths@.map_values(|s: String| s@);
        let mut i: usize = 0;
        while i < self.paths.len()
            invariant
                0 <= i <= self.paths@.len(),
                ps == self.paths@.map_values(|s: String| s@),
                forall|j: int| 0 <= j < i ==> !same_path(#[trigger] ps[j], path@),
            decreases self.paths@.len() - i,
        {
            if paths_equal(self.paths[i].as_str(), path) {
                assert(ps[i as int] == self.paths@[i as int]@);
                assert(ps.to_set().contains(ps[i as int]));
                return true;
            }
            i = i + 1;
        }
        assert forall|q: Seq<char>| #[trigger] self@.contains(q) implies !same_path(q, path@) by {
            let k = choose|k: int| 0 <= k < ps.len() && ps[k] == q;
            assert(!same_path(ps[k], path@));
        }
        false
    }

    /// The paths found under a directory (in the order of the walk) that are garbage: those
    /// that are not roots.
    pub fn collect_garbage(&self, entries: &Vec<String>) -> (r: Vec<String>)
        ensures
            r@.map_values(|s: String| s@) == garbage(self@, entries@.map_values(|s: String| s@), Seq::new(entries@.len(), |i: int| true)),
    {
        let all: Vec<bool> = all_considered(entries.len());
        self.collect_garbage_with_filter(entries, &all)
    }

    /// The paths found under a directory (in the order of the walk) that are garbage: those
    /// that are not roots and for which the filter holds (`considered`, one flag per path).
    pub fn collect_garbage_with_filter(&self, entries: &Vec<String>, considered: &Vec<bool>) -> (r: Vec<String>)
        requires
            considered@.len() == entries@.len(),
        ensures
            r@.map_values(|s: String| s@) == garbage(self@, entries@.map_values(|s: String| s@), considered@),
    {
        let ghost es = entries@.map_values(|s: String| s@);
        let mut r: Vec<String> = Vec::new();
        let mut i: usize = 0;
        while i < entries.len()
            invariant
                0 <= i <= entries@.len(),
                considered@.len() == entries@.len(),
                es == entries@.map_values(|s: String| s@),
                r@.map_values(|s: String| s@) == garbage(self@, es.take(i as int), considered@.take(i as int)),
            decreases entries@.len() - i,
        {
            assert(es.take(i + 1).drop_last() =~= es.take(i as int));
            assert(considered@.take(i + 1).drop_last() =~= considered@.take(i as int));
            let ghost before = r@;
            if !self.in_use(entries[i].as_str()) && considered[i] {
                r.push(entries[i].clone());
                assert(r@.map_values(|s: String| s@) =~= before.map_values(|s: String| s@).push(es[i as int]));
            }
            i = i + 1;
        }
        assert(es.take(i as int) =~= es);
        assert(considered@.take(i as int) =~= considered@);
        r
    }
}

/// The paths, in order, that are not roots and are considered.
pub open spec fn garbage(roots: Set<Seq<char>>, entries: Seq<Seq<char>>, considered: Seq<bool>) -> Seq<Seq<char>>
    decreases entries.len(),
{
    if entries.len() == 0 {
        Seq::empty()
    } else {
        let rest = garbage(roots, entries.drop_last(), considered.drop_last());
        if !in_roots(roots, entries.last()) && considered.last() {
            rest.push(entries.last())
        } else {
            rest
        }
    }
}

fn all_considered(n: usize) -> (r: Vec<bool>)
    ensures
        r@ == Seq::new(n as nat, |i: int| true),
{
    let mut r: Vec<bool> = Vec::new();
    let mut i: usize = 0;
    while i < n
        invariant
            i <= n,
            r@ == Seq::new(i as nat, |k: int| true),
        decreases n - i,
    {
        r.push(true);
        i = i + 1;
        assert(r@ =~= Seq::new(i as nat, |k: int| true));
    }
    r
}

/// Garbage collection never collects a path that is one of the roots, nor a path that was
/// not found, nor one that the filter leaves out; and it collects every other path found.
pub proof fn law_garbage_is_exactly_unused(
    roots: Set<Seq<char>>,
    entries: Seq<Seq<char>>,
    considered: Seq<bool>,
    p: Seq<char>,
)
    requires
        considered.len() == entries.len(),
    ensures
        garbage(roots, entries, considered).contains(p) <==> (!in_roots(roots, p) && exists|i: int|
            0 <= i < entries.len() && entries[i] == p && #[trigger] considered[i]),
    decreases entries.len(),
{
    if entries.len() > 0 {
        let es = entries.drop_last();
        let cs = considered.drop_last();
        law_garbage_is_exactly_unused(roots, es, cs, p);
        let rest = garbage(roots, es, cs);
        let g = garbage(roots, entries, considered);
        if g.contains(p) {
            if rest.contains(p) {
                let i = choose|i: int| 0 <= i < es.len() && es[i] == p && #[trigger] cs[i];
                assert(entries[i] == p && considered[i]);
            } else {
                let k = choose|k: int| 0 <= k < g.len() && g[k] == p;
                if g != rest {
                    assert(g == rest.push(entries.last()));
                    if k < rest.len() {
                        assert(rest[k] == p);
                    }
                }
                assert(entries[entries.len() - 1] == p && considered[entries.len() - 1]);
            }
        }
        if !in_roots(roots, p) && exists|i: int| 0 <= i < entries.len() && entries[i] == p && #[trigger] considered[i] {
            let i = choose|i: int| 0 <= i < entries.len() && entries[i] == p && #[trigger] considered[i];
            if i < entries.len() - 1 {
                assert(es[i] == p && cs[i]);
                let k = choose|k: int| 0 <= k < rest.len() && rest[k] == p;
                if g != rest {
                    assert(g[k] == p);
                }
            } else {
                assert(g == rest.push(entries.last()));
                assert(g[rest.len() as int] == p);
            }
        }
    }
}

} // verus!
