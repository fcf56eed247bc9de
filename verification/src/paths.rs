//! Unix path handling on strings: splitting into components, the final component and that of
//! the parent, joining, and the UEFI spelling of a path.
use vstd::prelude::*;

use crate::gc::path_key;
use crate::text::{chars_to_string, str_chars};

verus! {

/// The pieces of `s` between the occurrences of `sep` (always at least one piece).
pub open spec fn split_on(s: Seq<char>, sep: char) -> Seq<Seq<char>>
    decreases s.len(),
{
    if s.len() == 0 {
        seq![Seq::empty()]
    } else {
        let rest = split_on(s.drop_last(), sep);
        if s.last() == sep {
            rest.push(Seq::empty())
        } else {
            rest.update(rest.len() - 1, rest.last().push(s.last()))
        }
    }
}

pub open spec fn is_dot(s: Seq<char>) -> bool {
    s.len() == 1 && s[0] == '.'
}

pub open spec fn is_dot_dot(s: Seq<char>) -> bool {
    s.len() == 2 && s[0] == '.' && s[1] == '.'
}

/// The pieces that name something: neither empty nor `.`.
pub open spec fn named(segs: Seq<Seq<char>>) -> Seq<Seq<char>>
    decreases segs.len(),
{
    if segs.len() == 0 {
        Seq::empty()
    } else {
        let rest = named(segs.drop_last());
        if segs.last().len() == 0 || is_dot(segs.last()) {
            rest
        } else {
            rest.push(segs.last())
        }
    }
}

/// The components of a Unix path other than the root and `.`: normal names and `..`.
pub open spec fn path_names(p: Seq<char>) -> Seq<Seq<char>> {
    named(split_on(p, '/'))
}

/// `Path::file_name`: the final component, unless it is `..` or there is none.
pub open spec fn spec_file_name(p: Seq<char>) -> Option<Seq<char>> {
    let ns = path_names(p);
    if ns.len() == 0 || is_dot_dot(ns.last()) {
        None
    } else {
        Some(ns.last())
    }
}

/// `Path::parent` followed by `Path::file_name`.
pub open spec fn spec_parent_file_name(p: Seq<char>) -> Option<Seq<char>> {
    let ns = path_names(p);
    if ns.len() < 2 || is_dot_dot(ns[ns.len() - 2]) {
        None
    } else {
        Some(ns[ns.len() - 2])
    }
}

/// `Path::join`: an absolute `p` replaces `base`; otherwise a separator is put in between
/// unless `base` is empty or already ends with one.
pub open spec fn spec_join(base: Seq<char>, p: Seq<char>) -> Seq<char> {
    if p.len() > 0 && p[0] == '/' {
        p
    } else if base.len() > 0 && base.last() != '/' {
        base + seq!['/'] + p
    } else {
        base + p
    }
}

/// Every `/` replaced by a backslash.
pub open spec fn backslashed(p: Seq<char>) -> Seq<char> {
    p.map_values(|c: char| if c == '/' { '\\' } else { c })
}

/// The result of `Path::strip_prefix` on two paths, taken as strings.
pub uninterp spec fn path_strip_prefix(path: Seq<char>, base: Seq<char>) -> Option<Seq<char>>;

/// Splits `s` at every `sep`.
pub fn split_chars(s: &Vec<char>, sep: char) -> (r: Vec<Vec<char>>)
    ensures
        r@.map_values(|v: Vec<char>| v@) == split_on(s@, sep),
        r@.len() > 0,
{
    let mut done: Vec<Vec<char>> = Vec::new();
    let mut cur: Vec<char> = Vec::new();
    let mut i: usize = 0;
    assert(s@.take(0) =~= Seq::<char>::empty());
    assert(done@.map_values(|v: Vec<char>| v@).push(cur@) =~= split_on(s@.take(0), sep));
    while i < s.len()
        invariant
            0 <= i <= s@.len(),
            done@.map_values(|v: Vec<char>| v@).push(cur@) == split_on(s@.take(i as int), sep),
        decreases s@.len() - i,
    {
        let c = s[i];
        let ghost prev = split_on(s@.take(i as int), sep);
        assert(s@.take(i + 1).drop_last() =~= s@.take(i as int));
        if c == sep {
            let finished = cur;
            done.push(finished);
            cur = Vec::new();
            assert(done@.map_values(|v: Vec<char>| v@).push(cur@) =~= prev.push(
                Seq::<char>::empty(),
            ));
        } else {
            cur.push(c);
            assert(done@.map_values(|v: Vec<char>| v@).push(cur@) =~= prev.update(
                prev.len() - 1,
                prev.last().push(c),
            ));
        }
        i = i + 1;
    }
    assert(s@.take(i as int) =~= s@);
    let ghost before = done@.map_values(|v: Vec<char>| v@);
    done.push(cur);
    assert(done@.map_values(|v: Vec<char>| v@) =~= before.push(cur@));
    done
}

/// The components of a path that name something (neither empty nor `.`).
pub fn names_of(p: &Vec<char>) -> (r: Vec<Vec<char>>)
    ensures
        r@.map_values(|v: Vec<char>| v@) == path_names(p@),
{
    let segs = split_chars(p, '/');
    let ghost ss = segs@.map_values(|v: Vec<char>| v@);
    let mut r: Vec<Vec<char>> = Vec::new();
    let mut i: usize = 0;
    assert(ss.take(0) =~= Seq::<Seq<char>>::empty());
    assert(r@.map_values(|v: Vec<char>| v@) =~= named(ss.take(0)));
    while i < segs.len()
        invariant
            0 <= i <= segs@.len(),
            ss == segs@.map_values(|v: Vec<char>| v@),
            r@.map_values(|v: Vec<char>| v@) == named(ss.take(i as int)),
        decreases segs@.len() - i,
    {
        assert(ss.take(i + 1).drop_last() =~= ss.take(i as int));
        let ghost prev = r@.map_values(|v: Vec<char>| v@);
        let seg = &segs[i];
        if !(seg.len() == 0 || (seg.len() == 1 && seg[0] == '.')) {
            r.push(copy_chars(seg));
            assert(r@.map_values(|v: Vec<char>| v@) =~= prev.push(ss[i as int]));
        }
        i = i + 1;
    }
    assert(ss.take(i as int) =~= ss);
    r
}

/// A copy of a character vector.
pub fn copy_chars(v: &Vec<char>) -> (r: Vec<char>)
    ensures
        r@ == v@,
{
    let mut r: Vec<char> = Vec::new();
    let mut i: usize = 0;
    while i < v.len()
        invariant
            0 <= i <= v@.len(),
            r@ == v@.take(i as int),
        decreases v@.len() - i,
    {
        r.push(v[i]);
        i = i + 1;
        assert(r@ =~= v@.take(i as int));
    }
    assert(v@.take(i as int) =~= v@);
    r
}

fn is_dot_dot_chars(v: &Vec<char>) -> (r: bool)
    ensures
        r == is_dot_dot(v@),
{
    v.len() == 2 && v[0] == '.' && v[1] == '.'
}

/// `Path::file_name` of a path given as a string.
pub fn file_name(path: &str) -> (r: Option<String>)
    ensures
        r matches Some(s) ==> spec_file_name(path@) == Some(s@),
        r is None ==> spec_file_name(path@) is None,
{
    let pc = str_chars(path);
    let ns = names_of(&pc);
    let ghost nv = ns@.map_values(|v: Vec<char>| v@);
    if ns.len() == 0 {
        return None;
    }
    let last = &ns[ns.len() - 1];
    assert(last@ == nv.last());
    if is_dot_dot_chars(last) {
        None
    } else {
        Some(chars_to_string(last))
    }
}

/// The file name of the parent of a path (`Path::parent` then `Path::file_name`).
pub fn parent_file_name(path: &str) -> (r: Option<String>)
    ensures
        r matches Some(s) ==> spec_parent_file_name(path@) == Some(s@),
        r is None ==> spec_parent_file_name(path@) is None,
{
    let pc = str_chars(path);
    let ns = names_of(&pc);
    let ghost nv = ns@.map_values(|v: Vec<char>| v@);
    if ns.len() < 2 {
        return None;
    }
    let q = &ns[ns.len() - 2];
    assert(q@ == nv[nv.len() - 2]);
    if is_dot_dot_chars(q) {
        None
    } else {
        Some(chars_to_string(q))
    }
}

/// `Path::join` on paths given as character vectors.
pub fn join_chars(base: &Vec<char>, p: &Vec<char>) -> (r: Vec<char>)
    ensures
        r@ == spec_join(base@, p@),
{
    if p.len() > 0 && p[0] == '/' {
        return copy_chars(p);
    }
    let mut r = copy_chars(base);
    if base.len() > 0 && base[base.len() - 1] != '/' {
        r.push('/');
    }
    let mut i: usize = 0;
    let ghost start = r@;
    while i < p.len()
        invariant
            0 <= i <= p@.len(),
            r@ == start + p@.take(i as int),
        decreases p@.len() - i,
    {
        r.push(p[i]);
        i = i + 1;
        assert(r@ =~= start + p@.take(i as int));
    }
    assert(p@.take(i as int) =~= p@);
    r
}

/// `Path::join` on paths given as strings.
pub fn join(base: &str, p: &str) -> (r: String)
    ensures
        r@ == spec_join(base@, p@),
{
    let bc = str_chars(base);
    let pc = str_chars(p);
    chars_to_string(&join_chars(&bc, &pc))
}

/// The path with every `/` replaced by a backslash.
pub fn backslash_chars(p: &Vec<char>) -> (r: Vec<char>)
    ensures
        r@ == backslashed(p@),
{
    let mut r: Vec<char> = Vec::new();
    let mut i: usize = 0;
    while i < p.len()
        invariant
            0 <= i <= p@.len(),
            r@ == backslashed(p@.take(i as int)),
        decreases p@.len() - i,
    {
        let c = p[i];
        r.push(if c == '/' { '\\' } else { c });
        i = i + 1;
        assert(r@ =~= backslashed(p@.take(i as int)));
    }
    assert(p@.take(i as int) =~= p@);
    r
}

/// Whether the components of `base` are the first components of `path`, as `Path::starts_with`
/// compares: a root, a leading `.`, then the names.
pub open spec fn components_prefix(base: Seq<char>, path: Seq<char>) -> bool {
    let kb = path_key(base);
    let kp = path_key(path);
    ||| !kb.0 && !kb.1 && kb.2.len() == 0
    ||| kb.0 == kp.0 && kb.1 == kp.1 && kb.2.len() <= kp.2.len() && kp.2.take(kb.2.len() as int) == kb.2
}

/// `Path::strip_prefix` on paths given as strings.
///
/// Trusted: calls std's `Path::strip_prefix`, which fails exactly where `base` is not a prefix
/// of `path` component by component (`Path::starts_with`) and otherwise gives the path that,
/// joined onto `base`, yields `path`: its names are those of `path` after the names of `base`.
/// The contract states that and names the remaining path, whose separators (doubled or
/// trailing ones, `.` components) it leaves unsaid.
#[verifier::external_body]
pub(crate) fn strip_path_prefix(path: &str, base: &str) -> (r: Option<String>)
    ensures
        r matches Some(s) ==> path_strip_prefix(path@, base@) == Some(s@),
        r is None ==> path_strip_prefix(path@, base@) is None,
        r is Some <==> components_prefix(base@, path@),
        r matches Some(s) ==> path_names(s@) == path_names(path@).skip(path_names(base@).len() as int),
{
    std::path::Path::new(path).strip_prefix(base).ok().and_then(|p| p.to_str()).map(
        |s| s.to_string(),
    )
}

/// A single path component: not empty, without `/`, and not `.`.
pub open spec fn is_component(n: Seq<char>) -> bool {
    n.len() > 0 && !is_dot(n) && forall|i: int| 0 <= i < n.len() ==> n[i] != '/'
}

/// Splitting `s`, a separator and then `n` without separators gives the pieces of `s` and `n`.
pub proof fn lemma_split_on_append(s: Seq<char>, sep: char, n: Seq<char>)
    requires
        forall|i: int| 0 <= i < n.len() ==> n[i] != sep,
    ensures
        split_on(s + seq![sep] + n, sep) == split_on(s, sep).push(n),
    decreases n.len(),
{
    let full = s + seq![sep] + n;
    if n.len() == 0 {
        assert(full.drop_last() =~= s);
        assert(n =~= Seq::<char>::empty());
        assert(full.last() == sep);
    } else {
        let m = n.drop_last();
        lemma_split_on_append(s, sep, m);
        assert(full.drop_last() =~= s + seq![sep] + m);
        assert(full.last() == n.last());
        assert(m.push(n.last()) =~= n);
        let segs = split_on(s, sep);
        let rest = segs.push(m);
        assert(rest.update(rest.len() - 1, rest.last().push(full.last())) =~= segs.push(n));
    }
}

/// Appending a component to a path appends it to the path's names.
pub proof fn lemma_path_names_append(d: Seq<char>, n: Seq<char>)
    requires
        is_component(n),
    ensures
        path_names(d + seq!['/'] + n) == path_names(d).push(n),
{
    lemma_split_on_append(d, '/', n);
    let segs = split_on(d, '/');
    assert(segs.push(n).drop_last() =~= segs);
}

} // verus!
