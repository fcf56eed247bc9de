//! Reading back what was written: the parser gives the pairs of a rendered os-release file
//! again, where its keys and values need no quoting.
use vstd::prelude::*;

use crate::os_release::{
    initial_scan, is_blank, is_comment_start, is_newline, is_unicode_whitespace, parse_os_release,
    render, render_line, scan_from, step, trim_end, OsRelease, ParseState, Scan,
};
use crate::strmap::lemma_lex_irreflexive;

verus! {

/// A key that is read back as written: not empty, not starting with a blank or a comment
/// sign, without `=` or a line break, and without trailing whitespace.
pub open spec fn plain_key(k: Seq<char>) -> bool {
    &&& k.len() > 0
    &&& !is_blank(k[0]) && !is_comment_start(k[0])
    &&& forall|i: int| 0 <= i < k.len() ==> #[trigger] k[i] != '=' && !is_newline(k[i])
    &&& !is_unicode_whitespace(k.last())
}

/// A value that is read back as written: without a line break or a backslash and, where it is
/// not empty, not starting with a blank or a quote and without trailing whitespace.
pub open spec fn plain_value(v: Seq<char>) -> bool {
    &&& forall|i: int| 0 <= i < v.len() ==> !is_newline(#[trigger] v[i]) && v[i] != '\\'
    &&& v.len() > 0 ==> {
        &&& !is_blank(v[0]) && v[0] != '\'' && v[0] != '"'
        &&& !is_unicode_whitespace(v.last())
    }
}

/// The map that inserting the pairs in order gives.
pub open spec fn lines_map(e: Seq<(Seq<char>, Seq<char>)>) -> Map<Seq<char>, Seq<char>>
    decreases e.len(),
{
    if e.len() == 0 {
        Map::empty()
    } else {
        lines_map(e.drop_last()).insert(e.last().0, e.last().1)
    }
}

/// The parser between two lines, with the pairs read so far.
pub open spec fn between_lines(m: Map<Seq<char>, Seq<char>>) -> Scan {
    Scan { state: ParseState::PreKey, key: Seq::empty(), value: Seq::empty(), map: m }
}

proof fn lemma_scan_concat(sc: Scan, a: Seq<char>, b: Seq<char>)
    ensures
        scan_from(sc, a + b) == scan_from(scan_from(sc, a), b),
    decreases b.len(),
{
    if b.len() == 0 {
        assert(a + b =~= a);
    } else {
        lemma_scan_concat(sc, a, b.drop_last());
        assert((a + b).drop_last() =~= a + b.drop_last());
        assert((a + b).last() == b.last());
    }
}

proof fn lemma_scan_key(m: Map<Seq<char>, Seq<char>>, k: Seq<char>, n: int)
    requires
        plain_key(k),
        1 <= n <= k.len(),
    ensures
        scan_from(between_lines(m), k.take(n)) == (Scan {
            state: ParseState::Key,
            key: k.take(n),
            value: Seq::empty(),
            map: m,
        }),
    decreases n,
{
    let t = k.take(n);
    let sc = between_lines(m);
    assert(t.last() == k[n - 1]);
    assert(scan_from(sc, t) == step(scan_from(sc, t.drop_last()), t.last()));
    if n == 1 {
        assert(t.drop_last() =~= Seq::<char>::empty());
        assert(scan_from(sc, t.drop_last()) == sc);
        assert(k[0] != '=');
        assert(Seq::<char>::empty().push(k[0]) =~= t);
        assert(step(sc, k[0]) == (Scan { state: ParseState::Key, key: Seq::<char>::empty().push(k[0]), value: Seq::empty(), map: m }));
    } else {
        lemma_scan_key(m, k, n - 1);
        assert(t.drop_last() =~= k.take(n - 1));
        assert(k.take(n - 1).push(k[n - 1]) =~= t);
        assert(k[n - 1] != '=' && !is_newline(k[n - 1]));
    }
}

proof fn lemma_scan_value(m: Map<Seq<char>, Seq<char>>, k: Seq<char>, v: Seq<char>, n: int)
    requires
        plain_value(v),
        1 <= n <= v.len(),
    ensures
        scan_from(Scan { state: ParseState::PreValue, key: k, value: Seq::empty(), map: m }, v.take(n))
            == (Scan { state: ParseState::Value, key: k, value: v.take(n), map: m }),
    decreases n,
{
    let t = v.take(n);
    let sc = Scan { state: ParseState::PreValue, key: k, value: Seq::empty(), map: m };
    assert(t.last() == v[n - 1]);
    assert(!is_newline(v[n - 1]) && v[n - 1] != '\\');
    assert(scan_from(sc, t) == step(scan_from(sc, t.drop_last()), t.last()));
    if n == 1 {
        assert(t.drop_last() =~= Seq::<char>::empty());
        assert(scan_from(sc, t.drop_last()) == sc);
        assert(Seq::<char>::empty().push(v[0]) =~= t);
        assert(step(sc, v[0]) == (Scan { state: ParseState::Value, key: k, value: Seq::<char>::empty().push(v[0]), map: m }));
    } else {
        lemma_scan_value(m, k, v, n - 1);
        assert(t.drop_last() =~= v.take(n - 1));
        assert(v.take(n - 1).push(v[n - 1]) =~= t);
    }
}

proof fn lemma_scan_one(sc: Scan, c: char)
    ensures
        scan_from(sc, seq![c]) == step(sc, c),
{
    let s = seq![c];
    assert(s.drop_last() =~= Seq::<char>::empty());
    assert(s.last() == c);
    assert(scan_from(sc, s.drop_last()) == sc);
}

proof fn lemma_trim_end_plain(s: Seq<char>)
    requires
        s.len() > 0,
        !is_unicode_whitespace(s.last()),
    ensures
        trim_end(s) == s,
{
}

/// One rendered line is read as its pair.
proof fn lemma_scan_line(m: Map<Seq<char>, Seq<char>>, k: Seq<char>, v: Seq<char>)
    requires
        plain_key(k),
        plain_value(v),
    ensures
        scan_from(between_lines(m), render_line(k, v)) == between_lines(m.insert(k, v)),
{
    let sc = between_lines(m);
    lemma_scan_key(m, k, k.len() as int);
    assert(k.take(k.len() as int) =~= k);
    let after_key = Scan { state: ParseState::Key, key: k, value: Seq::empty(), map: m };
    let pre_value = Scan { state: ParseState::PreValue, key: k, value: Seq::empty(), map: m };
    // `k=`
    lemma_scan_concat(sc, k, seq!['=']);
    lemma_scan_one(after_key, '=');
    assert(scan_from(sc, k + seq!['=']) == pre_value);
    lemma_trim_end_plain(k);
    // `k=v`
    lemma_scan_concat(sc, k + seq!['='], v);
    let after_value = scan_from(pre_value, v);
    if v.len() == 0 {
        assert(after_value == pre_value);
        assert(v =~= Seq::<char>::empty());
    } else {
        lemma_scan_value(m, k, v, v.len() as int);
        assert(v.take(v.len() as int) =~= v);
        lemma_trim_end_plain(v);
        assert(after_value == (Scan { state: ParseState::Value, key: k, value: v, map: m }));
    }
    // `k=v\n`
    lemma_scan_concat(sc, k + seq!['='] + v, seq!['\n']);
    lemma_scan_one(after_value, '\n');
    assert(step(after_value, '\n').map =~= m.insert(k, v));
    assert(step(after_value, '\n') == between_lines(m.insert(k, v)));
    assert(render_line(k, v) =~= k + seq!['='] + v + seq!['\n']);
}

/// The rendered lines are read as their pairs, inserted in order.
proof fn lemma_scan_render(e: Seq<(Seq<char>, Seq<char>)>)
    requires
        forall|i: int| 0 <= i < e.len() ==> plain_key(#[trigger] e[i].0) && plain_value(e[i].1),
    ensures
        scan_from(initial_scan(), render(e)) == between_lines(lines_map(e)),
    decreases e.len(),
{
    if e.len() == 0 {
        assert(initial_scan() == between_lines(Map::empty()));
    } else {
        let p = e.drop_last();
        assert forall|i: int| 0 <= i < p.len() implies plain_key(#[trigger] p[i].0) && plain_value(p[i].1) by {
            assert(p[i] == e[i]);
        }
        lemma_scan_render(p);
        assert(e.last() == e[e.len() - 1]);
        lemma_scan_concat(initial_scan(), render(p), render_line(e.last().0, e.last().1));
        lemma_scan_line(lines_map(p), e.last().0, e.last().1);
    }
}

/// Pairs with distinct keys, inserted in order, give each key its pair's value.
proof fn lemma_lines_map(e: Seq<(Seq<char>, Seq<char>)>)
    requires
        forall|i: int, j: int| 0 <= i < j < e.len() ==> (#[trigger] e[i]).0 != (#[trigger] e[j]).0,
    ensures
        forall|k: Seq<char>| #[trigger] lines_map(e).dom().contains(k) <==> exists|i: int| 0 <= i < e.len() && e[i].0 == k,
        forall|i: int| 0 <= i < e.len() ==> lines_map(e)[(#[trigger] e[i]).0] == e[i].1,
    decreases e.len(),
{
    if e.len() > 0 {
        let p = e.drop_last();
        assert forall|i: int, j: int| 0 <= i < j < p.len() implies (#[trigger] p[i]).0 != (#[trigger] p[j]).0 by {
            assert(p[i] == e[i] && p[j] == e[j]);
        }
        lemma_lines_map(p);
        let last = e.len() - 1;
        assert forall|k: Seq<char>| #[trigger] lines_map(e).dom().contains(k) <==> exists|i: int| 0 <= i < e.len() && e[i].0 == k by {
            assert(e.last() == e[last]);
            if lines_map(e).dom().contains(k) && k != e[last].0 {
                assert(lines_map(p).dom().contains(k));
                let i = choose|i: int| 0 <= i < p.len() && p[i].0 == k;
                assert(e[i] == p[i]);
            }
            if exists|i: int| 0 <= i < e.len() && e[i].0 == k {
                let i = choose|i: int| 0 <= i < e.len() && e[i].0 == k;
                if i < last {
                    assert(p[i] == e[i]);
                }
            }
        }
        assert forall|i: int| 0 <= i < e.len() implies lines_map(e)[(#[trigger] e[i]).0] == e[i].1 by {
            assert(e.last() == e[last]);
            if i < last {
                assert(p[i] == e[i]);
                assert(e[i].0 != e[last].0);
            }
        }
    }
}

/// What is written is read back: the text of an os-release file whose keys and values need no
/// quoting parses to its pairs again.
pub proof fn law_render_parse_round_trip(o: OsRelease)
    requires
        o.wf(),
        forall|k: Seq<char>| #[trigger] o@.dom().contains(k) ==> plain_key(k) && plain_value(o@[k]),
    ensures
        parse_os_release(render(o.lines())) == o@,
{
    o.lemma_lines();
    let e = o.lines();
    assert forall|i: int| 0 <= i < e.len() implies plain_key(#[trigger] e[i].0) && plain_value(e[i].1) by {
        assert(o@.dom().contains(e[i].0));
    }
    lemma_scan_render(e);
    let keys = e.map_values(|x: (Seq<char>, Seq<char>)| x.0);
    assert forall|i: int, j: int| 0 <= i < j < e.len() implies (#[trigger] e[i]).0 != (#[trigger] e[j]).0 by {
        assert(keys[i] == e[i].0 && keys[j] == e[j].0);
        if e[i].0 == e[j].0 {
            lemma_lex_irreflexive(e[i].0);
        }
    }
    lemma_lines_map(e);
    let m = lines_map(e);
    assert forall|k: Seq<char>| #[trigger] m.dom().contains(k) <==> o@.dom().contains(k) by {
        if m.dom().contains(k) {
            let i = choose|i: int| 0 <= i < e.len() && e[i].0 == k;
            assert(o@.dom().contains(e[i].0));
        }
    }
    assert forall|k: Seq<char>| #[trigger] m.dom().contains(k) implies m[k] == o@[k] by {
        let i = choose|i: int| 0 <= i < e.len() && e[i].0 == k;
        assert(m[e[i].0] == e[i].1);
    }
    assert(m =~= o@);
}

} // verus!
