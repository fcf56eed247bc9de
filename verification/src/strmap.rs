//! A map keyed by strings that keeps its entries sorted by key, so that walking it gives the
//! keys in lexicographic order of their characters.
use vstd::prelude::*;

use crate::text::str_chars;

verus! {

/// Strict lexicographic order on character sequences.
pub open spec fn lex_lt(a: Seq<char>, b: Seq<char>) -> bool
    decreases a.len(),
{
    if a.len() == 0 {
        b.len() > 0
    } else if b.len() == 0 {
        false
    } else if a[0] != b[0] {
        a[0] < b[0]
    } else {
        lex_lt(a.drop_first(), b.drop_first())
    }
}

pub proof fn lemma_lex_irreflexive(a: Seq<char>)
    ensures
        !lex_lt(a, a),
    decreases a.len(),
{
    if a.len() > 0 {
        lemma_lex_irreflexive(a.drop_first());
    }
}

pub proof fn lemma_lex_trichotomy(a: Seq<char>, b: Seq<char>)
    ensures
        a =~= b || lex_lt(a, b) || lex_lt(b, a),
        !(lex_lt(a, b) && lex_lt(b, a)),
    decreases a.len(),
{
    if a.len() > 0 && b.len() > 0 && a[0] == b[0] {
        lemma_lex_trichotomy(a.drop_first(), b.drop_first());
        if a.drop_first() =~= b.drop_first() {
            assert(a =~= seq![a[0]] + a.drop_first());
            assert(b =~= seq![b[0]] + b.drop_first());
        }
    }
}

pub proof fn lemma_lex_transitive(a: Seq<char>, b: Seq<char>, c: Seq<char>)
    requires
        lex_lt(a, b),
        lex_lt(b, c),
    ensures
        lex_lt(a, c),
    decreases a.len(),
{
    if a.len() > 0 && b.len() > 0 && c.len() > 0 && a[0] == b[0] && b[0] == c[0] {
        lemma_lex_transitive(a.drop_first(), b.drop_first(), c.drop_first());
    }
}

/// The keys of a sequence of entries.
pub open spec fn entry_keys<V>(e: Seq<(String, V)>) -> Seq<Seq<char>> {
    e.map_values(|p: (String, V)| p.0@)
}

/// Keys strictly increasing (hence distinct).
pub open spec fn sorted_keys(keys: Seq<Seq<char>>) -> bool {
    forall|i: int, j: int| 0 <= i < j < keys.len() ==> lex_lt(#[trigger] keys[i], #[trigger] keys[j])
}

pub open spec fn has_key<V>(e: Seq<(String, V)>, k: Seq<char>) -> bool {
    exists|i: int| 0 <= i < e.len() && #[trigger] e[i].0@ == k
}

/// The position of a key among the entries.
pub open spec fn key_index<V>(e: Seq<(String, V)>, k: Seq<char>) -> int {
    choose|i: int| 0 <= i < e.len() && #[trigger] e[i].0@ == k
}

/// The map that a sequence of entries with distinct keys denotes.
pub open spec fn entries_map<V>(e: Seq<(String, V)>) -> Map<Seq<char>, V> {
    Map::new(|k: Seq<char>| has_key(e, k), |k: Seq<char>| e[key_index(e, k)].1)
}

pub proof fn lemma_sorted_distinct<V>(e: Seq<(String, V)>, i: int, j: int)
    requires
        sorted_keys(entry_keys(e)),
        0 <= i < e.len(),
        0 <= j < e.len(),
        e[i].0@ == e[j].0@,
    ensures
        i == j,
{
    let ks = entry_keys(e);
    if i < j {
        assert(lex_lt(ks[i], ks[j]));
        lemma_lex_irreflexive(ks[i]);
    } else if j < i {
        assert(lex_lt(ks[j], ks[i]));
        lemma_lex_irreflexive(ks[i]);
    }
}

pub proof fn lemma_entries_map_at<V>(e: Seq<(String, V)>, i: int)
    requires
        sorted_keys(entry_keys(e)),
        0 <= i < e.len(),
    ensures
        entries_map(e).dom().contains(e[i].0@),
        entries_map(e)[e[i].0@] == e[i].1,
{
    let k = e[i].0@;
    assert(has_key(e, k));
    let j = key_index(e, k);
    lemma_sorted_distinct(e, i, j);
}

/// A string-keyed map that keeps its entries sorted by key.
pub struct StrMap<V> {
    entries: Vec<(String, V)>,
}

impl<V> StrMap<V> {
    pub closed spec fn entries(&self) -> Seq<(String, V)> {
        self.entries@
    }

    /// The entries are sorted by key, with no key twice.
    pub open spec fn wf(&self) -> bool {
        sorted_keys(entry_keys(self.entries()))
    }

    pub open spec fn view(&self) -> Map<Seq<char>, V> {
        entries_map(self.entries())
    }

    pub fn new() -> (m: Self)
        ensures
            m.wf(),
            m.entries() == Seq::<(String, V)>::empty(),
            m@ == Map::<Seq<char>, V>::empty(),
    {
        let m = StrMap { entries: Vec::new() };
        assert(m@ =~= Map::<Seq<char>, V>::empty());
        m
    }

    pub fn len(&self) -> (n: usize)
        ensures
            n == self.entries().len(),
    {
        self.entries.len()
    }

    /// The `i`-th entry in key order.
    pub fn entry(&self, i: usize) -> (r: (&String, &V))
        requires
            i < self.entries().len(),
        ensures
            *r.0 == self.entries()[i as int].0,
            *r.1 == self.entries()[i as int].1,
    {
        let e = &self.entries[i];
        (&e.0, &e.1)
    }

    /// Looks a key up.
    pub fn get(&self, key: &str) -> (r: Option<&V>)
        requires
            self.wf(),
        ensures
            r matches Some(v) ==> self@.dom().contains(key@) && *v == self@[key@],
            r is None ==> !self@.dom().contains(key@),
    {
        let kc = str_chars(key);
        let mut i: usize = 0;
        while i < self.entries.len()
            invariant
                0 <= i <= self.entries@.len(),
                kc@ == key@,
                self.wf(),
                forall|j: int| 0 <= j < i ==> self.entries@[j].0@ != key@,
            decreases self.entries@.len() - i,
        {
            let kj = str_chars(self.entries[i].0.as_str());
            if chars_eq(&kj, &kc) {
                proof {
                    lemma_entries_map_at(self.entries@, i as int);
                }
                return Some(&self.entries[i].1);
            }
            i = i + 1;
        }
        None
    }

    /// Inserts a key with its value; a value that the key had before is replaced.
    pub fn insert(&mut self, key: String, value: V)
        requires
            old(self).wf(),
        ensures
            final(self).wf(),
            final(self)@ == old(self)@.insert(key@, value),
    {
        let ghost old_e = self.entries@;
        let kc = str_chars(key.as_str());
        let mut i: usize = 0;
        let mut found = false;
        // Find the first entry whose key is not below the new one.
        while !found && i < self.entries.len()
            invariant
                0 <= i <= self.entries@.len(),
                self.entries@ == old_e,
                sorted_keys(entry_keys(old_e)),
                kc@ == key@,
                forall|j: int| 0 <= j < i ==> lex_lt(#[trigger] old_e[j].0@, key@),
                found ==> i < old_e.len() && !lex_lt(old_e[i as int].0@, key@),
            decreases self.entries@.len() - i + (if found { 0int } else { 1int }),
        {
            let kj = str_chars(self.entries[i].0.as_str());
            if !chars_lt(&kj, &kc) {
                found = true;
            } else {
                i = i + 1;
            }
        }
        let ghost ks = entry_keys(old_e);
        if i < self.entries.len() && chars_eq(&str_chars(self.entries[i].0.as_str()), &kc) {
            // Replace the value of an existing key.
            let ghost e_i = old_e[i as int];
            self.entries.set(i, (key, value));
            proof {
                assert(entry_keys(self.entries@) =~= ks);
                let e = self.entries@;
                assert forall|k: Seq<char>| entries_map(e).dom().contains(k) <==> entries_map(
                    old_e,
                ).insert(key@, value).dom().contains(k) by {
                    if has_key(e, k) {
                        let j = choose|j: int| 0 <= j < e.len() && #[trigger] e[j].0@ == k;
                        if j != i {
                            assert(old_e[j].0@ == k);
                        }
                    }
                    if has_key(old_e, k) {
                        let j = choose|j: int| 0 <= j < old_e.len() && #[trigger] old_e[j].0@ == k;
                        if j != i {
                            assert(e[j].0@ == k);
                        }
                    }
                    if k == key@ {
                        assert(e[i as int].0@ == k);
                    }
                }
                assert forall|k: Seq<char>| #[trigger]
                    entries_map(e).dom().contains(k) implies entries_map(e)[k] == entries_map(
                    old_e,
                ).insert(key@, value)[k] by {
                    let j = choose|j: int| 0 <= j < e.len() && #[trigger] e[j].0@ == k;
                    lemma_entries_map_at(e, j);
                    if k == key@ {
                        lemma_sorted_distinct(e, i as int, j);
                    }
                    if j != i {
                        assert(old_e[j].0@ == k);
                        lemma_entries_map_at(old_e, j);
                    }
                }
                assert(entries_map(e) =~= entries_map(old_e).insert(key@, value));
            }
        } else {
            proof {
                if i < old_e.len() {
                    lemma_lex_trichotomy(old_e[i as int].0@, key@);
                }
            }
            self.entries.insert(i, (key, value));
            proof {
                let e = self.entries@;
                assert forall|a: int, b: int| 0 <= a < b < e.len() implies lex_lt(
                    #[trigger] entry_keys(e)[a],
                    #[trigger] entry_keys(e)[b],
                ) by {
                    if b < i {
                        assert(lex_lt(ks[a], ks[b]));
                    } else if b == i {
                    } else if a < i {
                        // a < i < b: old[a] < key < old[b - 1]
                        if b - 1 > i {
                            assert(lex_lt(ks[i as int], ks[b - 1]));
                            lemma_lex_transitive(key@, ks[i as int], ks[b - 1]);
                        }
                        lemma_lex_transitive(ks[a], key@, ks[b - 1]);
                    } else if a == i {
                        if b - 1 > i {
                            assert(lex_lt(ks[i as int], ks[b - 1]));
                            lemma_lex_transitive(key@, ks[i as int], ks[b - 1]);
                        }
                    } else {
                        assert(lex_lt(ks[a - 1], ks[b - 1]));
                    }
                }
                assert(!has_key(old_e, key@)) by {
                    if has_key(old_e, key@) {
                        let j = choose|j: int| 0 <= j < old_e.len() && #[trigger] old_e[j].0@
                            == key@;
                        if j < i {
                            lemma_lex_irreflexive(key@);
                        } else {
                            if j > i {
                                assert(lex_lt(ks[i as int], ks[j]));
                                lemma_lex_transitive(key@, ks[i as int], ks[j]);
                            }
                            lemma_lex_irreflexive(key@);
                        }
                    }
                }
                assert forall|k: Seq<char>| entries_map(e).dom().contains(k) <==> entries_map(
                    old_e,
                ).insert(key@, value).dom().contains(k) by {
                    if has_key(e, k) {
                        let j = choose|j: int| 0 <= j < e.len() && #[trigger] e[j].0@ == k;
                        if j < i {
                            assert(old_e[j].0@ == k);
                        } else if j > i {
                            assert(old_e[j - 1].0@ == k);
                        }
                    }
                    if has_key(old_e, k) {
                        let j = choose|j: int| 0 <= j < old_e.len() && #[trigger] old_e[j].0@ == k;
                        if j < i {
                            assert(e[j].0@ == k);
                        } else {
                            assert(e[j + 1].0@ == k);
                        }
                    }
                    if k == key@ {
                        assert(e[i as int].0@ == k);
                    }
                }
                assert forall|k: Seq<char>| #[trigger]
                    entries_map(e).dom().contains(k) implies entries_map(e)[k] == entries_map(
                    old_e,
                ).insert(key@, value)[k] by {
                    let j = choose|j: int| 0 <= j < e.len() && #[trigger] e[j].0@ == k;
                    lemma_entries_map_at(e, j);
                    if j < i {
                        assert(old_e[j] == e[j]);
                        lemma_entries_map_at(old_e, j);
                    } else if j > i {
                        assert(old_e[j - 1] == e[j]);
                        lemma_entries_map_at(old_e, j - 1);
                    }
                }
                assert(entries_map(e) =~= entries_map(old_e).insert(key@, value));
            }
        }
    }
}

/// Equality of two character vectors.
pub fn chars_eq(a: &Vec<char>, b: &Vec<char>) -> (r: bool)
    ensures
        r == (a@ == b@),
{
    if a.len() != b.len() {
        return false;
    }
    let mut i: usize = 0;
    while i < a.len()
        invariant
            0 <= i <= a@.len(),
            a@.len() == b@.len(),
            forall|j: int| 0 <= j < i ==> a@[j] == b@[j],
        decreases a@.len() - i,
    {
        if a[i] != b[i] {
            return false;
        }
        i = i + 1;
    }
    assert(a@ =~= b@);
    true
}

/// Strict lexicographic comparison of two character vectors.
pub fn chars_lt(a: &Vec<char>, b: &Vec<char>) -> (r: bool)
    ensures
        r == lex_lt(a@, b@),
{
    let mut i: usize = 0;
    assert(a@.skip(0) =~= a@);
    assert(b@.skip(0) =~= b@);
    while i < a.len() && i < b.len()
        invariant
            0 <= i <= a@.len(),
            i <= b@.len(),
            a@.take(i as int) == b@.take(i as int),
            lex_lt(a@, b@) == lex_lt(a@.skip(i as int), b@.skip(i as int)),
        decreases a@.len() - i,
    {
        if a[i] != b[i] {
            return a[i] < b[i];
        }
        assert(a@.skip(i as int).drop_first() =~= a@.skip(i + 1));
        assert(b@.skip(i as int).drop_first() =~= b@.skip(i + 1));
        assert(a@.take(i + 1) =~= a@.take(i as int).push(a@[i as int]));
        assert(b@.take(i + 1) =~= b@.take(i as int).push(b@[i as int]));
        i = i + 1;
    }
    i == a.len() && i < b.len()
}

} // verus!
