//! os-release files: a parser for the text form and the renderer that writes it.
use vstd::prelude::*;

use crate::strmap::{entry_keys, key_index, lemma_entries_map_at, sorted_keys, StrMap};
use crate::generation::Generation;
use crate::text::{chars_to_string, push_chars, push_str, str_chars};

verus! {

/// The states of the os-release parser.
#[derive(Clone, Copy, PartialEq, Eq, Structural, Debug)]
pub enum ParseState {
    PreKey,
    Key,
    PreValue,
    Value,
    ValueEscape,
    SingleQuoteValue,
    DoubleQuoteValue,
    DoubleQuoteValueEscape,
    Comment,
    CommentEscape,
}

/// What the parser holds between two characters.
pub struct Scan {
    pub state: ParseState,
    pub key: Seq<char>,
    pub value: Seq<char>,
    pub map: Map<Seq<char>, Seq<char>>,
}

pub open spec fn is_comment_start(c: char) -> bool {
    c == '#' || c == ';'
}

pub open spec fn is_blank(c: char) -> bool {
    c == ' ' || c == '\t' || c == '\n' || c == '\r'
}

pub open spec fn is_newline(c: char) -> bool {
    c == '\r' || c == '\n'
}

pub open spec fn needs_shell_escape(c: char) -> bool {
    c == '"' || c == '\\' || c == '`' || c == '$'
}

/// Unicode `White_Space`, the property that `char::is_whitespace` tests.
pub open spec fn is_unicode_whitespace(c: char) -> bool {
    ||| ('\u{9}' <= c && c <= '\u{d}')
    ||| c == ' '
    ||| c == '\u{85}'
    ||| c == '\u{a0}'
    ||| c == '\u{1680}'
    ||| ('\u{2000}' <= c && c <= '\u{200a}')
    ||| c == '\u{2028}'
    ||| c == '\u{2029}'
    ||| c == '\u{202f}'
    ||| c == '\u{205f}'
    ||| c == '\u{3000}'
}

/// The sequence without its trailing whitespace, as `str::trim_end` gives it.
pub open spec fn trim_end(s: Seq<char>) -> Seq<char>
    decreases s.len(),
{
    if s.len() > 0 && is_unicode_whitespace(s.last()) {
        trim_end(s.drop_last())
    } else {
        s
    }
}

pub open spec fn initial_scan() -> Scan {
    Scan {
        state: ParseState::PreKey,
        key: Seq::empty(),
        value: Seq::empty(),
        map: Map::empty(),
    }
}

pub open spec fn with_state(sc: Scan, st: ParseState) -> Scan {
    Scan { state: st, ..sc }
}

/// One character of input.
pub open spec fn step(sc: Scan, c: char) -> Scan {
    match sc.state {
        ParseState::PreKey => {
            if is_comment_start(c) {
                with_state(sc, ParseState::Comment)
            } else if !is_blank(c) {
                Scan { state: ParseState::Key, key: sc.key.push(c), ..sc }
            } else {
                sc
            }
        },
        ParseState::Key => {
            if is_newline(c) {
                Scan { state: ParseState::PreKey, key: Seq::empty(), ..sc }
            } else if c == '=' {
                with_state(sc, ParseState::PreValue)
            } else {
                Scan { key: sc.key.push(c), ..sc }
            }
        },
        ParseState::PreValue => {
            if is_newline(c) {
                Scan {
                    state: ParseState::PreKey,
                    key: Seq::empty(),
                    value: Seq::empty(),
                    map: sc.map.insert(trim_end(sc.key), sc.value),
                }
            } else if c == '\'' {
                with_state(sc, ParseState::SingleQuoteValue)
            } else if c == '"' {
                with_state(sc, ParseState::DoubleQuoteValue)
            } else if c == '\\' {
                with_state(sc, ParseState::ValueEscape)
            } else if !is_blank(c) {
                Scan { state: ParseState::Value, value: sc.value.push(c), ..sc }
            } else {
                sc
            }
        },
        ParseState::Value => {
            if is_newline(c) {
                Scan {
                    state: ParseState::PreKey,
                    key: Seq::empty(),
                    value: Seq::empty(),
                    map: sc.map.insert(trim_end(sc.key), trim_end(sc.value)),
                }
            } else if c == '\\' {
                with_state(sc, ParseState::ValueEscape)
            } else {
                Scan { value: sc.value.push(c), ..sc }
            }
        },
        ParseState::ValueEscape => {
            if is_newline(c) {
                with_state(sc, ParseState::Value)
            } else {
                Scan { state: ParseState::Value, value: sc.value.push(c), ..sc }
            }
        },
        ParseState::SingleQuoteValue => {
            if c == '\'' {
                with_state(sc, ParseState::PreValue)
            } else {
                Scan { value: sc.value.push(c), ..sc }
            }
        },
        ParseState::DoubleQuoteValue => {
            if c == '"' {
                with_state(sc, ParseState::PreValue)
            } else if c == '\\' {
                with_state(sc, ParseState::DoubleQuoteValueEscape)
            } else {
                Scan { value: sc.value.push(c), ..sc }
            }
        },
        ParseState::DoubleQuoteValueEscape => {
            if needs_shell_escape(c) {
                Scan { state: ParseState::DoubleQuoteValue, value: sc.value.push(c), ..sc }
            } else if c != '\n' {
                Scan {
                    state: ParseState::DoubleQuoteValue,
                    value: sc.value.push('\\').push(c),
                    ..sc
                }
            } else {
                with_state(sc, ParseState::DoubleQuoteValue)
            }
        },
        ParseState::Comment => {
            if c == '\\' {
                with_state(sc, ParseState::CommentEscape)
            } else if is_newline(c) {
                with_state(sc, ParseState::PreKey)
            } else {
                sc
            }
        },
        ParseState::CommentEscape => {
            if is_newline(c) {
                with_state(sc, ParseState::PreKey)
            } else {
                with_state(sc, ParseState::Comment)
            }
        },
    }
}

/// The parser after it has read `s`, starting from `sc`.
pub open spec fn scan_from(sc: Scan, s: Seq<char>) -> Scan
    decreases s.len(),
{
    if s.len() == 0 {
        sc
    } else {
        step(scan_from(sc, s.drop_last()), s.last())
    }
}

/// The end of input: a pending assignment is completed.
pub open spec fn finish(sc: Scan) -> Map<Seq<char>, Seq<char>> {
    match sc.state {
        ParseState::PreValue | ParseState::ValueEscape | ParseState::SingleQuoteValue
        | ParseState::DoubleQuoteValue | ParseState::DoubleQuoteValueEscape => sc.map.insert(
            trim_end(sc.key),
            sc.value,
        ),
        ParseState::Value => sc.map.insert(trim_end(sc.key), trim_end(sc.value)),
        _ => sc.map,
    }
}

/// The key-value pairs that the text of an os-release file holds.
pub open spec fn parse_os_release(s: Seq<char>) -> Map<Seq<char>, Seq<char>> {
    finish(scan_from(initial_scan(), s))
}

/// The views of the values of a string-valued map.
pub open spec fn view_values(m: Map<Seq<char>, String>) -> Map<Seq<char>, Seq<char>> {
    m.map_values(|v: String| v@)
}

/// One line `key=value` followed by a newline.
pub open spec fn render_line(k: Seq<char>, v: Seq<char>) -> Seq<char> {
    k + seq!['='] + v + seq!['\n']
}

/// The lines of the given entries, in order.
pub open spec fn render(e: Seq<(Seq<char>, Seq<char>)>) -> Seq<char>
    decreases e.len(),
{
    if e.len() == 0 {
        Seq::empty()
    } else {
        render(e.drop_last()) + render_line(e.last().0, e.last().1)
    }
}

/// The os-release of a generation's stub: `ID` is the sort key, `PRETTY_NAME` the label with
/// the profile and the description, `VERSION_ID` the description.
pub open spec fn generation_os_release(generation: Generation) -> Map<Seq<char>, Seq<char>> {
    map![
        seq!['I', 'D'] => generation.spec.lanzaboote_extension.sort_key@,
        seq!['P', 'R', 'E', 'T', 'T', 'Y', '_', 'N', 'A', 'M', 'E'] =>
            generation.spec.bootspec.label@ + generation.spec_describe_profile() + seq![
            ' ', '('] + generation.spec_describe() + seq![')'],
        seq!['V', 'E', 'R', 'S', 'I', 'O', 'N', '_', 'I', 'D'] =>
            generation.spec_describe(),
    ]
}

/// An os-release file: its keys with their values, kept in key order.
pub struct OsRelease {
    map: StrMap<String>,
}

impl OsRelease {
    pub closed spec fn wf(&self) -> bool {
        self.map.wf()
    }

    /// The key-value pairs.
    pub closed spec fn view(&self) -> Map<Seq<char>, Seq<char>> {
        view_values(self.map@)
    }

    /// The pairs in the order in which they are written out (ascending keys).
    pub closed spec fn lines(&self) -> Seq<(Seq<char>, Seq<char>)> {
        self.map.entries().map_values(|e: (String, String)| (e.0@, e.1@))
    }

    pub proof fn lemma_lines(&self)
        requires
            self.wf(),
        ensures
            sorted_keys(self.lines().map_values(|e: (Seq<char>, Seq<char>)| e.0)),
            forall|i: int|
                0 <= i < self.lines().len() ==> #[trigger] self@.dom().contains(
                    self.lines()[i].0,
                ) && self@[self.lines()[i].0] == self.lines()[i].1,
            forall|k: Seq<char>|
                #[trigger] self@.dom().contains(k) ==> exists|i: int|
                    0 <= i < self.lines().len() && self.lines()[i].0 == k,
    {
        let e = self.map.entries();
        assert(self.lines().map_values(|e: (Seq<char>, Seq<char>)| e.0) =~= entry_keys(e));
        assert forall|i: int| 0 <= i < self.lines().len() implies #[trigger] self@.dom().contains(
            self.lines()[i].0,
        ) && self@[self.lines()[i].0] == self.lines()[i].1 by {
            lemma_entries_map_at(e, i);
        }
        assert forall|k: Seq<char>| #[trigger] self@.dom().contains(k) implies exists|i: int|
            0 <= i < self.lines().len() && self.lines()[i].0 == k by {
            let i = key_index(e, k);
            assert(self.lines()[i].0 == k);
        }
    }

    /// An empty file.
    pub fn new() -> (r: Self)
        ensures
            r.wf(),
            r@ == Map::<Seq<char>, Seq<char>>::empty(),
    {
        let r = OsRelease { map: StrMap::new() };
        assert(r@ =~= Map::<Seq<char>, Seq<char>>::empty());
        r
    }

    /// Sets a key to a value.
    pub fn insert(&mut self, key: String, value: String)
        requires
            old(self).wf(),
        ensures
            final(self).wf(),
            final(self)@ == old(self)@.insert(key@, value@),
    {
        let ghost k = key@;
        let ghost v = value@;
        let ghost m0 = self.map@;
        self.map.insert(key, value);
        assert(view_values(self.map@) =~= view_values(m0).insert(k, v));
    }

    /// The value of a key.
    pub fn get(&self, key: &str) -> (r: Option<&String>)
        requires
            self.wf(),
        ensures
            r matches Some(v) ==> self@.dom().contains(key@) && v@ == self@[key@],
            r is None ==> !self@.dom().contains(key@),
    {
        self.map.get(key)
    }

    /// Parses the text of an os-release file.
    ///
    /// This follows systemd's reading of such files far enough to read the `VERSION` key of a
    /// systemd-boot binary; it is not a complete reader of every valid file.
    pub fn from_str(value: &str) -> (r: Result<Self, ()>)
        ensures
            r matches Ok(o) && o.wf() && o@ == parse_os_release(value@),
    {
        let input = str_chars(value);
        let mut map = OsRelease::new();
        let mut state = ParseState::PreKey;
        let mut current_key: Vec<char> = Vec::new();
        let mut current_value: Vec<char> = Vec::new();
        let mut i: usize = 0;
        while i < input.len()
            invariant
                0 <= i <= input@.len(),
                input@ == value@,
                map.wf(),
                ({
                    let sc = scan_from(initial_scan(), input@.take(i as int));
                    &&& sc.state == state
                    &&& sc.key == current_key@
                    &&& sc.value == current_value@
                    &&& sc.map == map@
                }),
            decreases input@.len() - i,
        {
            let c = input[i];
            let ghost before = scan_from(initial_scan(), input@.take(i as int));
            assert(input@.take(i + 1).drop_last() =~= input@.take(i as int));
            match state {
                ParseState::PreKey => {
                    if c == '#' || c == ';' {
                        state = ParseState::Comment;
                    } else if !(c == ' ' || c == '\t' || c == '\n' || c == '\r') {
                        state = ParseState::Key;
                        current_key.push(c);
                    }
                },
                ParseState::Key => {
                    if c == '\r' || c == '\n' {
                        state = ParseState::PreKey;
                        current_key = Vec::new();
                    } else if c == '=' {
                        state = ParseState::PreValue;
                    } else {
                        current_key.push(c);
                    }
                },
                ParseState::PreValue => {
                    if c == '\r' || c == '\n' {
                        state = ParseState::PreKey;
                        let key = chars_to_string(&trim_end_chars(&current_key));
                        let val = chars_to_string(&current_value);
                        map.insert(key, val);
                        current_key = Vec::new();
                        current_value = Vec::new();
                    } else if c == '\'' {
                        state = ParseState::SingleQuoteValue;
                    } else if c == '"' {
                        state = ParseState::DoubleQuoteValue;
                    } else if c == '\\' {
                        state = ParseState::ValueEscape;
                    } else if !(c == ' ' || c == '\t' || c == '\n' || c == '\r') {
                        state = ParseState::Value;
                        current_value.push(c);
                    }
                },
                ParseState::Value => {
                    if c == '\r' || c == '\n' {
                        state = ParseState::PreKey;
                        let key = chars_to_string(&trim_end_chars(&current_key));
                        let val = chars_to_string(&trim_end_chars(&current_value));
                        map.insert(key, val);
                        current_key = Vec::new();
                        current_value = Vec::new();
                    } else if c == '\\' {
                        state = ParseState::ValueEscape;
                    } else {
                        current_value.push(c);
                    }
                },
                ParseState::ValueEscape => {
                    state = ParseState::Value;
                    if !(c == '\r' || c == '\n') {
                        // Escaped newlines are dropped.
                        current_value.push(c);
                    }
                },
                ParseState::SingleQuoteValue => {
                    if c == '\'' {
                        state = ParseState::PreValue;
                    } else {
                        current_value.push(c);
                    }
                },
                ParseState::DoubleQuoteValue => {
                    if c == '"' {
                        state = ParseState::PreValue;
                    } else if c == '\\' {
                        state = ParseState::DoubleQuoteValueEscape;
                    } else {
                        current_value.push(c);
                    }
                },
                ParseState::DoubleQuoteValueEscape => {
                    state = ParseState::DoubleQuoteValue;
                    if c == '"' || c == '\\' || c == '`' || c == '$' {
                        // A character that needs escaping is unescaped.
                        current_value.push(c);
                    } else if c != '\n' {
                        // Any other escaped character keeps its backslash, as the shell does.
                        current_value.push('\\');
                        current_value.push(c);
                    }
                },
                ParseState::Comment => {
                    if c == '\\' {
                        state = ParseState::CommentEscape;
                    } else if c == '\r' || c == '\n' {
                        state = ParseState::PreKey;
                    }
                },
                ParseState::CommentEscape => {
                    if c == '\r' || c == '\n' {
                        state = ParseState::PreKey;
                    } else {
                        state = ParseState::Comment;
                    }
                },
            }
            i = i + 1;
            proof {
                let after = step(before, c);
                assert(after.key =~= current_key@);
                assert(after.value =~= current_value@);
                assert(after.map =~= map@);
            }
        }
        assert(input@.take(i as int) =~= value@);
        match state {
            ParseState::PreValue | ParseState::ValueEscape | ParseState::SingleQuoteValue
            | ParseState::DoubleQuoteValue | ParseState::DoubleQuoteValueEscape => {
                let key = chars_to_string(&trim_end_chars(&current_key));
                let val = chars_to_string(&current_value);
                map.insert(key, val);
            },
            ParseState::Value => {
                let key = chars_to_string(&trim_end_chars(&current_key));
                let val = chars_to_string(&trim_end_chars(&current_value));
                map.insert(key, val);
            },
            _ => {},
        }
        Ok(map)
    }

    /// The os-release of the stub of a generation: `ID` is the sort key (systemd-boot's
    /// `bootctl` needs an ID), `PRETTY_NAME` is unique per generation so that systemd-boot
    /// shows it as is, and `VERSION_ID` is the description of the generation.
    pub fn from_generation(generation: &Generation) -> (r: Result<Self, ()>)
        requires
            generation.wf(),
        ensures
            r matches Ok(o) && o.wf() && o@ == map![
                seq!['I', 'D'] => generation.spec.lanzaboote_extension.sort_key@,
                seq!['P', 'R', 'E', 'T', 'T', 'Y', '_', 'N', 'A', 'M', 'E'] =>
                    generation.spec.bootspec.label@ + generation.spec_describe_profile() + seq![
                    ' ', '('] + generation.spec_describe() + seq![')'],
                seq!['V', 'E', 'R', 'S', 'I', 'O', 'N', '_', 'I', 'D'] =>
                    generation.spec_describe(),
            ],
    {
        let mut map = OsRelease::new();
        let id = vec!['I', 'D'];
        map.insert(chars_to_string(&id), generation.spec.lanzaboote_extension.sort_key.clone());
        let mut pretty: Vec<char> = Vec::new();
        push_str(&mut pretty, generation.spec.bootspec.label.as_str());
        push_str(&mut pretty, generation.describe_profile().as_str());
        pretty.push(' ');
        pretty.push('(');
        let description = generation.describe();
        push_str(&mut pretty, description.as_str());
        pretty.push(')');
        assert(pretty@ =~= generation.spec.bootspec.label@ + generation.spec_describe_profile()
            + seq![' ', '('] + generation.spec_describe() + seq![')']);
        let pretty_key = vec!['P', 'R', 'E', 'T', 'T', 'Y', '_', 'N', 'A', 'M', 'E'];
        map.insert(chars_to_string(&pretty_key), chars_to_string(&pretty));
        let version_key = vec!['V', 'E', 'R', 'S', 'I', 'O', 'N', '_', 'I', 'D'];
        map.insert(chars_to_string(&version_key), description);
        proof {
            assert(id@ =~= seq!['I', 'D']);
            assert(pretty_key@ =~= seq!['P', 'R', 'E', 'T', 'T', 'Y', '_', 'N', 'A', 'M', 'E']);
            assert(version_key@ =~= seq!['V', 'E', 'R', 'S', 'I', 'O', 'N', '_', 'I', 'D']);
            assert(map@ =~= map![
                seq!['I', 'D'] => generation.spec.lanzaboote_extension.sort_key@,
                seq!['P', 'R', 'E', 'T', 'T', 'Y', '_', 'N', 'A', 'M', 'E'] =>
                    generation.spec.bootspec.label@ + generation.spec_describe_profile() + seq![
                    ' ', '('] + generation.spec_describe() + seq![')'],
                seq!['V', 'E', 'R', 'S', 'I', 'O', 'N', '_', 'I', 'D'] =>
                    generation.spec_describe(),
            ]);
        }
        Ok(map)
    }

    /// The text of the file: one `key=value` line per key, in ascending key order.
    pub fn to_string(&self) -> (r: String)
        ensures
            r@ == render(self.lines()),
    {
        let mut out: Vec<char> = Vec::new();
        let mut i: usize = 0;
        while i < self.map.len()
            invariant
                0 <= i <= self.map.entries().len(),
                out@ == render(self.lines().take(i as int)),
            decreases self.map.entries().len() - i,
        {
            let (k, v) = self.map.entry(i);
            let kc = str_chars(k.as_str());
            let vc = str_chars(v.as_str());
            let ghost before = out@;
            append_chars(&mut out, &kc);
            out.push('=');
            append_chars(&mut out, &vc);
            out.push('\n');
            proof {
                let ls = self.lines().take(i + 1);
                assert(ls.drop_last() =~= self.lines().take(i as int));
                assert(out@ =~= before + render_line(kc@, vc@));
            }
            i = i + 1;
        }
        assert(self.lines().take(i as int) =~= self.lines());
        chars_to_string(&out)
    }
}

/// Appends the characters of `src` to `dst`.
pub fn append_chars(dst: &mut Vec<char>, src: &Vec<char>)
    ensures
        final(dst)@ == old(dst)@ + src@,
{
    let mut i: usize = 0;
    while i < src.len()
        invariant
            0 <= i <= src@.len(),
            dst@ == old(dst)@ + src@.take(i as int),
        decreases src@.len() - i,
    {
        dst.push(src[i]);
        i = i + 1;
        assert(dst@ =~= old(dst)@ + src@.take(i as int));
    }
    assert(src@.take(i as int) =~= src@);
}

/// `char::is_whitespace`.
pub fn is_whitespace(c: char) -> (r: bool)
    ensures
        r == is_unicode_whitespace(c),
{
    ('\u{9}' <= c && c <= '\u{d}') || c == ' ' || c == '\u{85}' || c == '\u{a0}' || c
        == '\u{1680}' || ('\u{2000}' <= c && c <= '\u{200a}') || c == '\u{2028}' || c
        == '\u{2029}' || c == '\u{202f}' || c == '\u{205f}' || c == '\u{3000}'
}

/// A copy of the characters without the trailing whitespace.
pub fn trim_end_chars(s: &Vec<char>) -> (r: Vec<char>)
    ensures
        r@ == trim_end(s@),
{
    let mut n = s.len();
    assert(s@.take(n as int) =~= s@);
    while n > 0 && is_whitespace(s[n - 1])
        invariant
            0 <= n <= s@.len(),
            trim_end(s@) == trim_end(s@.take(n as int)),
        decreases n,
    {
        assert(s@.take(n as int).drop_last() =~= s@.take(n - 1));
        n = n - 1;
    }
    assert(trim_end(s@.take(n as int)) == s@.take(n as int));
    let mut r: Vec<char> = Vec::new();
    let mut i: usize = 0;
    while i < n
        invariant
            0 <= i <= n <= s@.len(),
            r@ == s@.take(i as int),
        decreases n - i,
    {
        r.push(s[i]);
        i = i + 1;
        assert(r@ =~= s@.take(i as int));
    }
    r
}

/// Reading `a` and then `b` is reading `a + b`.
pub proof fn lemma_scan_from_append(sc: Scan, a: Seq<char>, b: Seq<char>)
    ensures
        scan_from(sc, a + b) == scan_from(scan_from(sc, a), b),
    decreases b.len(),
{
    if b.len() == 0 {
        assert(a + b =~= a);
    } else {
        lemma_scan_from_append(sc, a, b.drop_last());
        assert((a + b).drop_last() =~= a + b.drop_last());
        assert((a + b).last() == b.last());
    }
}

/// Inside a comment, text without a backslash or a line break changes nothing.
proof fn lemma_comment_text(sc: Scan, c: Seq<char>)
    requires
        sc.state == ParseState::Comment,
        forall|i: int| 0 <= i < c.len() ==> c[i] != '\\' && c[i] != '\n' && c[i] != '\r',
    ensures
        scan_from(sc, c) == sc,
    decreases c.len(),
{
    if c.len() > 0 {
        lemma_comment_text(sc, c.drop_last());
    }
}

/// A comment line at the start of the text has no effect on what the rest of it holds: a
/// comment ends at the end of its line.
pub proof fn law_comment_line_ignored(start: char, comment: Seq<char>, rest: Seq<char>)
    requires
        start == '#' || start == ';',
        forall|i: int| 0 <= i < comment.len() ==> comment[i] != '\\' && comment[i] != '\n' && comment[i] != '\r',
    ensures
        parse_os_release(seq![start] + comment + seq!['\n'] + rest) == parse_os_release(rest),
{
    let line = seq![start] + comment + seq!['\n'];
    lemma_scan_from_append(initial_scan(), line, rest);
    lemma_scan_from_append(initial_scan(), seq![start], comment);
    lemma_scan_from_append(initial_scan(), seq![start] + comment, seq!['\n']);
    assert(seq![start].drop_last() =~= Seq::<char>::empty());
    assert(scan_from(initial_scan(), Seq::<char>::empty()) == initial_scan());
    assert(seq![start].last() == start);
    assert(scan_from(initial_scan(), seq![start]) == step(initial_scan(), start));
    let in_comment = scan_from(initial_scan(), seq![start]);
    assert(in_comment == with_state(initial_scan(), ParseState::Comment));
    lemma_comment_text(in_comment, comment);
    assert(seq!['\n'].drop_last() =~= Seq::<char>::empty());
    assert(scan_from(in_comment, Seq::<char>::empty()) == in_comment);
    assert(scan_from(in_comment, seq!['\n']) == step(in_comment, '\n'));
    assert(scan_from(initial_scan(), seq![start] + comment) == in_comment);
    assert(scan_from(initial_scan(), line) == initial_scan());
}

/// Letters, digits, `_`, `.` and `-`: characters that os-release text takes as they are.
pub open spec fn is_plain(c: char) -> bool {
    ||| ('a' <= c && c <= 'z')
    ||| ('A' <= c && c <= 'Z')
    ||| ('0' <= c && c <= '9')
    ||| c == '_' || c == '.' || c == '-'
}

pub open spec fn all_plain(s: Seq<char>) -> bool {
    forall|i: int| 0 <= i < s.len() ==> #[trigger] is_plain(s[i])
}

/// Plain characters are added to the key, the unquoted value or the double-quoted value that
/// is being read.
proof fn lemma_plain_run(sc: Scan, s: Seq<char>)
    requires
        sc.state == ParseState::Key || sc.state == ParseState::Value || sc.state
            == ParseState::DoubleQuoteValue,
        all_plain(s),
    ensures
        scan_from(sc, s) == (if sc.state == ParseState::Key {
            Scan { key: sc.key + s, ..sc }
        } else {
            Scan { value: sc.value + s, ..sc }
        }),
    decreases s.len(),
{
    if s.len() == 0 {
        assert(sc.key + s =~= sc.key);
        assert(sc.value + s =~= sc.value);
    } else {
        lemma_plain_run(sc, s.drop_last());
        assert(is_plain(s.last()));
        assert(sc.key + s.drop_last() + seq![s.last()] =~= sc.key + s);
        assert((sc.key + s.drop_last()).push(s.last()) =~= sc.key + s);
        assert((sc.value + s.drop_last()).push(s.last()) =~= sc.value + s);
    }
}

/// Text that ends in a character that is not whitespace is its own trimmed form.
proof fn lemma_trim_end_plain(s: Seq<char>)
    requires
        s.len() > 0,
        is_plain(s.last()),
    ensures
        trim_end(s) == s,
{
}

/// The parser after reading `s`, one character, from a state.
proof fn lemma_scan_one(sc: Scan, c: char)
    ensures
        scan_from(sc, seq![c]) == step(sc, c),
{
    assert(seq![c].drop_last() =~= Seq::<char>::empty());
    assert(scan_from(sc, Seq::<char>::empty()) == sc);
}

/// A line `KEY=value` of plain characters assigns the value to the key.
pub proof fn law_plain_assignment(key: Seq<char>, value: Seq<char>)
    requires
        key.len() > 0,
        value.len() > 0,
        all_plain(key),
        all_plain(value),
    ensures
        parse_os_release(key + seq!['='] + value + seq!['\n']) == map![key => value],
{
    let k0 = initial_scan();
    lemma_scan_one(k0, key[0]);
    assert(is_plain(key[0]));
    let after_first = Scan { state: ParseState::Key, key: seq![key[0]], ..k0 };
    assert(step(k0, key[0]) == after_first);
    lemma_plain_run(after_first, key.drop_first());
    assert(seq![key[0]] + key.drop_first() =~= key);
    assert(seq![key[0]] + key.drop_first() =~= key);
    lemma_scan_from_append(k0, seq![key[0]], key.drop_first());
    let in_key = Scan { state: ParseState::Key, key: key, ..k0 };
    assert(scan_from(k0, key) == in_key);
    lemma_scan_one(in_key, '=');
    let pre_value = with_state(in_key, ParseState::PreValue);
    lemma_scan_from_append(k0, key, seq!['=']);
    assert(scan_from(k0, key + seq!['=']) == pre_value);
    assert(is_plain(value[0]));
    lemma_scan_one(pre_value, value[0]);
    let in_value = Scan { state: ParseState::Value, value: seq![value[0]], ..pre_value };
    assert(step(pre_value, value[0]) == in_value);
    lemma_plain_run(in_value, value.drop_first());
    assert(seq![value[0]] + value.drop_first() =~= value);
    lemma_scan_from_append(pre_value, seq![value[0]], value.drop_first());
    let done_value = Scan { state: ParseState::Value, value: value, ..pre_value };
    assert(scan_from(pre_value, value) == done_value);
    lemma_scan_from_append(k0, key + seq!['='], value);
    lemma_scan_one(done_value, '\n');
    lemma_scan_from_append(k0, key + seq!['='] + value, seq!['\n']);
    assert(is_plain(key.last()));
    assert(is_plain(value.last()));
    lemma_trim_end_plain(key);
    lemma_trim_end_plain(value);
    assert(scan_from(k0, key + seq!['='] + value + seq!['\n']).map == Map::<Seq<char>, Seq<char>>::empty().insert(key, value));
    assert(map![key => value] =~= Map::<Seq<char>, Seq<char>>::empty().insert(key, value));
}

/// A line `KEY="value"` of plain characters assigns the value, without its quotes, to the key.
pub proof fn law_quoted_assignment(key: Seq<char>, value: Seq<char>)
    requires
        key.len() > 0,
        all_plain(key),
        all_plain(value),
    ensures
        parse_os_release(key + seq!['=', '"'] + value + seq!['"', '\n']) == map![key => value],
{
    let k0 = initial_scan();
    lemma_scan_one(k0, key[0]);
    assert(is_plain(key[0]));
    let after_first = Scan { state: ParseState::Key, key: seq![key[0]], ..k0 };
    lemma_plain_run(after_first, key.drop_first());
    assert(seq![key[0]] + key.drop_first() =~= key);
    lemma_scan_from_append(k0, seq![key[0]], key.drop_first());
    let in_key = Scan { state: ParseState::Key, key: key, ..k0 };
    assert(scan_from(k0, key) == in_key);
    let pre_value = with_state(in_key, ParseState::PreValue);
    let quoted = with_state(in_key, ParseState::DoubleQuoteValue);
    lemma_scan_one(in_key, '=');
    lemma_scan_one(pre_value, '"');
    lemma_scan_from_append(in_key, seq!['='], seq!['"']);
    assert(seq!['='] + seq!['"'] =~= seq!['=', '"']);
    lemma_scan_from_append(k0, key, seq!['=', '"']);
    assert(scan_from(k0, key + seq!['=', '"']) == quoted);
    lemma_plain_run(quoted, value);
    let read = Scan { value: value, ..quoted };
    assert(quoted.value + value =~= value);
    assert(scan_from(quoted, value) == read);
    lemma_scan_from_append(k0, key + seq!['=', '"'], value);
    let closed = with_state(read, ParseState::PreValue);
    lemma_scan_one(read, '"');
    lemma_scan_one(closed, '\n');
    lemma_scan_from_append(read, seq!['"'], seq!['\n']);
    assert(seq!['"'] + seq!['\n'] =~= seq!['"', '\n']);
    lemma_scan_from_append(k0, key + seq!['=', '"'] + value, seq!['"', '\n']);
    assert(is_plain(key.last()));
    lemma_trim_end_plain(key);
    assert(scan_from(k0, key + seq!['=', '"'] + value + seq!['"', '\n']).map == Map::<Seq<char>, Seq<char>>::empty().insert(key, value));
    assert(map![key => value] =~= Map::<Seq<char>, Seq<char>>::empty().insert(key, value));
}

} // verus!
