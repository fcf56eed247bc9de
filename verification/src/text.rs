//! Character-level helpers shared by the parsers and formatters of the crate.
use vstd::prelude::*;
use vstd::utf8::{decode_utf8, encode_utf8, valid_utf8};

verus! {

/// The value of an ASCII decimal digit.
pub open spec fn digit_value(c: char) -> int {
    (c as int) - ('0' as int)
}

pub open spec fn is_digit(c: char) -> bool {
    '0' <= c && c <= '9'
}

pub open spec fn all_digits(s: Seq<char>) -> bool {
    forall|i: int| 0 <= i < s.len() ==> #[trigger] is_digit(s[i])
}

/// The number that a sequence of decimal digits denotes.
pub open spec fn digits_value(s: Seq<char>) -> nat
    decreases s.len(),
{
    if s.len() == 0 {
        0
    } else {
        (digits_value(s.drop_last()) * 10 + digit_value(s.last())) as nat
    }
}

/// What `str::parse` gives for an unsigned integer type whose largest value is `max`:
/// an optional `+`, then at least one decimal digit, and a value that fits.
pub open spec fn spec_parse_unsigned(s: Seq<char>, max: int) -> Option<nat> {
    let body = if s.len() > 0 && s[0] == '+' { s.drop_first() } else { s };
    if body.len() == 0 || !all_digits(body) || digits_value(body) > max {
        None
    } else {
        Some(digits_value(body))
    }
}

/// What `str::parse::<i32>` gives: an optional sign, then at least one decimal digit, and a
/// value in the range of `i32`.
pub open spec fn spec_parse_i32(s: Seq<char>) -> Option<int> {
    if s.len() > 0 && s[0] == '-' {
        let body = s.drop_first();
        if body.len() == 0 || !all_digits(body) || digits_value(body) > 0x8000_0000 {
            None
        } else {
            Some(-(digits_value(body) as int))
        }
    } else {
        match spec_parse_unsigned(s, 0x7fff_ffff) {
            Some(v) => Some(v as int),
            None => None,
        }
    }
}

/// The decimal representation of a natural number, as `Display` writes it.
pub open spec fn decimal(n: nat) -> Seq<char>
    decreases n,
{
    if n < 10 {
        seq![digit_char(n)]
    } else {
        decimal(n / 10).push(digit_char(n % 10))
    }
}

pub open spec fn digit_char(d: nat) -> char {
    ((d + ('0' as nat)) as u32) as char
}

pub proof fn lemma_digits_value_prefix_grows(s: Seq<char>, j: int)
    requires
        all_digits(s),
        0 <= j <= s.len(),
    ensures
        digits_value(s.take(j)) <= digits_value(s),
    decreases s.len() - j,
{
    if j < s.len() {
        lemma_digits_value_prefix_grows(s, j + 1);
        assert(s.take(j + 1).drop_last() =~= s.take(j));
        assert(is_digit(s[j]));
    } else {
        assert(s.take(j) =~= s);
    }
}

/// The characters of a string slice.
pub fn str_chars(s: &str) -> (r: Vec<char>)
    ensures
        r@ == s@,
{
    let mut r: Vec<char> = Vec::new();
    for c in it: s.chars()
        invariant
            it.seq() == s@,
            r@ == it.seq().take(it.index() as int),
    {
        r.push(c);
    }
    r
}

/// Builds a `String` holding the given characters.
///
/// Trusted: calls std's `FromIterator<char> for String`, which collects the characters in
/// order; the contract claims the string's characters are those of the vector.
#[verifier::external_body]
pub(crate) fn chars_to_string(v: &Vec<char>) -> (s: String)
    ensures
        s@ == v@,
{
    v.iter().collect()
}

/// Parses the digits of `body` (all of them) as a decimal number no larger than `max`.
fn parse_digits(body: &[char], max: u64) -> (r: Option<u64>)
    requires
        max >= 9,
    ensures
        r matches Some(v) ==> body@.len() > 0 && all_digits(body@) && v == digits_value(body@)
            && v <= max,
        r is None ==> body@.len() == 0 || !all_digits(body@) || digits_value(body@) > max,
{
    if body.len() == 0 {
        return None;
    }
    let mut acc: u64 = 0;
    let mut i: usize = 0;
    while i < body.len()
        invariant
            0 <= i <= body@.len(),
            all_digits(body@.take(i as int)),
            acc == digits_value(body@.take(i as int)),
            acc <= max,
            max >= 9,
        decreases body@.len() - i,
    {
        let c = body[i];
        if !('0' <= c && c <= '9') {
            assert(!is_digit(body@[i as int]));
            return None;
        }
        let d: u64 = (c as u64) - ('0' as u64);
        assert(body@.take(i + 1).drop_last() =~= body@.take(i as int));
        if acc > (max - d) / 10 {
            proof {
                assert(acc * 10 + d > max) by (nonlinear_arith)
                    requires
                        acc > (max - d) / 10,
                        d <= 9,
                        max >= 9,
                ;
                if all_digits(body@) {
                    lemma_digits_value_prefix_grows(body@, i + 1);
                }
            }
            return None;
        }
        assert(acc * 10 + d <= max) by (nonlinear_arith)
            requires
                acc <= (max - d) / 10,
                d <= 9,
                max >= 9,
        ;
        acc = acc * 10 + d;
        i = i + 1;
        assert(all_digits(body@.take(i as int))) by {
            assert forall|k: int| 0 <= k < i implies #[trigger] is_digit(body@.take(i as int)[k]) by {
                if k < i - 1 {
                    assert(body@.take(i as int)[k] == body@.take(i - 1)[k]);
                }
            }
        }
    }
    assert(body@.take(i as int) =~= body@);
    Some(acc)
}

/// `str::parse` for an unsigned integer type whose largest value is `max`.
pub fn parse_unsigned(s: &[char], max: u64) -> (r: Option<u64>)
    requires
        max >= 9,
    ensures
        r matches Some(v) ==> spec_parse_unsigned(s@, max as int) == Some(v as nat),
        r is None ==> spec_parse_unsigned(s@, max as int) is None,
{
    if s.len() > 0 && s[0] == '+' {
        let body = slice_skip(s, 1);
        parse_digits(body, max)
    } else {
        parse_digits(s, max)
    }
}

/// The slice without its first `n` elements.
pub fn slice_skip<T>(s: &[T], n: usize) -> (r: &[T])
    requires
        n <= s@.len(),
    ensures
        r@ == s@.skip(n as int),
{
    let (_, r) = s.split_at(n);
    r
}

/// `str::parse::<u32>`.
pub fn parse_u32(s: &[char]) -> (r: Option<u32>)
    ensures
        r matches Some(v) ==> spec_parse_unsigned(s@, u32::MAX as int) == Some(v as nat),
        r is None ==> spec_parse_unsigned(s@, u32::MAX as int) is None,
{
    match parse_unsigned(s, 0xffff_ffff) {
        Some(v) => Some(v as u32),
        None => None,
    }
}

/// `str::parse::<u64>`.
pub fn parse_u64(s: &[char]) -> (r: Option<u64>)
    ensures
        r matches Some(v) ==> spec_parse_unsigned(s@, u64::MAX as int) == Some(v as nat),
        r is None ==> spec_parse_unsigned(s@, u64::MAX as int) is None,
{
    parse_unsigned(s, 0xffff_ffff_ffff_ffff)
}

/// `str::parse::<i32>`.
pub fn parse_i32(s: &[char]) -> (r: Option<i32>)
    ensures
        r matches Some(v) ==> spec_parse_i32(s@) == Some(v as int),
        r is None ==> spec_parse_i32(s@) is None,
{
    if s.len() > 0 && s[0] == '-' {
        let body = slice_skip(s, 1);
        assert(body@ =~= s@.drop_first());
        match parse_digits(body, 0x8000_0000) {
            Some(v) => {
                let w: i64 = 0i64 - (v as i64);
                Some(w as i32)
            },
            None => None,
        }
    } else {
        match parse_unsigned(s, 0x7fff_ffff) {
            Some(v) => Some(v as i32),
            None => None,
        }
    }
}

/// The decimal representation of `n`, as `Display` for integers writes it.
pub fn decimal_chars(n: u64) -> (r: Vec<char>)
    ensures
        r@ == decimal(n as nat),
    decreases n,
{
    if n < 10 {
        let c = digit(n);
        let mut r: Vec<char> = Vec::new();
        r.push(c);
        assert(r@ =~= seq![digit_char(n as nat)]);
        r
    } else {
        let mut r = decimal_chars(n / 10);
        r.push(digit(n % 10));
        r
    }
}

fn digit(d: u64) -> (c: char)
    requires
        d < 10,
    ensures
        c == digit_char(d as nat),
{
    if d == 0 { '0' }
    else if d == 1 { '1' }
    else if d == 2 { '2' }
    else if d == 3 { '3' }
    else if d == 4 { '4' }
    else if d == 5 { '5' }
    else if d == 6 { '6' }
    else if d == 7 { '7' }
    else if d == 8 { '8' }
    else { '9' }
}

} // verus!

verus! {

/// `str::strip_suffix`.
pub open spec fn spec_strip_suffix(s: Seq<char>, suffix: Seq<char>) -> Option<Seq<char>> {
    if suffix.len() <= s.len() && s.skip(s.len() - suffix.len()) == suffix {
        Some(s.take(s.len() - suffix.len()))
    } else {
        None
    }
}

/// `str::rsplit_once` with a character: the parts before and after its last occurrence.
pub open spec fn spec_rsplit_once(s: Seq<char>, c: char) -> Option<(Seq<char>, Seq<char>)>
    decreases s.len(),
{
    if s.len() == 0 {
        None
    } else if s.last() == c {
        Some((s.drop_last(), Seq::empty()))
    } else {
        match spec_rsplit_once(s.drop_last(), c) {
            Some((a, b)) => Some((a, b.push(s.last()))),
            None => None,
        }
    }
}

/// The prefix without the suffix, if the vector ends with it.
pub fn strip_suffix_chars(s: &Vec<char>, suffix: &Vec<char>) -> (r: Option<Vec<char>>)
    ensures
        r matches Some(v) ==> spec_strip_suffix(s@, suffix@) == Some(v@),
        r is None ==> spec_strip_suffix(s@, suffix@) is None,
{
    if suffix.len() > s.len() {
        return None;
    }
    let start = s.len() - suffix.len();
    let mut i: usize = 0;
    while i < suffix.len()
        invariant
            0 <= i <= suffix@.len(),
            start + suffix@.len() == s@.len(),
            s@.len() <= usize::MAX,
            forall|j: int| 0 <= j < i ==> s@[start + j] == suffix@[j],
        decreases suffix@.len() - i,
    {
        if s[start + i] != suffix[i] {
            assert(s@.skip(start as int)[i as int] != suffix@[i as int]);
            return None;
        }
        i = i + 1;
    }
    assert(s@.skip(start as int) =~= suffix@);
    let mut r: Vec<char> = Vec::new();
    let mut k: usize = 0;
    while k < start
        invariant
            0 <= k <= start,
            start <= s@.len(),
            r@ == s@.take(k as int),
        decreases start - k,
    {
        r.push(s[k]);
        k = k + 1;
        assert(r@ =~= s@.take(k as int));
    }
    Some(r)
}

/// The parts of `s` before and after the last occurrence of `c`.
pub fn rsplit_once_chars(s: &Vec<char>, c: char) -> (r: Option<(Vec<char>, Vec<char>)>)
    ensures
        r matches Some(p) ==> spec_rsplit_once(s@, c) == Some((p.0@, p.1@)),
        r is None ==> spec_rsplit_once(s@, c) is None,
{
    let mut i = s.len();
    // Look for the last occurrence, from the end.
    while i > 0 && s[i - 1] != c
        invariant
            0 <= i <= s@.len(),
            forall|j: int| i <= j < s@.len() ==> s@[j] != c,
        decreases i,
    {
        i = i - 1;
    }
    if i == 0 {
        proof {
            lemma_rsplit_none(s@, c);
        }
        return None;
    }
    let pos = i - 1;
    let mut a: Vec<char> = Vec::new();
    let mut b: Vec<char> = Vec::new();
    let mut k: usize = 0;
    while k < pos
        invariant
            0 <= k <= pos,
            pos < s@.len(),
            a@ == s@.take(k as int),
        decreases pos - k,
    {
        a.push(s[k]);
        k = k + 1;
        assert(a@ =~= s@.take(k as int));
    }
    let mut k2: usize = pos + 1;
    while k2 < s.len()
        invariant
            pos + 1 <= k2 <= s@.len(),
            b@ == s@.subrange(pos + 1, k2 as int),
        decreases s@.len() - k2,
    {
        b.push(s[k2]);
        k2 = k2 + 1;
        assert(b@ =~= s@.subrange(pos + 1, k2 as int));
    }
    proof {
        lemma_rsplit_at(s@, c, pos as int);
    }
    Some((a, b))
}

proof fn lemma_rsplit_none(s: Seq<char>, c: char)
    requires
        forall|j: int| 0 <= j < s.len() ==> s[j] != c,
    ensures
        spec_rsplit_once(s, c) is None,
    decreases s.len(),
{
    if s.len() > 0 {
        lemma_rsplit_none(s.drop_last(), c);
    }
}

pub proof fn lemma_rsplit_at(s: Seq<char>, c: char, pos: int)
    requires
        0 <= pos < s.len(),
        s[pos] == c,
        forall|j: int| pos < j < s.len() ==> s[j] != c,
    ensures
        spec_rsplit_once(s, c) == Some((s.take(pos), s.subrange(pos + 1, s.len() as int))),
    decreases s.len(),
{
    if pos == s.len() - 1 {
        assert(s.drop_last() =~= s.take(pos));
        assert(s.subrange(pos + 1, s.len() as int) =~= Seq::<char>::empty());
    } else {
        lemma_rsplit_at(s.drop_last(), c, pos);
        assert(s.drop_last().take(pos) =~= s.take(pos));
        assert(s.drop_last().subrange(pos + 1, s.len() - 1).push(s.last()) =~= s.subrange(
            pos + 1,
            s.len() as int,
        ));
    }
}

/// Appends the characters of a string slice.
pub fn push_str(dst: &mut Vec<char>, s: &str)
    ensures
        final(dst)@ == old(dst)@ + s@,
{
    let sc = str_chars(s);
    let mut i: usize = 0;
    while i < sc.len()
        invariant
            0 <= i <= sc@.len(),
            sc@ == s@,
            dst@ == old(dst)@ + sc@.take(i as int),
        decreases sc@.len() - i,
    {
        dst.push(sc[i]);
        i = i + 1;
        assert(dst@ =~= old(dst)@ + sc@.take(i as int));
    }
    assert(sc@.take(i as int) =~= sc@);
}

/// Appends the characters of another vector.
pub fn push_chars(dst: &mut Vec<char>, s: &Vec<char>)
    ensures
        final(dst)@ == old(dst)@ + s@,
{
    let mut i: usize = 0;
    while i < s.len()
        invariant
            0 <= i <= s@.len(),
            dst@ == old(dst)@ + s@.take(i as int),
        decreases s@.len() - i,
    {
        dst.push(s[i]);
        i = i + 1;
        assert(dst@ =~= old(dst)@ + s@.take(i as int));
    }
    assert(s@.take(i as int) =~= s@);
}

/// The parts joined with `sep` between each two neighbours.
pub open spec fn joined(parts: Seq<Seq<char>>, sep: Seq<char>) -> Seq<char>
    decreases parts.len(),
{
    if parts.len() == 0 {
        Seq::empty()
    } else if parts.len() == 1 {
        parts[0]
    } else {
        joined(parts.drop_last(), sep) + sep + parts.last()
    }
}

/// The characters of each string.
pub open spec fn strings_view(v: Seq<String>) -> Seq<Seq<char>> {
    v.map_values(|s: String| s@)
}

/// `[String]::join`: the strings with `sep` between each two neighbours.
pub fn join_strings(parts: &[String], sep: &str) -> (r: String)
    ensures
        r@ == joined(strings_view(parts@), sep@),
{
    let ghost ps = strings_view(parts@);
    let mut out: Vec<char> = Vec::new();
    let mut i: usize = 0;
    while i < parts.len()
        invariant
            0 <= i <= parts@.len(),
            ps == strings_view(parts@),
            out@ == joined(ps.take(i as int), sep@),
        decreases parts@.len() - i,
    {
        if i > 0 {
            push_str(&mut out, sep);
        }
        push_str(&mut out, parts[i].as_str());
        i = i + 1;
        assert(ps.take(i as int).drop_last() =~= ps.take(i - 1));
        assert(out@ =~= joined(ps.take(i as int), sep@));
    }
    assert(ps.take(i as int) =~= ps);
    chars_to_string(&out)
}

/// `String::from_utf8`: the text that the bytes encode, or `None` where they are not UTF-8.
///
/// Trusted: calls std's `String::from_utf8`, which the documentation says fails exactly when
/// the bytes are not valid UTF-8 and otherwise keeps the bytes as they are; the contract
/// claims that and that the text's UTF-8 encoding is the bytes.
#[verifier::external_body]
pub(crate) fn string_from_utf8(bytes: Vec<u8>) -> (r: Option<String>)
    ensures
        r is Some <==> valid_utf8(bytes@),
        r matches Some(s) ==> encode_utf8(s@) == bytes@,
{
    String::from_utf8(bytes).ok()
}

/// The text that valid UTF-8 bytes encode.
pub open spec fn utf8_text(bytes: Seq<u8>) -> Option<Seq<char>> {
    if valid_utf8(bytes) {
        Some(decode_utf8(bytes))
    } else {
        None
    }
}

/// The first position at or after `i` where `pat` occurs in `s`.
pub open spec fn spec_find_from(s: Seq<char>, pat: Seq<char>, i: int) -> Option<int>
    decreases s.len() + 1 - i,
{
    if i < 0 || i + pat.len() > s.len() {
        None
    } else if s.subrange(i, i + pat.len()) == pat {
        Some(i)
    } else {
        spec_find_from(s, pat, i + 1)
    }
}

/// `str::split_once`: the text before and after the first occurrence of `pat`.
pub open spec fn spec_split_once(s: Seq<char>, pat: Seq<char>) -> Option<(Seq<char>, Seq<char>)> {
    match spec_find_from(s, pat, 0) {
        Some(i) => Some((s.take(i), s.skip(i + pat.len()))),
        None => None,
    }
}

/// Whether `pat` occurs in `s` at `i`.
fn occurs_at(s: &Vec<char>, pat: &Vec<char>, i: usize) -> (r: bool)
    requires
        i + pat@.len() <= s@.len(),
    ensures
        r == (s@.subrange(i as int, i + pat@.len()) == pat@),
{
    let slen = s.len();
    let mut k: usize = 0;
    while k < pat.len()
        invariant
            0 <= k <= pat@.len(),
            i + pat@.len() <= s@.len(),
            s@.len() == slen,
            s@.subrange(i as int, i + k) == pat@.take(k as int),
        decreases pat@.len() - k,
    {
        if s[i + k] != pat[k] {
            assert(s@.subrange(i as int, i + pat@.len())[k as int] != pat@[k as int]);
            return false;
        }
        k = k + 1;
        assert(s@.subrange(i as int, i + k) =~= pat@.take(k as int));
    }
    assert(pat@.take(k as int) =~= pat@);
    true
}

/// The first position where `pat` occurs in `s`.
pub fn find_chars(s: &Vec<char>, pat: &Vec<char>) -> (r: Option<usize>)
    ensures
        r matches Some(i) ==> spec_find_from(s@, pat@, 0) == Some(i as int) && i + pat@.len() <= s@.len(),
        r is None ==> spec_find_from(s@, pat@, 0) is None,
{
    if pat.len() > s.len() {
        return None;
    }
    let last = s.len() - pat.len();
    let mut i: usize = 0;
    while i <= last
        invariant
            last + pat@.len() == s@.len(),
            spec_find_from(s@, pat@, 0) == spec_find_from(s@, pat@, i as int),
        decreases last + 1 - i,
    {
        if occurs_at(s, pat, i) {
            return Some(i);
        }
        if i == last {
            assert(spec_find_from(s@, pat@, i + 1) is None);
            return None;
        }
        i = i + 1;
    }
    None
}

/// `str::split_once` on character vectors.
pub fn split_once_chars(s: &Vec<char>, pat: &Vec<char>) -> (r: Option<(Vec<char>, Vec<char>)>)
    ensures
        r matches Some(p) ==> spec_split_once(s@, pat@) == Some((p.0@, p.1@)),
        r is None ==> spec_split_once(s@, pat@) is None,
{
    match find_chars(s, pat) {
        None => None,
        Some(i) => {
            let mut a: Vec<char> = Vec::new();
            let mut k: usize = 0;
            while k < i
                invariant
                    0 <= k <= i <= s@.len(),
                    a@ == s@.take(k as int),
                decreases i - k,
            {
                a.push(s[k]);
                k = k + 1;
                assert(a@ =~= s@.take(k as int));
            }
            let mut b: Vec<char> = Vec::new();
            let slen = s.len();
            let mut m: usize = i + pat.len();
            let ghost start = m as int;
            while m < s.len()
                invariant
                    start <= m <= s@.len(),
                    0 <= start,
                    b@ == s@.subrange(start, m as int),
                decreases s@.len() - m,
            {
                b.push(s[m]);
                m = m + 1;
                assert(b@ =~= s@.subrange(start, m as int));
            }
            assert(b@ =~= s@.skip(start));
            Some((a, b))
        },
    }
}

/// Parsing with a smaller largest value gives the same number where it fits, and nothing
/// otherwise.
pub proof fn lemma_parse_unsigned_smaller(s: Seq<char>, small: int, big: int)
    requires
        small <= big,
    ensures
        spec_parse_unsigned(s, big) is None ==> spec_parse_unsigned(s, small) is None,
        spec_parse_unsigned(s, big) matches Some(n) ==> spec_parse_unsigned(s, small) == (if n <= small {
            Some(n)
        } else {
            None::<nat>
        }),
{
}

/// A digit character is a digit and denotes its value.
pub proof fn lemma_digit_char(d: nat)
    requires
        d < 10,
    ensures
        is_digit(digit_char(d)),
        digit_value(digit_char(d)) == d,
{
}

/// The decimal representation of a number is a non-empty run of digits that denotes it.
pub proof fn lemma_decimal_digits(n: nat)
    ensures
        decimal(n).len() > 0,
        all_digits(decimal(n)),
        digits_value(decimal(n)) == n,
    decreases n,
{
    let s = decimal(n);
    if n < 10 {
        lemma_digit_char(n);
        assert(s.drop_last() =~= Seq::<char>::empty());
        assert(digits_value(s) == digits_value(s.drop_last()) * 10 + digit_value(s.last()));
    } else {
        lemma_decimal_digits(n / 10);
        lemma_digit_char(n % 10);
        assert(s.drop_last() =~= decimal(n / 10));
        assert((n / 10) * 10 + n % 10 == n) by (nonlinear_arith);
        assert(s.last() == digit_char(n % 10));
        assert(digits_value(s) == digits_value(s.drop_last()) * 10 + digit_value(s.last()));
        assert forall|i: int| 0 <= i < s.len() implies #[trigger] is_digit(s[i]) by {
            if i < s.len() - 1 {
                assert(s[i] == decimal(n / 10)[i]);
            }
        }
    }
}

} // verus!
