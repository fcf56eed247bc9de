//! Companion initrds: CPIO archives assembled at boot from files found next to the image
//! (credentials, system extensions), and what of them is measured into which PCR.
use vstd::prelude::*;
use vstd::string::StringSliceAdditionalSpecFns;
use vstd::utf8::encode_utf8;

use crate::cpio::{
    entry_bytes, entry_name, pack_one_error, pack_one_fits, regular_mode, spec_pack_prefix,
    trailer_name, CPIOError, Cpio, CpioState,
};
use crate::strmap::{chars_lt, lemma_lex_irreflexive, lemma_lex_transitive, lemma_lex_trichotomy, lex_lt};
use crate::text::{chars_to_string, rsplit_once_chars, spec_rsplit_once, str_chars};

verus! {

/// The kinds of companion initrds.
#[derive(Debug, Clone, Copy, PartialEq, Eq, Structural)]
pub enum CompanionInitrdType {
    Credentials,
    GlobalCredentials,
    SystemExtension,
    PcrSignature,
    PcrPublicKey,
}

/// A companion initrd assembled during boot from files found in drop-in directories.
pub struct CompanionInitrd {
    pub kind: CompanionInitrdType,
    pub cpio: Cpio,
}

/// A file to pack: its path and its contents.
pub type FileEntry = (String, Vec<u8>);

/// A file to pack as plain values.
pub open spec fn file_view(f: FileEntry) -> (Seq<char>, Seq<u8>) {
    (f.0@, f.1@)
}

/// Files as plain values.
pub open spec fn files_view(fs: Seq<FileEntry>) -> Seq<(Seq<char>, Seq<u8>)> {
    fs.map_values(|f: FileEntry| file_view(f))
}

/// Where `x` goes in a sorted sequence: before the first element whose path is greater, so
/// that files with equal paths keep their order.
pub open spec fn insert_position(s: Seq<(Seq<char>, Seq<u8>)>, x: (Seq<char>, Seq<u8>)) -> int
    decreases s.len(),
{
    if s.len() == 0 {
        0
    } else if lex_lt(x.0, s.last().0) {
        insert_position(s.drop_last(), x)
    } else {
        s.len() as int
    }
}

/// The files sorted by path, stably (insertion sort).
pub open spec fn sorted_by_path(fs: Seq<(Seq<char>, Seq<u8>)>) -> Seq<(Seq<char>, Seq<u8>)>
    decreases fs.len(),
{
    if fs.len() == 0 {
        Seq::empty()
    } else {
        let s = sorted_by_path(fs.drop_last());
        s.insert(insert_position(s, fs.last()), fs.last())
    }
}

/// Paths ascending.
pub open spec fn paths_ascending(s: Seq<(Seq<char>, Seq<u8>)>) -> bool {
    forall|i: int, j: int| 0 <= i < j < s.len() ==> !lex_lt(#[trigger] s[j].0, #[trigger] s[i].0)
}

proof fn lemma_insert_position(s: Seq<(Seq<char>, Seq<u8>)>, x: (Seq<char>, Seq<u8>))
    requires
        paths_ascending(s),
    ensures
        0 <= insert_position(s, x) <= s.len(),
        forall|k: int| 0 <= k < insert_position(s, x) ==> !lex_lt(x.0, #[trigger] s[k].0),
        forall|k: int| insert_position(s, x) <= k < s.len() ==> lex_lt(x.0, #[trigger] s[k].0),
    decreases s.len(),
{
    if s.len() > 0 {
        let p = s.drop_last();
        assert(paths_ascending(p)) by {
            assert forall|i: int, j: int| 0 <= i < j < p.len() implies !lex_lt(#[trigger] p[j].0, #[trigger] p[i].0) by {
                assert(p[i] == s[i] && p[j] == s[j]);
            }
        }
        lemma_insert_position(p, x);
        if lex_lt(x.0, s.last().0) {
            assert forall|k: int| 0 <= k < insert_position(s, x) implies !lex_lt(x.0, #[trigger] s[k].0) by {
                assert(p[k] == s[k]);
            }
            assert forall|k: int| insert_position(s, x) <= k < s.len() implies lex_lt(x.0, #[trigger] s[k].0) by {
                if k < s.len() - 1 {
                    assert(p[k] == s[k]);
                }
            }
        } else {
            assert forall|k: int| 0 <= k < s.len() implies !lex_lt(x.0, #[trigger] s[k].0) by {
                if k < s.len() - 1 {
                    assert(!lex_lt(s[s.len() - 1].0, s[k].0));
                    lemma_lex_trichotomy(s[k].0, s.last().0);
                    if lex_lt(x.0, s[k].0) {
                        if lex_lt(s[k].0, s.last().0) {
                            lemma_lex_transitive(x.0, s[k].0, s.last().0);
                        }
                    }
                } else {
                    assert(s[k] == s.last());
                }
            }
        }
    }
}

/// Files are packed in ascending path order, each of them exactly once.
pub proof fn law_files_sorted_by_path(fs: Seq<(Seq<char>, Seq<u8>)>)
    ensures
        paths_ascending(sorted_by_path(fs)),
        sorted_by_path(fs).to_multiset() == fs.to_multiset(),
        sorted_by_path(fs).len() == fs.len(),
    decreases fs.len(),
{
    broadcast use vstd::seq_lib::group_to_multiset_ensures;
    if fs.len() > 0 {
        let p = fs.drop_last();
        law_files_sorted_by_path(p);
        let s = sorted_by_path(p);
        let x = fs.last();
        lemma_insert_position(s, x);
        let pos = insert_position(s, x);
        let t = s.insert(pos, x);
        assert forall|i: int, j: int| 0 <= i < j < t.len() implies !lex_lt(#[trigger] t[j].0, #[trigger] t[i].0) by {
            if j < pos {
                assert(t[i] == s[i] && t[j] == s[j]);
            } else if j == pos {
                assert(t[j] == x && t[i] == s[i]);
            } else if i < pos {
                assert(t[i] == s[i] && t[j] == s[j - 1]);
                // s[i] <= s[j-1]
            } else if i == pos {
                assert(t[i] == x && t[j] == s[j - 1]);
                assert(lex_lt(x.0, s[j - 1].0));
                lemma_lex_trichotomy(x.0, s[j - 1].0);
            } else {
                assert(t[i] == s[i - 1] && t[j] == s[j - 1]);
            }
        }
        assert(t.remove(pos) =~= s);
        assert(t[pos] == x);
        assert(t.to_multiset().remove(x) =~= s.to_multiset());
        assert(t.contains(x));
        assert(t.to_multiset() =~= s.to_multiset().insert(x));
        assert(p.push(x) =~= fs);
    }
}

/// Files at the same path are the same file.
pub open spec fn paths_identify(fs: Seq<(Seq<char>, Seq<u8>)>) -> bool {
    forall|x: (Seq<char>, Seq<u8>), y: (Seq<char>, Seq<u8>)|
        #![trigger fs.contains(x), fs.contains(y)]
        fs.contains(x) && fs.contains(y) && x.0 == y.0 ==> x == y
}

/// Two sequences sorted by path that hold the same files, where files at the same path are
/// the same, are equal.
proof fn lemma_sorted_unique(s: Seq<(Seq<char>, Seq<u8>)>, t: Seq<(Seq<char>, Seq<u8>)>)
    requires
        paths_ascending(s),
        paths_ascending(t),
        s.to_multiset() == t.to_multiset(),
        paths_identify(s),
    ensures
        s == t,
    decreases s.len(),
{
    broadcast use vstd::seq_lib::group_to_multiset_ensures;
    if s.len() == 0 {
        assert(t.to_multiset().len() == 0);
        assert(t =~= s);
    } else {
        assert(s.len() == s.to_multiset().len());
        assert(t.len() == t.to_multiset().len());
        let x = s[0];
        let y = t[0];
        assert(s.contains(x));
        assert(s.to_multiset().count(x) > 0);
        assert(t.contains(x));
        assert(t.contains(y));
        assert(t.to_multiset().count(y) > 0);
        assert(s.contains(y));
        let j = choose|j: int| 0 <= j < t.len() && t[j] == x;
        let k = choose|k: int| 0 <= k < s.len() && s[k] == y;
        if j > 0 {
            assert(!lex_lt(t[j].0, t[0].0));
        }
        if k > 0 {
            assert(!lex_lt(s[k].0, s[0].0));
        }
        lemma_lex_irreflexive(x.0);
        assert(!lex_lt(x.0, y.0));
        assert(!lex_lt(y.0, x.0));
        lemma_lex_trichotomy(x.0, y.0);
        assert(x.0 == y.0);
        assert(x == y);
        let s1 = s.drop_first();
        let t1 = t.drop_first();
        assert(s.remove(0) =~= s1);
        assert(t.remove(0) =~= t1);
        assert(s1.to_multiset() == s.to_multiset().remove(x));
        assert(t1.to_multiset() == t.to_multiset().remove(y));
        assert forall|i: int, j2: int| 0 <= i < j2 < s1.len() implies !lex_lt(#[trigger] s1[j2].0, #[trigger] s1[i].0) by {
            assert(s1[i] == s[i + 1] && s1[j2] == s[j2 + 1]);
        }
        assert forall|i: int, j2: int| 0 <= i < j2 < t1.len() implies !lex_lt(#[trigger] t1[j2].0, #[trigger] t1[i].0) by {
            assert(t1[i] == t[i + 1] && t1[j2] == t[j2 + 1]);
        }
        assert forall|a: (Seq<char>, Seq<u8>), b: (Seq<char>, Seq<u8>)|
            s1.contains(a) && s1.contains(b) && a.0 == b.0 implies a == b by {
            let ia = choose|i: int| 0 <= i < s1.len() && s1[i] == a;
            let ib = choose|i: int| 0 <= i < s1.len() && s1[i] == b;
            assert(s[ia + 1] == a && s[ib + 1] == b);
            assert(s.contains(a) && s.contains(b));
        }
        lemma_sorted_unique(s1, t1);
        assert(s =~= seq![x] + s1);
        assert(t =~= seq![y] + t1);
    }
}

/// The archive does not depend on the order in which the files were found: the same files,
/// where files at the same path are the same, are packed in the same order and give the same
/// archive (or the same error).
pub proof fn law_archive_independent_of_order(
    a: Seq<(Seq<char>, Seq<u8>)>,
    b: Seq<(Seq<char>, Seq<u8>)>,
    prefix: Seq<u8>,
    dir_mode: u32,
    access_mode: u32,
)
    requires
        a.to_multiset() == b.to_multiset(),
        paths_identify(a),
    ensures
        sorted_by_path(a) == sorted_by_path(b),
        spec_pack_cpio(a, prefix, dir_mode, access_mode) == spec_pack_cpio(b, prefix, dir_mode, access_mode),
{
    broadcast use vstd::seq_lib::group_to_multiset_ensures;
    law_files_sorted_by_path(a);
    law_files_sorted_by_path(b);
    let sa = sorted_by_path(a);
    let sb = sorted_by_path(b);
    assert forall|x: (Seq<char>, Seq<u8>), y: (Seq<char>, Seq<u8>)|
        sa.contains(x) && sa.contains(y) && x.0 == y.0 implies x == y by {
        assert(sa.to_multiset().count(x) > 0 && sa.to_multiset().count(y) > 0);
        assert(a.to_multiset().count(x) > 0 && a.to_multiset().count(y) > 0);
        assert(a.contains(x) && a.contains(y));
    }
    lemma_sorted_unique(sa, sb);
}

/// The sorted position of `x` among the sorted files `out`.
fn find_insert_position(out: &Vec<FileEntry>, x: &FileEntry) -> (r: usize)
    ensures
        r as int == insert_position(files_view(out@), file_view(*x)),
{
    let xc = str_chars(x.0.as_str());
    let mut k = out.len();
    let ghost s = files_view(out@);
    assert(s.take(k as int) =~= s);
    // scan from the end, as the recursive definition does
    while k > 0
        invariant
            0 <= k <= out@.len(),
            s == files_view(out@),
            xc@ == x.0@,
            insert_position(s, file_view(*x)) == insert_position(s.take(k as int), file_view(*x)),
        decreases k,
    {
        let kc = str_chars(out[k - 1].0.as_str());
        assert(s.take(k as int).drop_last() =~= s.take(k - 1));
        assert(s.take(k as int).last() == file_view(out@[k - 1]));
        if chars_lt(&xc, &kc) {
            k = k - 1;
        } else {
            return k;
        }
    }
    k
}

/// Sorts files by path, stably, for a reproducible archive layout.
pub fn sort_files(files: Vec<FileEntry>) -> (r: Vec<FileEntry>)
    ensures
        files_view(r@) == sorted_by_path(files_view(files@)),
{
    let ghost fv = files_view(files@);
    let mut rest = files;
    let mut out: Vec<FileEntry> = Vec::new();
    let ghost mut k: int = 0;
    assert(fv.take(0) =~= Seq::<(Seq<char>, Seq<u8>)>::empty());
    while rest.len() > 0
        invariant
            0 <= k <= fv.len(),
            rest@.len() == fv.len() - k,
            files_view(rest@) == fv.skip(k),
            files_view(out@) == sorted_by_path(fv.take(k)),
        decreases rest@.len(),
    {
        let ghost old_rest = rest@;
        let x = rest.remove(0);
        proof {
            assert(files_view(old_rest)[0] == file_view(old_rest[0]));
            assert(fv.skip(k)[0] == fv[k]);
            assert(file_view(x) == fv[k]);
            assert(fv.take(k + 1).drop_last() =~= fv.take(k));
            assert(fv.take(k + 1).last() == fv[k]);
            assert(files_view(rest@) =~= files_view(old_rest).drop_first());
            assert(fv.skip(k).drop_first() =~= fv.skip(k + 1));
            law_files_sorted_by_path(fv.take(k));
            lemma_insert_position(files_view(out@), file_view(x));
        }
        let pos = find_insert_position(&out, &x);
        let ghost before = out@;
        let ghost xv = file_view(x);
        out.insert(pos, x);
        proof {
            assert(files_view(out@) =~= files_view(before).insert(pos as int, xv));
            k = k + 1;
        }
    }
    assert(fv.take(k) =~= fv);
    out
}

/// The last piece of a UEFI path: the text after its last backslash.
pub open spec fn base_name(p: Seq<char>) -> Seq<char> {
    match spec_rsplit_once(p, '\\') {
        Some(parts) => parts.1,
        None => p,
    }
}

/// The file name of a UEFI path.
pub fn file_base_name(path: &str) -> (r: String)
    ensures
        r@ == base_name(path@),
{
    let c = str_chars(path);
    match rsplit_once_chars(&c, '\\') {
        Some((_, b)) => chars_to_string(&b),
        None => chars_to_string(&c),
    }
}

/// One `pack_one` step on an archive state: its new state, or the error.
pub open spec fn spec_pack_one(st: CpioState, name: Seq<u8>, contents: Seq<u8>, prefix: Seq<u8>, mode: u32) -> (CpioState, Option<CPIOError>) {
    match pack_one_error(st.bytes.len(), st.inodes, name.len(), contents.len(), prefix.len()) {
        Some(e) => (st, Some(e)),
        None => (
            CpioState {
                bytes: st.bytes + entry_bytes(entry_name(name, prefix), (st.inodes + 1) as u32, regular_mode(mode), contents),
                inodes: (st.inodes + 1) as u32,
            },
            None,
        ),
    }
}

/// `pack_one` for each file in turn, under its base name; stops at the first error.
pub open spec fn spec_pack_files(st: CpioState, files: Seq<(Seq<char>, Seq<u8>)>, prefix: Seq<u8>, mode: u32) -> (CpioState, Option<CPIOError>)
    decreases files.len(),
{
    if files.len() == 0 {
        (st, None)
    } else {
        let (s1, e1) = spec_pack_files(st, files.drop_last(), prefix, mode);
        if e1 is Some {
            (s1, e1)
        } else {
            spec_pack_one(s1, encode_utf8(base_name(files.last().0)), files.last().1, prefix, mode)
        }
    }
}

/// No `pack_one` step of `spec_pack_files` overflows where it reports no error.
pub open spec fn pack_files_safe(st: CpioState, files: Seq<(Seq<char>, Seq<u8>)>, prefix: Seq<u8>) -> bool
    decreases files.len(),
{
    files.len() == 0 || {
        let (s1, e1) = spec_pack_files(st, files.drop_last(), prefix, 0);
        &&& pack_files_safe(st, files.drop_last(), prefix)
        &&& (e1 is None ==> {
            let name = encode_utf8(base_name(files.last().0));
            pack_one_error(s1.bytes.len(), s1.inodes, name.len(), files.last().1.len(), prefix.len()) is None
                ==> pack_one_fits(s1.bytes.len(), name, files.last().1.len(), prefix)
        })
    }
}

proof fn lemma_pack_files_mode_free(st: CpioState, files: Seq<(Seq<char>, Seq<u8>)>, prefix: Seq<u8>, m1: u32, m2: u32)
    ensures
        spec_pack_files(st, files, prefix, m1).0.bytes.len() == spec_pack_files(st, files, prefix, m2).0.bytes.len(),
        spec_pack_files(st, files, prefix, m1).0.inodes == spec_pack_files(st, files, prefix, m2).0.inodes,
        spec_pack_files(st, files, prefix, m1).1 == spec_pack_files(st, files, prefix, m2).1,
    decreases files.len(),
{
    if files.len() > 0 {
        lemma_pack_files_mode_free(st, files.drop_last(), prefix, m1, m2);
        let (a, ea) = spec_pack_files(st, files.drop_last(), prefix, m1);
        let (b, eb) = spec_pack_files(st, files.drop_last(), prefix, m2);
        if ea is None {
            let name = encode_utf8(base_name(files.last().0));
            let c = files.last().1;
            if pack_one_error(a.bytes.len(), a.inodes, name.len(), c.len(), prefix.len()) is None {
                lemma_entry_bytes_len_mode_free(entry_name(name, prefix), (a.inodes + 1) as u32, regular_mode(m1), regular_mode(m2), c);
            }
        }
    }
}

proof fn lemma_entry_bytes_len_mode_free(name: Seq<u8>, ino: u32, m1: u32, m2: u32, c: Seq<u8>)
    ensures
        entry_bytes(name, ino, m1, c).len() == entry_bytes(name, ino, m2, c).len(),
{
    crate::cpio::lemma_entry_len(name, ino, m1, c);
    crate::cpio::lemma_entry_len(name, ino, m2, c);
    crate::cpio::lemma_header_len(name, ino, m1, c.len() as u32);
    crate::cpio::lemma_header_len(name, ino, m2, c.len() as u32);
}

/// What `pack_cpio` gives: the prefix directories, each file under its base name in path
/// order, and the trailer; or the first error.
pub open spec fn spec_pack_cpio(files: Seq<(Seq<char>, Seq<u8>)>, prefix: Seq<u8>, dir_mode: u32, access_mode: u32) -> Result<CpioState, CPIOError> {
    let empty = CpioState { bytes: Seq::empty(), inodes: 0 };
    let (s0, e0) = spec_pack_prefix(empty, prefix, dir_mode);
    match e0 {
        Some(e) => Err(e),
        None => {
            let (s1, e1) = spec_pack_files(s0, sorted_by_path(files), prefix, access_mode);
            match e1 {
                Some(e) => Err(e),
                None => {
                    let (s2, e2) = spec_pack_one(s1, trailer_name(), Seq::empty(), Seq::empty(), 0);
                    match e2 {
                        Some(e) => Err(e),
                        None => Ok(s2),
                    }
                },
            }
        },
    }
}

/// `pack_cpio` neither panics nor overflows on these files: the prefix is short enough, every
/// path has a base name, and no step that reports no error overflows.
pub open spec fn pack_cpio_safe(files: Seq<(Seq<char>, Seq<u8>)>, prefix: Seq<u8>, dir_mode: u32) -> bool {
    let empty = CpioState { bytes: Seq::empty(), inodes: 0 };
    let (s0, e0) = spec_pack_prefix(empty, prefix, dir_mode);
    &&& prefix.len() + 2 <= u32::MAX
    &&& prefix.len() + 115 <= usize::MAX
    &&& forall|i: int| 0 <= i < files.len() ==> base_name(#[trigger] files[i].0).len() > 0
    &&& e0 is None ==> {
        let (s1, e1) = spec_pack_files(s0, sorted_by_path(files), prefix, 0);
        &&& pack_files_safe(s0, sorted_by_path(files), prefix)
        &&& e1 is None ==> (pack_one_error(s1.bytes.len(), s1.inodes, 10, 0, 0) is None
            ==> pack_one_fits(s1.bytes.len(), trailer_name(), 0, Seq::empty()))
    }
}

proof fn lemma_pack_files_safe_prefix(st: CpioState, files: Seq<(Seq<char>, Seq<u8>)>, prefix: Seq<u8>, k: int)
    requires
        0 <= k <= files.len(),
        pack_files_safe(st, files, prefix),
    ensures
        pack_files_safe(st, files.take(k), prefix),
    decreases files.len() - k,
{
    if k == files.len() {
        assert(files.take(k) =~= files);
    } else {
        assert(files.drop_last().take(k) =~= files.take(k));
        lemma_pack_files_safe_prefix(st, files.drop_last(), prefix, k);
    }
}

/// A CPIO archive of in-memory files that unpacks to `target_dir_prefix`: the prefix
/// directories (the last with `dir_mode`, the others `0o555`), then each file under its base
/// name with `access_mode`, sorted by path so that the archive, and so its measurement, does
/// not depend on the order in which the files were found; then the trailer.
pub fn pack_cpio(files: Vec<FileEntry>, target_dir_prefix: &str, dir_mode: u32, access_mode: u32) -> (r: Result<Cpio, CPIOError>)
    requires
        pack_cpio_safe(files_view(files@), target_dir_prefix.spec_bytes(), dir_mode),
    ensures
        match spec_pack_cpio(files_view(files@), target_dir_prefix.spec_bytes(), dir_mode, access_mode) {
            Ok(st) => r matches Ok(c) && c@ == st,
            Err(e) => r == Err::<Cpio, CPIOError>(e),
        },
{
    let ghost fv = files_view(files@);
    let ghost prefix = target_dir_prefix.spec_bytes();
    let ghost empty = CpioState { bytes: Seq::empty(), inodes: 0 };
    let mut cpio = Cpio::new();
    assert(cpio@ == empty);
    let sorted = sort_files(files);
    let ghost sv = files_view(sorted@);
    match cpio.pack_prefix(target_dir_prefix, dir_mode) {
        Err(e) => return Err(e),
        Ok(()) => {},
    }
    let ghost s0 = cpio@;
    proof {
        assert(sv.take(0) =~= Seq::<(Seq<char>, Seq<u8>)>::empty());
    }
    let mut i: usize = 0;
    while i < sorted.len()
        invariant
            0 <= i <= sorted@.len(),
            sv == files_view(sorted@),
            sv == sorted_by_path(fv),
            prefix == target_dir_prefix.spec_bytes(),
            pack_files_safe(s0, sv, prefix),
            spec_pack_prefix(empty, prefix, dir_mode) == (s0, None::<CPIOError>),
            empty == (CpioState { bytes: Seq::empty(), inodes: 0 }),
            fv == files_view(files@),
            spec_pack_files(s0, sv.take(i as int), prefix, access_mode) == (cpio@, None::<CPIOError>),
        decreases sorted@.len() - i,
    {
        let name = file_base_name(sorted[i].0.as_str());
        proof {
            assert(sv[i as int] == file_view(sorted@[i as int]));
            lemma_pack_step(s0, sv, prefix, i as int, access_mode, cpio@);
        }
        match cpio.pack_one(name.as_str(), sorted[i].1.as_slice(), target_dir_prefix, access_mode) {
            Err(e) => {
                proof {
                    lemma_pack_files_error_stays(s0, sv, prefix, access_mode, i + 1);
                }
                return Err(e);
            },
            Ok(_) => {},
        }
        i = i + 1;
    }
    assert(sv.take(i as int) =~= sv);
    proof {
        lemma_pack_files_mode_free(s0, sv, prefix, 0, access_mode);
        law_files_sorted_by_path(fv);
    }
    match cpio.pack_trailer() {
        Err(e) => Err(e),
        Ok(_) => Ok(cpio),
    }
}

proof fn lemma_pack_files_error_stays(st: CpioState, files: Seq<(Seq<char>, Seq<u8>)>, prefix: Seq<u8>, mode: u32, k: int)
    requires
        0 <= k <= files.len(),
        spec_pack_files(st, files.take(k), prefix, mode).1 is Some,
    ensures
        spec_pack_files(st, files, prefix, mode) == spec_pack_files(st, files.take(k), prefix, mode),
    decreases files.len() - k,
{
    if k == files.len() {
        assert(files.take(k) =~= files);
    } else {
        assert(files.take(k + 1).drop_last() =~= files.take(k));
        lemma_pack_files_error_stays(st, files, prefix, mode, k + 1);
    }
}

proof fn lemma_pack_step(s0: CpioState, sv: Seq<(Seq<char>, Seq<u8>)>, prefix: Seq<u8>, i: int, mode: u32, cur: CpioState)
    requires
        0 <= i < sv.len(),
        pack_files_safe(s0, sv, prefix),
        spec_pack_files(s0, sv.take(i), prefix, mode) == (cur, None::<CPIOError>),
    ensures
        ({
            let name = encode_utf8(base_name(sv[i].0));
            &&& pack_one_error(cur.bytes.len(), cur.inodes, name.len(), sv[i].1.len(), prefix.len()) is None
                ==> pack_one_fits(cur.bytes.len(), name, sv[i].1.len(), prefix)
            &&& spec_pack_files(s0, sv.take(i + 1), prefix, mode) == spec_pack_one(cur, name, sv[i].1, prefix, mode)
        }),
{
    let t = sv.take(i + 1);
    assert(t.drop_last() =~= sv.take(i));
    assert(t.last() == sv[i]);
    lemma_pack_files_safe_prefix(s0, sv, prefix, i + 1);
    lemma_pack_files_mode_free(s0, sv.take(i), prefix, 0, mode);
}

/// What `pack_cpio_literal` gives: the prefix directories, the one file, and the trailer; or
/// the first error.
pub open spec fn spec_pack_cpio_literal(contents: Seq<u8>, name: Seq<u8>, prefix: Seq<u8>, dir_mode: u32, access_mode: u32) -> Result<CpioState, CPIOError> {
    let empty = CpioState { bytes: Seq::empty(), inodes: 0 };
    let (s0, e0) = spec_pack_prefix(empty, prefix, dir_mode);
    match e0 {
        Some(e) => Err(e),
        None => {
            let (s1, e1) = spec_pack_one(s0, name, contents, prefix, access_mode);
            match e1 {
                Some(e) => Err(e),
                None => {
                    let (s2, e2) = spec_pack_one(s1, trailer_name(), Seq::empty(), Seq::empty(), 0);
                    match e2 {
                        Some(e) => Err(e),
                        None => Ok(s2),
                    }
                },
            }
        },
    }
}

/// `pack_cpio_literal` neither panics nor overflows.
pub open spec fn pack_cpio_literal_safe(contents_len: nat, name: Seq<u8>, prefix: Seq<u8>, dir_mode: u32) -> bool {
    let empty = CpioState { bytes: Seq::empty(), inodes: 0 };
    let (s0, e0) = spec_pack_prefix(empty, prefix, dir_mode);
    &&& prefix.len() + 2 <= u32::MAX
    &&& prefix.len() + 115 <= usize::MAX
    &&& e0 is None ==> {
        &&& pack_one_error(s0.bytes.len(), s0.inodes, name.len(), contents_len, prefix.len()) is None
            ==> pack_one_fits(s0.bytes.len(), name, contents_len, prefix)
        &&& pack_one_error(s0.bytes.len(), s0.inodes, name.len(), contents_len, prefix.len()) is None ==> {
            let s1 = spec_pack_one(s0, name, Seq::new(contents_len, |i: int| 0u8), prefix, 0).0;
            pack_one_error(s1.bytes.len(), s1.inodes, 10, 0, 0) is None
                ==> pack_one_fits(s1.bytes.len(), trailer_name(), 0, Seq::empty())
        }
    }
}

/// A CPIO archive of one in-memory file under `target_dir_prefix`, like `pack_cpio` for a
/// single file that is already in memory.
pub fn pack_cpio_literal(contents: &[u8], target_filename: &str, target_dir_prefix: &str, dir_mode: u32, access_mode: u32) -> (r: Result<Cpio, CPIOError>)
    requires
        pack_cpio_literal_safe(contents@.len(), target_filename.spec_bytes(), target_dir_prefix.spec_bytes(), dir_mode),
    ensures
        match spec_pack_cpio_literal(contents@, target_filename.spec_bytes(), target_dir_prefix.spec_bytes(), dir_mode, access_mode) {
            Ok(st) => r matches Ok(c) && c@ == st,
            Err(e) => r == Err::<Cpio, CPIOError>(e),
        },
{
    let mut cpio = Cpio::new();
    match cpio.pack_prefix(target_dir_prefix, dir_mode) {
        Err(e) => return Err(e),
        Ok(()) => {},
    }
    let ghost s0 = cpio@;
    match cpio.pack_one(target_filename, contents, target_dir_prefix, access_mode) {
        Err(e) => return Err(e),
        Ok(_) => {},
    }
    proof {
        let n = target_filename.spec_bytes();
        let p = target_dir_prefix.spec_bytes();
        let zeros = Seq::new(contents@.len(), |i: int| 0u8);
        lemma_entry_bytes_len_mode_free(entry_name(n, p), (s0.inodes + 1) as u32, regular_mode(0), regular_mode(access_mode), contents@);
        crate::cpio::lemma_entry_len(entry_name(n, p), (s0.inodes + 1) as u32, regular_mode(0), contents@);
        crate::cpio::lemma_entry_len(entry_name(n, p), (s0.inodes + 1) as u32, regular_mode(0), zeros);
        crate::cpio::lemma_header_len(entry_name(n, p), (s0.inodes + 1) as u32, regular_mode(0), contents@.len() as u32);
    }
    match cpio.pack_trailer() {
        Err(e) => Err(e),
        Ok(_) => Ok(cpio),
    }
}

/// The paths of the regular files with an ASCII name ending in `suffix`, in the order found;
/// `entries` are the names found in `search_path`, each with whether it is a regular file.
pub open spec fn spec_matching_files(search_path: Seq<char>, entries: Seq<(Seq<char>, bool)>, suffix: Seq<char>) -> Seq<Seq<char>>
    decreases entries.len(),
{
    if entries.len() == 0 {
        Seq::empty()
    } else {
        let rest = spec_matching_files(search_path, entries.drop_last(), suffix);
        let (name, regular) = entries.last();
        if regular && all_ascii(name) && crate::text::spec_strip_suffix(name, suffix) is Some {
            rest.push(search_path + seq!['\\'] + name)
        } else {
            rest
        }
    }
}

/// Every character is ASCII (below 128).
pub open spec fn all_ascii(s: Seq<char>) -> bool {
    forall|i: int| 0 <= i < s.len() ==> (#[trigger] s[i] as u32) < 128
}

/// Whether the characters are all ASCII.
fn chars_are_ascii(c: &Vec<char>) -> (r: bool)
    ensures
        r == all_ascii(c@),
{
    let mut i: usize = 0;
    while i < c.len()
        invariant
            0 <= i <= c@.len(),
            forall|j: int| 0 <= j < i ==> (#[trigger] c@[j] as u32) < 128,
        decreases c@.len() - i,
    {
        if (c[i] as u32) >= 128 {
            return false;
        }
        i = i + 1;
    }
    true
}

/// The files among the entries of `search_path` that a drop-in search picks: regular files
/// with an ASCII name ending in `suffix`, as `search_path\name`.
pub fn matching_files(search_path: &str, entries: &Vec<(String, bool)>, suffix: &str) -> (r: Vec<String>)
    ensures
        crate::text::strings_view(r@) == spec_matching_files(
            search_path@,
            entries@.map_values(|e: (String, bool)| (e.0@, e.1)),
            suffix@,
        ),
{
    let ghost ev = entries@.map_values(|e: (String, bool)| (e.0@, e.1));
    let sp = str_chars(search_path);
    let sx = str_chars(suffix);
    let mut r: Vec<String> = Vec::new();
    let mut i: usize = 0;
    assert(ev.take(0) =~= Seq::<(Seq<char>, bool)>::empty());
    while i < entries.len()
        invariant
            0 <= i <= entries@.len(),
            ev == entries@.map_values(|e: (String, bool)| (e.0@, e.1)),
            sp@ == search_path@,
            sx@ == suffix@,
            crate::text::strings_view(r@) == spec_matching_files(search_path@, ev.take(i as int), suffix@),
        decreases entries@.len() - i,
    {
        assert(ev.take(i + 1).drop_last() =~= ev.take(i as int));
        assert(ev.take(i + 1).last() == ev[i as int]);
        let name = str_chars(entries[i].0.as_str());
        let picked = entries[i].1 && chars_are_ascii(&name) && crate::text::strip_suffix_chars(&name, &sx).is_some();
        if picked {
            let mut full: Vec<char> = Vec::new();
            crate::text::push_chars(&mut full, &sp);
            full.push('\\');
            crate::text::push_chars(&mut full, &name);
            assert(full@ =~= search_path@ + seq!['\\'] + name@);
            let ghost before = r@;
            r.push(chars_to_string(&full));
            assert(crate::text::strings_view(r@) =~= crate::text::strings_view(before).push(
                search_path@ + seq!['\\'] + name@,
            ));
        }
        i = i + 1;
    }
    assert(ev.take(i as int) =~= ev);
    r
}

/// A companion as plain values.
pub open spec fn companion_view(c: CompanionInitrd) -> (CompanionInitrdType, CpioState) {
    (c.kind, c.cpio@)
}

/// Companions as plain values.
pub open spec fn companions_view(cs: Seq<CompanionInitrd>) -> Seq<(CompanionInitrdType, CpioState)> {
    cs.map_values(|c: CompanionInitrd| companion_view(c))
}

/// The companion of one kind packed from some files: none where there are no files.
pub open spec fn spec_companion(kind: CompanionInitrdType, files: Seq<(Seq<char>, Seq<u8>)>, prefix: Seq<u8>, dir_mode: u32, access_mode: u32) -> Result<Seq<(CompanionInitrdType, CpioState)>, CPIOError> {
    if files.len() == 0 {
        Ok(Seq::empty())
    } else {
        match spec_pack_cpio(files, prefix, dir_mode, access_mode) {
            Ok(st) => Ok(seq![(kind, st)]),
            Err(e) => Err(e),
        }
    }
}

/// Packs the files, where there are any, into a companion of the given kind.
fn companion_of(kind: CompanionInitrdType, files: Vec<FileEntry>, prefix: &str, dir_mode: u32, access_mode: u32, out: &mut Vec<CompanionInitrd>) -> (r: Result<(), CPIOError>)
    requires
        pack_cpio_safe(files_view(files@), prefix.spec_bytes(), dir_mode),
    ensures
        match spec_companion(kind, files_view(files@), prefix.spec_bytes(), dir_mode, access_mode) {
            Ok(cs) => r is Ok && companions_view(final(out)@) == companions_view(old(out)@) + cs,
            Err(e) => r == Err::<(), CPIOError>(e),
        },
{
    if files.len() == 0 {
        assert(companions_view(out@) =~= companions_view(out@) + Seq::<(CompanionInitrdType, CpioState)>::empty());
        return Ok(());
    }
    match pack_cpio(files, prefix, dir_mode, access_mode) {
        Err(e) => Err(e),
        Ok(cpio) => {
            let ghost before = out@;
            let ghost st = cpio@;
            out.push(CompanionInitrd { kind, cpio });
            assert(companions_view(out@) =~= companions_view(before) + seq![(kind, st)]);
            Ok(())
        },
    }
}

/// The credentials companions: the global credentials (`\\loader\\credentials\\*.cred`),
/// where that directory exists, then the image's own (`$image.extra\\*.cred`), where it has a
/// drop-in directory; each only where there are such files, and neither measured.
pub open spec fn spec_credentials(global: Option<Seq<(Seq<char>, Seq<u8>)>>, local: Option<Seq<(Seq<char>, Seq<u8>)>>) -> Result<Seq<(CompanionInitrdType, CpioState)>, CPIOError> {
    let g = match global {
        Some(fs) => spec_companion(CompanionInitrdType::GlobalCredentials, fs, ".extra/global_credentials"@.map_values(|c: char| c as u8), 0o500, 0o400),
        None => Ok(Seq::empty()),
    };
    match g {
        Err(e) => Err(e),
        Ok(gs) => match local {
            Some(fs) => match spec_companion(CompanionInitrdType::Credentials, fs, ".extra/credentials"@.map_values(|c: char| c as u8), 0o500, 0o400) {
                Ok(ls) => Ok(gs + ls),
                Err(e) => Err(e),
            },
            None => Ok(gs),
        },
    }
}

/// Files, if any, as plain values.
pub open spec fn opt_files_view(f: Option<Vec<FileEntry>>) -> Option<Seq<(Seq<char>, Seq<u8>)>> {
    match f {
        Some(v) => Some(files_view(v@)),
        None => None,
    }
}

proof fn lemma_ascii_literal_bytes(s: &str)
    requires
        vstd::utf8::is_ascii_chars(s@),
    ensures
        s.spec_bytes() == s@.map_values(|c: char| c as u8),
{
    vstd::utf8::is_ascii_chars_encode_utf8(s@);
    assert(s.spec_bytes() =~= s@.map_values(|c: char| c as u8));
}

/// Packs the credentials found into companion initrds: `global` are the files of the global
/// drop-in directory where it exists, `local` those of the image's drop-in directory where it
/// has one.
pub fn discover_credentials(global: Option<Vec<FileEntry>>, local: Option<Vec<FileEntry>>) -> (r: Result<Vec<CompanionInitrd>, CPIOError>)
    requires
        global matches Some(fs) ==> pack_cpio_safe(files_view(fs@), ".extra/global_credentials"@.map_values(|c: char| c as u8), 0o500),
        local matches Some(fs) ==> pack_cpio_safe(files_view(fs@), ".extra/credentials"@.map_values(|c: char| c as u8), 0o500),
    ensures
        match spec_credentials(opt_files_view(global), opt_files_view(local)) {
            Ok(cs) => r matches Ok(v) && companions_view(v@) == cs,
            Err(e) => r matches Err(x) && x == e,
        },
{
    let mut companions: Vec<CompanionInitrd> = Vec::new();
    proof {
        reveal_strlit(".extra/global_credentials");
        reveal_strlit(".extra/credentials");
        lemma_ascii_literal_bytes(".extra/global_credentials");
        lemma_ascii_literal_bytes(".extra/credentials");
    }
    assert(companions_view(companions@) =~= Seq::<(CompanionInitrdType, CpioState)>::empty());
    match global {
        Some(fs) => match companion_of(CompanionInitrdType::GlobalCredentials, fs, ".extra/global_credentials", 0o500, 0o400, &mut companions) {
            Err(e) => return Err(e),
            Ok(()) => {},
        },
        None => {},
    }
    match local {
        Some(fs) => match companion_of(CompanionInitrdType::Credentials, fs, ".extra/credentials", 0o500, 0o400, &mut companions) {
            Err(e) => return Err(e),
            Ok(()) => {},
        },
        None => {},
    }
    Ok(companions)
}

/// Packs the system extension images found in the image's drop-in directory
/// (`$image.extra\\*.raw`) into a companion initrd, where there are any; they are not
/// measured here.
pub fn discover_system_extensions(sysexts: Vec<FileEntry>) -> (r: Result<Vec<CompanionInitrd>, CPIOError>)
    requires
        pack_cpio_safe(files_view(sysexts@), ".extra/sysext"@.map_values(|c: char| c as u8), 0o555),
    ensures
        match spec_companion(CompanionInitrdType::SystemExtension, files_view(sysexts@), ".extra/sysext"@.map_values(|c: char| c as u8), 0o555, 0o444) {
            Ok(cs) => r matches Ok(v) && companions_view(v@) == cs,
            Err(e) => r matches Err(x) && x == e,
        },
{
    let mut companions: Vec<CompanionInitrd> = Vec::new();
    proof {
        reveal_strlit(".extra/sysext");
        lemma_ascii_literal_bytes(".extra/sysext");
    }
    assert(companions_view(companions@) =~= Seq::<(CompanionInitrdType, CpioState)>::empty());
    match companion_of(CompanionInitrdType::SystemExtension, sysexts, ".extra/sysext", 0o555, 0o444, &mut companions) {
        Err(e) => Err(e),
        Ok(()) => Ok(companions),
    }
}

} // verus!
