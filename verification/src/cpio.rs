//! An in-memory writer of CPIO archives in the `newc` format, as the Linux kernel unpacks them
//! from an initrd.
use vstd::prelude::*;
use vstd::string::StringSliceAdditionalSpecFns;


verus! {

/// The length of the fixed part of a `newc` header: the magic number and thirteen words of
/// eight hexadecimal digits.
pub const STATIC_HEADER_LEN: usize = 110;

/// Errors of the CPIO writer.
#[derive(Debug, Clone, PartialEq, Eq, Structural)]
pub enum CPIOError {
    /// The file does not fit in 32 bits.
    TooLargeFileSize { got: usize },
    /// The archive already holds `2^32 - 1` inodes.
    MaximumInodesReached,
    /// The archive would not fit in the address space.
    MaximumArchiveReached,
    /// A buffer was smaller than needed.
    InsufficientBufferSize { expected: usize, got: usize },
}

/// An ASCII hexadecimal digit, lower case.
pub open spec fn hex_char(d: nat) -> u8 {
    if d < 10 {
        (48 + d) as u8
    } else {
        (87 + d) as u8
    }
}

/// The `k` lowest hexadecimal digits of `n`, most significant first.
pub open spec fn hex_digits(n: nat, k: nat) -> Seq<u8>
    decreases k,
{
    if k == 0 {
        Seq::empty()
    } else {
        hex_digits(n / 16, (k - 1) as nat).push(hex_char(n % 16))
    }
}

/// A header word: eight hexadecimal digits.
pub open spec fn cpio_word(w: u32) -> Seq<u8> {
    hex_digits(w as nat, 8)
}

/// Zero bytes that bring `len` to a multiple of four.
pub open spec fn pad4(len: nat) -> Seq<u8> {
    Seq::new(((4 - len % 4) % 4) as nat, |i: int| 0u8)
}

/// `070701`, the magic number of the `newc` format.
pub open spec fn magic() -> Seq<u8> {
    seq![48u8, 55u8, 48u8, 55u8, 48u8, 49u8]
}

/// The header words of an entry: inode, mode, uid, gid, link count, modification time, file
/// size, four device numbers, name size and checksum.
pub open spec fn header_words(ino: u32, mode: u32, file_size: u32, name_size: u32) -> Seq<u32> {
    seq![ino, mode, 0u32, 0u32, 1u32, 0u32, file_size, 0u32, 0u32, 0u32, 0u32, name_size, 0u32]
}

/// The words one after the other.
pub open spec fn concat_words(ws: Seq<u32>) -> Seq<u8>
    decreases ws.len(),
{
    if ws.len() == 0 {
        Seq::empty()
    } else {
        concat_words(ws.drop_last()) + cpio_word(ws.last())
    }
}

/// The header of an entry: the magic number, the header words, then the name, its terminating
/// NUL and padding to four bytes.
pub open spec fn header_bytes(name: Seq<u8>, ino: u32, mode: u32, file_size: u32) -> Seq<u8> {
    magic() + concat_words(header_words(ino, mode, file_size, (name.len() + 1) as u32)) + name
        + seq![0u8] + pad4((110 + name.len() + 1) as nat)
}

/// A complete entry: header, contents and padding.
pub open spec fn entry_bytes(name: Seq<u8>, ino: u32, mode: u32, contents: Seq<u8>) -> Seq<u8> {
    header_bytes(name, ino, mode, contents.len() as u32) + contents + pad4(contents.len())
}

/// The name under which `pack_one` stores a file.
pub open spec fn entry_name(fname: Seq<u8>, prefix: Seq<u8>) -> Seq<u8> {
    if prefix.len() == 0 {
        fname
    } else {
        prefix + seq![47u8] + fname
    }
}

/// `align`: the value rounded up to a multiple of four, or `usize::MAX` where that overflows.
pub open spec fn spec_align(value: int) -> int {
    if value > usize::MAX - 3 {
        usize::MAX as int
    } else {
        (value + 3) / 4 * 4
    }
}

/// Regular file mode bit.
pub open spec fn regular_mode(access_mode: u32) -> u32 {
    access_mode | 0o100000u32
}

/// Directory mode bit.
pub open spec fn directory_mode(access_mode: u32) -> u32 {
    access_mode | 0o040000u32
}

/// The error `pack_one` reports for a file, if any, given the archive's length and inode count.
pub open spec fn pack_one_error(
    buffer_len: nat,
    inodes: u32,
    fname_len: nat,
    contents_len: nat,
    prefix_len: nat,
) -> Option<CPIOError> {
    if contents_len > u32::MAX {
        Some(CPIOError::TooLargeFileSize { got: contents_len as usize })
    } else if inodes == u32::MAX {
        Some(CPIOError::MaximumInodesReached)
    } else if 111 + prefix_len > usize::MAX {
        Some(CPIOError::MaximumArchiveReached)
    } else if 111 + prefix_len + fname_len > usize::MAX {
        Some(CPIOError::MaximumArchiveReached)
    } else if prefix_len + fname_len >= u32::MAX {
        Some(CPIOError::MaximumArchiveReached)
    } else if spec_align((111 + prefix_len + fname_len) as int) == usize::MAX {
        Some(CPIOError::MaximumArchiveReached)
    } else if spec_align(contents_len as int) == usize::MAX {
        Some(CPIOError::MaximumArchiveReached)
    } else if spec_align((111 + prefix_len + fname_len) as int) + spec_align(contents_len as int)
        > usize::MAX {
        Some(CPIOError::MaximumArchiveReached)
    } else if buffer_len + spec_align((111 + prefix_len + fname_len) as int) + spec_align(
        contents_len as int,
    ) > usize::MAX {
        Some(CPIOError::MaximumArchiveReached)
    } else {
        None
    }
}

/// Where `pack_one` reports no error, the name size fits in a header word and the entry fits
/// in the address space (the checks of `pack_one` count the separator `/` but not the rounding
/// of the longer name; the four bytes cover that).
pub open spec fn pack_one_fits(buffer_len: nat, fname: Seq<u8>, contents_len: nat, prefix: Seq<
    u8,
>) -> bool {
    &&& entry_name(fname, prefix).len() + 1 <= u32::MAX
    &&& buffer_len + spec_align((111 + prefix.len() + fname.len()) as int) + spec_align(
        contents_len as int,
    ) + 4 <= usize::MAX
}

/// The error `pack_dir` reports for a directory, if any.
pub open spec fn pack_dir_error(buffer_len: nat, inodes: u32, path_len: nat) -> Option<CPIOError> {
    if inodes == u32::MAX {
        Some(CPIOError::MaximumInodesReached)
    } else if 110 + path_len > usize::MAX {
        Some(CPIOError::MaximumArchiveReached)
    } else if buffer_len == usize::MAX || buffer_len + spec_align((110 + path_len) as int) > usize::MAX {
        Some(CPIOError::MaximumArchiveReached)
    } else {
        None
    }
}

/// The state of an archive: its bytes and the last inode number handed out.
pub struct CpioState {
    pub bytes: Seq<u8>,
    pub inodes: u32,
}

/// What `pack_dir` does to an archive state.
pub open spec fn spec_pack_dir(st: CpioState, path: Seq<u8>, mode: u32) -> (CpioState, Option<
    CPIOError,
>) {
    match pack_dir_error(st.bytes.len(), st.inodes, path.len()) {
        Some(e) => (st, Some(e)),
        None => (
            CpioState {
                bytes: st.bytes + header_bytes(
                    path,
                    (st.inodes + 1) as u32,
                    directory_mode(mode),
                    0,
                ),
                inodes: (st.inodes + 1) as u32,
            },
            None,
        ),
    }
}

/// The byte strings of the components of a path, split at each `/`.
pub open spec fn split_slash(s: Seq<u8>) -> Seq<Seq<u8>>
    decreases s.len(),
{
    if s.len() == 0 {
        seq![Seq::empty()]
    } else {
        let rest = split_slash(s.drop_last());
        if s.last() == 47u8 {
            rest.push(Seq::empty())
        } else {
            rest.update(rest.len() - 1, rest.last().push(s.last()))
        }
    }
}

/// The directories that `pack_prefix` creates for components `cs`: `/c0`, `/c0/c1`, ...
pub open spec fn ancestors(cs: Seq<Seq<u8>>) -> Seq<Seq<u8>>
    decreases cs.len(),
{
    if cs.len() == 0 {
        Seq::empty()
    } else {
        let rest = ancestors(cs.drop_last());
        let prev = if rest.len() == 0 {
            Seq::empty()
        } else {
            rest.last()
        };
        rest.push(prev + seq![47u8] + cs.last())
    }
}

/// Packs the directories `dirs` in turn, all but the last with mode `0o555`; stops at the
/// first error.
pub open spec fn spec_pack_dirs(st: CpioState, dirs: Seq<Seq<u8>>, last_mode: u32) -> (
    CpioState,
    Option<CPIOError>,
)
    decreases dirs.len(),
{
    if dirs.len() == 0 {
        (st, None)
    } else {
        let (st1, e1) = spec_pack_dirs(st, dirs.drop_last(), 0o555);
        if e1 is Some {
            (st1, e1)
        } else {
            spec_pack_dir(st1, dirs.last(), last_mode)
        }
    }
}

/// What `pack_prefix` does to an archive state.
pub open spec fn spec_pack_prefix(st: CpioState, path: Seq<u8>, dir_mode: u32) -> (
    CpioState,
    Option<CPIOError>,
) {
    spec_pack_dirs(st, ancestors(split_slash(path)), dir_mode)
}

proof fn lemma_hex_digits_len(n: nat, k: nat)
    ensures
        hex_digits(n, k).len() == k,
    decreases k,
{
    if k > 0 {
        lemma_hex_digits_len(n / 16, (k - 1) as nat);
    }
}

proof fn lemma_concat_words_len(ws: Seq<u32>)
    ensures
        concat_words(ws).len() == 8 * ws.len(),
    decreases ws.len(),
{
    if ws.len() > 0 {
        lemma_concat_words_len(ws.drop_last());
        lemma_hex_digits_len(ws.last() as nat, 8);
    }
}

pub proof fn lemma_header_len(name: Seq<u8>, ino: u32, mode: u32, file_size: u32)
    ensures
        header_bytes(name, ino, mode, file_size).len() == 110 + name.len() + 1 + pad4(
            (110 + name.len() + 1) as nat,
        ).len(),
        header_bytes(name, ino, mode, file_size).len() % 4 == 0,
{
    lemma_concat_words_len(header_words(ino, mode, file_size, (name.len() + 1) as u32));
}

pub proof fn lemma_entry_len(name: Seq<u8>, ino: u32, mode: u32, contents: Seq<u8>)
    ensures
        entry_bytes(name, ino, mode, contents).len() % 4 == 0,
        entry_bytes(name, ino, mode, contents).len() == header_bytes(
            name,
            ino,
            mode,
            contents.len() as u32,
        ).len() + contents.len() + pad4(contents.len()).len(),
{
    lemma_header_len(name, ino, mode, contents.len() as u32);
}

proof fn lemma_concat_words_at(ws: Seq<u32>, i: int)
    requires
        0 <= i < ws.len(),
    ensures
        concat_words(ws).subrange(8 * i, 8 * i + 8) == cpio_word(ws[i]),
    decreases ws.len(),
{
    let p = ws.drop_last();
    lemma_concat_words_len(p);
    lemma_hex_digits_len(ws.last() as nat, 8);
    let c = concat_words(ws);
    assert(c == concat_words(p) + cpio_word(ws.last()));
    if i == ws.len() - 1 {
        assert(c.subrange(8 * i, 8 * i + 8) =~= cpio_word(ws.last()));
    } else {
        lemma_concat_words_at(p, i);
        assert(c.subrange(8 * i, 8 * i + 8) =~= concat_words(p).subrange(8 * i, 8 * i + 8));
    }
}

/// The layout of an entry in the `newc` format: the magic number `070701`, then eight
/// hexadecimal digits each for the inode, the mode, the file size and the name size at their
/// offsets, the name and its NUL from byte 110 on, and the contents on the next four-byte
/// boundary after the header, the whole a whole number of four-byte words.
pub proof fn law_entry_layout(name: Seq<u8>, ino: u32, mode: u32, contents: Seq<u8>)
    requires
        contents.len() <= u32::MAX,
        name.len() + 1 <= u32::MAX,
    ensures
        ({
            let e = entry_bytes(name, ino, mode, contents);
            let h = header_bytes(name, ino, mode, contents.len() as u32).len() as int;
            &&& e.subrange(0, 6) == magic()
            &&& e.subrange(6, 14) == cpio_word(ino)
            &&& e.subrange(14, 22) == cpio_word(mode)
            &&& e.subrange(54, 62) == cpio_word(contents.len() as u32)
            &&& e.subrange(94, 102) == cpio_word((name.len() + 1) as u32)
            &&& e.subrange(110, 110 + name.len() as int) == name
            &&& e[110 + name.len() as int] == 0u8
            &&& h % 4 == 0
            &&& 111 + name.len() <= h < 111 + name.len() + 4
            &&& e.subrange(h, h + contents.len()) == contents
            &&& e.len() % 4 == 0
        }),
{
    let ws = header_words(ino, mode, contents.len() as u32, (name.len() + 1) as u32);
    let words = concat_words(ws);
    lemma_concat_words_len(ws);
    lemma_entry_len(name, ino, mode, contents);
    let e = entry_bytes(name, ino, mode, contents);
    let hb = header_bytes(name, ino, mode, contents.len() as u32);
    assert(magic().len() == 6);
    assert(e.subrange(0, 6) =~= magic());
    assert forall|i: int| 0 <= i < 13 implies #[trigger] e.subrange(6 + 8 * i, 14 + 8 * i) == cpio_word(ws[i]) by {
        lemma_concat_words_at(ws, i);
        assert(e.subrange(6 + 8 * i, 14 + 8 * i) =~= words.subrange(8 * i, 8 * i + 8));
    }
    assert(e.subrange(6 + 8 * 0int, 14 + 8 * 0int) == cpio_word(ws[0int]));
    assert(e.subrange(6 + 8 * 1int, 14 + 8 * 1int) == cpio_word(ws[1int]));
    assert(e.subrange(6 + 8 * 6int, 14 + 8 * 6int) == cpio_word(ws[6int]));
    assert(e.subrange(6 + 8 * 11int, 14 + 8 * 11int) == cpio_word(ws[11int]));
    assert(e.subrange(110, 110 + name.len() as int) =~= name);
    assert(e[110 + name.len() as int] == 0u8);
    let h = hb.len() as int;
    assert(e.subrange(h, h + contents.len()) =~= contents);
}

proof fn lemma_split_slash_nonempty(s: Seq<u8>)
    ensures
        split_slash(s).len() > 0,
    decreases s.len(),
{
    if s.len() > 0 {
        lemma_split_slash_nonempty(s.drop_last());
    }
}

proof fn lemma_ancestors_len(cs: Seq<Seq<u8>>)
    ensures
        ancestors(cs).len() == cs.len(),
    decreases cs.len(),
{
    if cs.len() > 0 {
        lemma_ancestors_len(cs.drop_last());
    }
}

proof fn lemma_ancestors_push_empty(cs: Seq<Seq<u8>>)
    requires
        cs.len() > 0,
    ensures
        ancestors(cs.push(Seq::empty())) == ancestors(cs).push(ancestors(cs).last() + seq![47u8]),
{
    lemma_ancestors_len(cs);
    assert(cs.push(Seq::<u8>::empty()).drop_last() =~= cs);
    assert(ancestors(cs).last() + seq![47u8] + Seq::<u8>::empty() =~= ancestors(cs).last()
        + seq![47u8]);
}

proof fn lemma_ancestors_extend_last(cs: Seq<Seq<u8>>, b: u8)
    requires
        cs.len() > 0,
    ensures
        ancestors(cs.update(cs.len() - 1, cs.last().push(b))) == ancestors(cs).update(
            cs.len() - 1,
            ancestors(cs).last().push(b),
        ),
{
    lemma_ancestors_len(cs);
    let cs2 = cs.update(cs.len() - 1, cs.last().push(b));
    assert(cs2.drop_last() =~= cs.drop_last());
    let rest = ancestors(cs.drop_last());
    let prev = if rest.len() == 0 {
        Seq::<u8>::empty()
    } else {
        rest.last()
    };
    assert(prev + seq![47u8] + cs.last().push(b) =~= (prev + seq![47u8] + cs.last()).push(b));
    assert(ancestors(cs2) =~= ancestors(cs).update(
        cs.len() - 1,
        ancestors(cs).last().push(b),
    ));
}

proof fn lemma_split_slash_prefix(s: Seq<u8>, j: int)
    requires
        0 <= j <= s.len(),
    ensures
        split_slash(s.take(j)).len() <= split_slash(s).len(),
        split_slash(s.take(j)).drop_last() == split_slash(s).take(
            split_slash(s.take(j)).len() - 1,
        ),
    decreases s.len(),
{
    lemma_split_slash_nonempty(s.take(j));
    if j == s.len() {
        assert(s.take(j) =~= s);
        assert(split_slash(s).take(split_slash(s).len() - 1) =~= split_slash(s).drop_last());
    } else {
        let s1 = s.drop_last();
        assert(s1.take(j) =~= s.take(j));
        lemma_split_slash_prefix(s1, j);
        lemma_split_slash_nonempty(s1);
        let a = split_slash(s.take(j));
        let b1 = split_slash(s1);
        assert(s.drop_last() =~= s1);
        if s.last() == 47u8 {
            assert(split_slash(s) == b1.push(Seq::<u8>::empty()));
            assert(b1.push(Seq::<u8>::empty()).take(a.len() - 1) =~= b1.take(a.len() - 1));
        } else {
            assert(split_slash(s) == b1.update(b1.len() - 1, b1.last().push(s.last())));
            assert(b1.update(b1.len() - 1, b1.last().push(s.last())).take(a.len() - 1)
                =~= b1.take(a.len() - 1));
        }
    }
}

proof fn lemma_ancestors_take(cs: Seq<Seq<u8>>, k: int)
    requires
        0 <= k <= cs.len(),
    ensures
        ancestors(cs.take(k)) == ancestors(cs).take(k),
    decreases cs.len(),
{
    lemma_ancestors_len(cs);
    if k == cs.len() {
        assert(cs.take(k) =~= cs);
        assert(ancestors(cs).take(k) =~= ancestors(cs));
    } else {
        assert(cs.drop_last().take(k) =~= cs.take(k));
        lemma_ancestors_take(cs.drop_last(), k);
        lemma_ancestors_len(cs.drop_last());
        assert(ancestors(cs).take(k) =~= ancestors(cs.drop_last()).take(k));
    }
}

proof fn lemma_ancestors_drop_last(cs: Seq<Seq<u8>>)
    requires
        cs.len() > 0,
    ensures
        ancestors(cs).drop_last() == ancestors(cs.drop_last()),
{
    lemma_ancestors_len(cs.drop_last());
    assert(ancestors(cs).drop_last() =~= ancestors(cs.drop_last()));
}

/// Once packing a list of directories failed, packing a longer list that starts with it fails
/// the same way.
proof fn lemma_pack_dirs_error_stays(st: CpioState, d: Seq<Seq<u8>>, all: Seq<Seq<u8>>, m: u32)
    requires
        d.len() < all.len(),
        all.take(d.len() as int) == d,
        spec_pack_dirs(st, d, 0o555).1 is Some,
    ensures
        spec_pack_dirs(st, all, m) == spec_pack_dirs(st, d, 0o555),
    decreases all.len(),
{
    if all.len() == d.len() + 1 {
        assert(all.drop_last() =~= d);
    } else {
        assert(all.drop_last().take(d.len() as int) =~= d);
        lemma_pack_dirs_error_stays(st, d, all.drop_last(), 0o555);
    }
}

/// A growable byte buffer that writes append to.
pub struct Cursor {
    buffer: Vec<u8>,
}

impl Cursor {
    pub closed spec fn view(&self) -> Seq<u8> {
        self.buffer@
    }

    pub fn new(buffer: Vec<u8>) -> (r: Self)
        ensures
            r@ == buffer@,
    {
        Cursor { buffer }
    }

    pub fn into_inner(self) -> (r: Vec<u8>)
        ensures
            r@ == self@,
    {
        self.buffer
    }

    pub fn get_mut(&mut self) -> (r: &mut Vec<u8>)
        ensures
            r@ == old(self)@,
            final(self)@ == final(r)@,
    {
        &mut self.buffer
    }

    /// Appends the bytes and reports how many were written (all of them).
    pub fn write(&mut self, buf: &[u8]) -> (n: usize)
        ensures
            final(self)@ == old(self)@ + buf@,
            n == buf@.len(),
    {
        push_all(&mut self.buffer, buf);
        buf.len()
    }

    /// There is nothing to flush.
    pub fn flush(&mut self)
        ensures
            final(self)@ == old(self)@,
    {
    }
}

/// Appends all bytes of `src` to `dst`.
pub fn push_all(dst: &mut Vec<u8>, src: &[u8])
    ensures
        final(dst)@ == old(dst)@ + src@,
{
    let mut i: usize = 0;
    while i < src.len()
        invariant
            0 <= i <= src@.len(),
            dst@ == old(dst)@ + src@.take(i as int),
        decreases src@.len() - i,
    {
        dst.push(src[i]);
        i = i + 1;
        assert(dst@ =~= old(dst)@ + src@.take(i as int));
    }
    assert(src@.take(i as int) =~= src@);
}

/// Appends the `k` lowest hexadecimal digits of `n`.
fn push_hex_digits(out: &mut Vec<u8>, n: u32, k: u32)
    requires
        k <= 8,
    ensures
        final(out)@ == old(out)@ + hex_digits(n as nat, k as nat),
    decreases k,
{
    if k > 0 {
        push_hex_digits(out, n / 16, k - 1);
        let d = (n % 16) as u8;
        let c: u8 = if d < 10 { 48 + d } else { 87 + d };
        out.push(c);
        assert(final(out)@ =~= old(out)@ + hex_digits(n as nat, k as nat));
    }
}

/// Writes a header word: eight lower-case hexadecimal digits.
fn write_cpio_word(out: &mut Vec<u8>, word: u32)
    ensures
        final(out)@ == old(out)@ + cpio_word(word),
{
    push_hex_digits(out, word, 8);
}

/// The zero bytes that pad `len` to a multiple of four, if any are needed.
pub fn compute_pad4(len: usize) -> (r: Option<Vec<u8>>)
    ensures
        r matches Some(p) ==> len % 4 != 0 && p@ == pad4(len as nat),
        r is None ==> len % 4 == 0,
{
    let overhang = len % 4;
    if overhang != 0 {
        let repeat = 4 - overhang;
        let mut p: Vec<u8> = Vec::new();
        let mut i: usize = 0;
        while i < repeat
            invariant
                0 <= i <= repeat,
                repeat == 4 - len % 4,
                p@ == Seq::new(i as nat, |j: int| 0u8),
            decreases repeat - i,
        {
            p.push(0u8);
            i = i + 1;
            assert(p@ =~= Seq::new(i as nat, |j: int| 0u8));
        }
        assert(p@ =~= pad4(len as nat));
        Some(p)
    } else {
        None
    }
}

/// Rounds a value up to a multiple of four; gives `usize::MAX` where that would overflow.
pub fn align(value: usize) -> (r: usize)
    ensures
        r == spec_align(value as int),
{
    if value > usize::MAX - 3 {
        usize::MAX
    } else {
        let v = value + 3;
        let r = v & !3usize;
        assert(v & !3usize == v - v % 4) by (bit_vector);
        r
    }
}

/// Writes the magic number and the header words.
fn write_header_words(out: &mut Vec<u8>, ino: u32, mode: u32, file_size: u32, name_size: u32)
    ensures
        final(out)@ == old(out)@ + magic() + concat_words(
            header_words(ino, mode, file_size, name_size),
        ),
{
    let magic_number: [u8; 6] = [48, 55, 48, 55, 48, 49];
    push_all(out, &magic_number);
    assert(magic_number@ =~= magic());
    let words: [u32; 13] = [ino, mode, 0, 0, 1, 0, file_size, 0, 0, 0, 0, name_size, 0];
    let ghost ws = header_words(ino, mode, file_size, name_size);
    assert(words@ =~= ws);
    let mut i: usize = 0;
    assert(ws.take(0) =~= Seq::<u32>::empty());
    while i < 13
        invariant
            0 <= i <= 13,
            words@ == ws,
            ws.len() == 13,
            out@ == old(out)@ + magic() + concat_words(ws.take(i as int)),
        decreases 13 - i,
    {
        write_cpio_word(out, words[i]);
        assert(ws.take(i + 1).drop_last() =~= ws.take(i as int));
        i = i + 1;
        assert(out@ =~= old(out)@ + magic() + concat_words(ws.take(i as int)));
    }
    assert(ws.take(13) =~= ws);
}

/// Writes the header of an entry and returns its size.
fn write_cpio_header(out: &mut Vec<u8>, name: &Vec<u8>, ino: u32, mode: u32, file_size: u32) -> (r:
    usize)
    requires
        name@.len() + 1 <= u32::MAX,
        name@.len() + 114 <= usize::MAX,
    ensures
        final(out)@ == old(out)@ + header_bytes(name@, ino, mode, file_size),
        r == header_bytes(name@, ino, mode, file_size).len(),
        r % 4 == 0,
{
    let mut header_size = STATIC_HEADER_LEN;
    let name_size = (name.len() + 1) as u32;
    write_header_words(out, ino, mode, file_size, name_size);
    let ghost words_done = out@;
    push_all(out, name.as_slice());
    header_size = header_size + name.len();
    out.push(0u8);
    header_size = header_size + 1;
    let ghost named = out@;
    if let Some(pad) = compute_pad4(header_size) {
        push_all(out, pad.as_slice());
        header_size = header_size + pad.len();
    }
    proof {
        lemma_header_len(name@, ino, mode, file_size);
        assert(named =~= words_done + name@ + seq![0u8]);
        assert(out@ =~= named + pad4((110 + name@.len() + 1) as nat));
        assert(final(out)@ =~= old(out)@ + header_bytes(name@, ino, mode, file_size));
    }
    header_size
}

/// Writes the contents of an entry with their padding; returns the entry's total size.
fn write_cpio_contents(out: &mut Vec<u8>, header_size: usize, contents: &[u8]) -> (r: usize)
    requires
        header_size % 4 == 0,
        header_size + contents@.len() + pad4(contents@.len()).len() <= usize::MAX,
    ensures
        final(out)@ == old(out)@ + contents@ + pad4(contents@.len()),
        r == header_size + contents@.len() + pad4(contents@.len()).len(),
        r % 4 == 0,
{
    let mut total_size = header_size + contents.len();
    push_all(out, contents);
    if let Some(pad) = compute_pad4(contents.len()) {
        push_all(out, pad.as_slice());
        total_size = total_size + pad.len();
    }
    assert(final(out)@ =~= old(out)@ + contents@ + pad4(contents@.len()));
    total_size
}

/// The bytes of the name `pack_one` gives a file.
fn entry_name_bytes(fname: &str, prefix: &str) -> (r: Vec<u8>)
    ensures
        r@ == entry_name(fname.spec_bytes(), prefix.spec_bytes()),
{
    let mut name: Vec<u8> = Vec::new();
    if !prefix.is_empty() {
        push_all(&mut name, prefix.as_bytes());
        name.push(47u8);
    }
    push_all(&mut name, fname.as_bytes());
    proof {
        if prefix@.len() != 0 {
            vstd::utf8::encode_utf8_first_scalar(prefix@);
        }
    }
    assert(name@ =~= entry_name(fname.spec_bytes(), prefix.spec_bytes()));
    name
}

/// The checks of `pack_one` before it writes anything.
fn pack_one_check(
    buffer_len: usize,
    inodes: u32,
    fname_len: usize,
    contents_len: usize,
    prefix_len: usize,
) -> (r: Option<CPIOError>)
    ensures
        r == pack_one_error(
            buffer_len as nat,
            inodes,
            fname_len as nat,
            contents_len as nat,
            prefix_len as nat,
        ),
{
        if contents_len > 0xffff_ffffusize {
            return Some(CPIOError::TooLargeFileSize { got: contents_len });
        }
        if inodes == 0xffff_ffffu32 {
            return Some(CPIOError::MaximumInodesReached);
        }
        let mut current_len = STATIC_HEADER_LEN + 1;
        if current_len > usize::MAX - prefix_len {
            return Some(CPIOError::MaximumArchiveReached);
        }
        current_len = current_len + prefix_len;
        if current_len > usize::MAX - fname_len {
            return Some(CPIOError::MaximumArchiveReached);
        }
        current_len = current_len + fname_len;
        if prefix_len + fname_len >= 0xffff_ffffusize {
            return Some(CPIOError::MaximumArchiveReached);
        }
        current_len = align(current_len);
        if current_len == usize::MAX {
            return Some(CPIOError::MaximumArchiveReached);
        }
        let aligned_contents_len = align(contents_len);
        if aligned_contents_len == usize::MAX {
            return Some(CPIOError::MaximumArchiveReached);
        }
        if current_len > usize::MAX - aligned_contents_len {
            return Some(CPIOError::MaximumArchiveReached);
        }
        current_len = current_len + aligned_contents_len;
        if buffer_len > usize::MAX - current_len {
            return Some(CPIOError::MaximumArchiveReached);
        }
        None
}

/// A CPIO archive being written, with the last inode number it handed out.
pub struct Cpio {
    buffer: Vec<u8>,
    inode_counter: u32,
}

impl Cpio {
    pub closed spec fn view(&self) -> CpioState {
        CpioState { bytes: self.buffer@, inodes: self.inode_counter }
    }

    /// Every entry takes a multiple of four bytes, so the archive stays aligned.
    pub open spec fn wf(&self) -> bool {
        self@.bytes.len() % 4 == 0
    }

    pub fn new() -> (r: Self)
        ensures
            r.wf(),
            r@.bytes == Seq::<u8>::empty(),
            r@.inodes == 0,
    {
        Cpio { buffer: Vec::new(), inode_counter: 0 }
    }

    pub fn into_inner(self) -> (r: Vec<u8>)
        ensures
            r@ == self@.bytes,
    {
        self.buffer
    }

    /// The bytes of the archive so far.
    pub fn as_bytes(&self) -> (r: &Vec<u8>)
        ensures
            r@ == self@.bytes,
    {
        &self.buffer
    }

    /// Packs a file named `fname` with `contents` under the directory `target_dir_prefix`, as
    /// a regular file with `access_mode`. Returns the size of the entry written.
    pub fn pack_one(&mut self, fname: &str, contents: &[u8], target_dir_prefix: &str, access_mode: u32)
        -> (r: Result<usize, CPIOError>)
        requires
            pack_one_error(
                old(self)@.bytes.len(),
                old(self)@.inodes,
                fname.spec_bytes().len(),
                contents@.len(),
                target_dir_prefix.spec_bytes().len(),
            ) is None ==> pack_one_fits(
                old(self)@.bytes.len(),
                fname.spec_bytes(),
                contents@.len(),
                target_dir_prefix.spec_bytes(),
            ),
        ensures
            match pack_one_error(
                old(self)@.bytes.len(),
                old(self)@.inodes,
                fname.spec_bytes().len(),
                contents@.len(),
                target_dir_prefix.spec_bytes().len(),
            ) {
                Some(e) => r == Err::<usize, CPIOError>(e) && final(self)@ == old(self)@,
                None => {
                    let entry = entry_bytes(
                        entry_name(fname.spec_bytes(), target_dir_prefix.spec_bytes()),
                        (old(self)@.inodes + 1) as u32,
                        regular_mode(access_mode),
                        contents@,
                    );
                    &&& r == Ok::<usize, CPIOError>(entry.len() as usize)
                    &&& final(self)@.bytes == old(self)@.bytes + entry
                    &&& final(self)@.inodes == old(self)@.inodes + 1
                },
            },
            old(self).wf() ==> final(self).wf(),
    {
        let fname_bytes = fname.as_bytes();
        let prefix_bytes = target_dir_prefix.as_bytes();
        if let Some(e) = pack_one_check(
            self.buffer.len(),
            self.inode_counter,
            fname_bytes.len(),
            contents.len(),
            prefix_bytes.len(),
        ) {
            return Err(e);
        }
        let mut cur: Vec<u8> = Vec::new();
        self.inode_counter = self.inode_counter + 1;
        let name = entry_name_bytes(fname, target_dir_prefix);
        proof {
            let p = target_dir_prefix.spec_bytes().len();
            let f = fname.spec_bytes().len();
            assert(name@.len() <= 1 + p + f);
            assert(spec_align((111 + p + f) as int) >= 111 + p + f);
            assert(spec_align(contents@.len() as int) >= contents@.len());
            assert(spec_align(contents@.len() as int) == contents@.len() + pad4(
                contents@.len(),
            ).len());
        }
        let file_size = contents.len() as u32;
        let header_size = write_cpio_header(
            &mut cur,
            &name,
            self.inode_counter,
            access_mode | 0o100000u32,
            file_size,
        );
        proof {
            lemma_header_len(name@, self.inode_counter, access_mode | 0o100000u32, file_size);
        }
        let written = write_cpio_contents(&mut cur, header_size, contents);
        proof {
            lemma_entry_len(name@, self.inode_counter, access_mode | 0o100000u32, contents@);
            assert(cur@ =~= entry_bytes(
                name@,
                self.inode_counter,
                access_mode | 0o100000u32,
                contents@,
            ));
        }
        self.buffer.append(&mut cur);
        Ok(written)
    }

    /// Packs a directory entry for `path` with `access_mode`.
    pub fn pack_dir(&mut self, path: &str, access_mode: u32) -> (r: Result<(), CPIOError>)
        requires
            pack_dir_error(old(self)@.bytes.len(), old(self)@.inodes, path.spec_bytes().len())
                is None ==> path.spec_bytes().len() + 1 <= u32::MAX && path.spec_bytes().len()
                + 114 <= usize::MAX,
        ensures
            ({
                let (st, e) = spec_pack_dir(old(self)@, path.spec_bytes(), access_mode);
                &&& final(self)@ == st
                &&& r == (match e {
                    Some(e) => Err::<(), CPIOError>(e),
                    None => Ok(()),
                })
            }),
            old(self).wf() ==> final(self).wf(),
    {
        let pb = path.as_bytes();
        let mut v: Vec<u8> = Vec::new();
        push_all(&mut v, pb);
        self.pack_dir_bytes(&v, access_mode)
    }

    fn pack_dir_bytes(&mut self, path: &Vec<u8>, access_mode: u32) -> (r: Result<(), CPIOError>)
        requires
            pack_dir_error(old(self)@.bytes.len(), old(self)@.inodes, path@.len()) is None
                ==> path@.len() + 1 <= u32::MAX && path@.len() + 114 <= usize::MAX,
        ensures
            ({
                let (st, e) = spec_pack_dir(old(self)@, path@, access_mode);
                &&& final(self)@ == st
                &&& r == (match e {
                    Some(e) => Err::<(), CPIOError>(e),
                    None => Ok(()),
                })
            }),
            old(self).wf() ==> final(self).wf(),
    {
        if self.inode_counter == 0xffff_ffffu32 {
            return Err(CPIOError::MaximumInodesReached);
        }
        let mut current_len = STATIC_HEADER_LEN;
        if current_len > usize::MAX - path.len() {
            return Err(CPIOError::MaximumArchiveReached);
        }
        current_len = current_len + path.len();
        current_len = align(current_len);
        if self.buffer.len() == usize::MAX || self.buffer.len() > usize::MAX - current_len {
            return Err(CPIOError::MaximumArchiveReached);
        }
        let mut cur: Vec<u8> = Vec::new();
        self.inode_counter = self.inode_counter + 1;
        let _ = write_cpio_header(&mut cur, path, self.inode_counter, access_mode | 0o040000u32, 0);
        proof {
            lemma_header_len(path@, self.inode_counter, access_mode | 0o040000u32, 0);
        }
        self.buffer.append(&mut cur);
        Ok(())
    }

    /// Packs a directory entry for every prefix of `path` (split at `/`): `/a`, `/a/b`, ...;
    /// all with mode `0o555` but the last, which gets `dir_mode`.
    pub fn pack_prefix(&mut self, path: &str, dir_mode: u32) -> (r: Result<(), CPIOError>)
        requires
            path.spec_bytes().len() + 2 <= u32::MAX,
            path.spec_bytes().len() + 115 <= usize::MAX,
        ensures
            ({
                let (st, e) = spec_pack_prefix(old(self)@, path.spec_bytes(), dir_mode);
                &&& final(self)@ == st
                &&& r == (match e {
                    Some(e) => Err::<(), CPIOError>(e),
                    None => Ok(()),
                })
            }),
            old(self).wf() ==> final(self).wf(),
    {
        let pb = path.as_bytes();
        let ghost p = pb@;
        let ghost st0 = self@;
        let ghost wf0 = self.wf();
        let mut ancestor: Vec<u8> = Vec::new();
        ancestor.push(47u8);
        let mut i: usize = 0;
        proof {
            assert(p.take(0) =~= Seq::<u8>::empty());
            assert(ancestors(split_slash(p.take(0))) =~= seq![seq![47u8]]) by {
                assert(split_slash(Seq::<u8>::empty()) =~= seq![Seq::<u8>::empty()]);
                let cs = seq![Seq::<u8>::empty()];
                assert(cs.drop_last() =~= Seq::<Seq<u8>>::empty());
                assert(ancestors(cs.drop_last()) =~= Seq::<Seq<u8>>::empty());
            }
            assert(ancestor@ =~= seq![47u8]);
            assert(ancestors(split_slash(p.take(0))).drop_last() =~= Seq::<Seq<u8>>::empty());
        }
        while i < pb.len()
            invariant
                0 <= i <= p.len(),
                pb@ == p,
                p == path.spec_bytes(),
                st0 == old(self)@,
                wf0 == old(self).wf(),
                p.len() + 2 <= u32::MAX,
                p.len() + 115 <= usize::MAX,
                ancestor@ == ancestors(split_slash(p.take(i as int))).last(),
                ancestor@.len() <= i + 1,
                ancestors(split_slash(p.take(i as int))).len() > 0,
                spec_pack_dirs(st0, ancestors(split_slash(p.take(i as int))).drop_last(), 0o555)
                    == (self@, None::<CPIOError>),
                wf0 ==> self.wf(),
            decreases p.len() - i,
        {
            let b = pb[i];
            let ghost cs = split_slash(p.take(i as int));
            let ghost a = ancestors(cs);
            proof {
                assert(p.take(i + 1).drop_last() =~= p.take(i as int));
                lemma_split_slash_nonempty(p.take(i as int));
            }
            if b == 47u8 {
                let ghost before = self@;
                let res = self.pack_dir_bytes(&ancestor, 0o555);
                proof {
                    lemma_ancestors_push_empty(cs);
                    let a2 = ancestors(split_slash(p.take(i + 1)));
                    assert(split_slash(p.take(i + 1)) == cs.push(Seq::<u8>::empty()));
                    assert(a2.drop_last() =~= a);
                    assert(a.drop_last().push(a.last()) =~= a);
                }
                match res {
                    Err(e) => {
                        proof {
                            let c2 = split_slash(p.take(i + 1));
                            lemma_split_slash_prefix(p, i + 1);
                            lemma_split_slash_nonempty(p.take(i + 1));
                            lemma_ancestors_drop_last(c2);
                            lemma_ancestors_take(split_slash(p), c2.len() - 1);
                            lemma_ancestors_len(split_slash(p));
                            lemma_ancestors_len(c2.drop_last());
                            lemma_pack_dirs_error_stays(
                                st0,
                                ancestors(split_slash(p.take(i + 1))).drop_last(),
                                ancestors(split_slash(p)),
                                dir_mode,
                            );
                        }
                        return Err(e);
                    },
                    Ok(()) => {},
                }
                ancestor.push(47u8);
                proof {
                    assert(ancestor@ =~= a.last() + seq![47u8]);
                }
            } else {
                ancestor.push(b);
                proof {
                    lemma_ancestors_extend_last(cs, b);
                    assert(split_slash(p.take(i + 1)) == cs.update(
                        cs.len() - 1,
                        cs.last().push(b),
                    ));
                    lemma_ancestors_len(cs);
                    let a2 = ancestors(split_slash(p.take(i + 1)));
                    assert(a2.drop_last() =~= a.drop_last());
                }
            }
            i = i + 1;
        }
        assert(p.take(i as int) =~= p);
        let ghost a = ancestors(split_slash(p));
        assert(a.drop_last().push(a.last()) =~= a);
        self.pack_dir_bytes(&ancestor, dir_mode)
    }

    /// Packs the trailer entry that ends the archive.
    pub fn pack_trailer(&mut self) -> (r: Result<usize, CPIOError>)
        requires
            pack_one_error(old(self)@.bytes.len(), old(self)@.inodes, 10, 0, 0) is None
                ==> pack_one_fits(old(self)@.bytes.len(), trailer_name(), 0, Seq::empty()),
        ensures
            match pack_one_error(old(self)@.bytes.len(), old(self)@.inodes, 10, 0, 0) {
                Some(e) => r == Err::<usize, CPIOError>(e) && final(self)@ == old(self)@,
                None => {
                    let entry = entry_bytes(
                        trailer_name(),
                        (old(self)@.inodes + 1) as u32,
                        regular_mode(0),
                        Seq::empty(),
                    );
                    &&& r == Ok::<usize, CPIOError>(entry.len() as usize)
                    &&& final(self)@.bytes == old(self)@.bytes + entry
                    &&& final(self)@.inodes == old(self)@.inodes + 1
                },
            },
            old(self).wf() ==> final(self).wf(),
    {
        let empty: [u8; 0] = [];
        proof {
            reveal_strlit("TRAILER!!!");
            reveal_strlit("");
            lemma_trailer_bytes();
        }
        self.pack_one("TRAILER!!!", &empty, "", 0)
    }
}

/// `TRAILER!!!`.
pub open spec fn trailer_name() -> Seq<u8> {
    seq![84u8, 82u8, 65u8, 73u8, 76u8, 69u8, 82u8, 33u8, 33u8, 33u8]
}

proof fn lemma_trailer_bytes()
    ensures
        "TRAILER!!!".spec_bytes() == trailer_name(),
        "".spec_bytes() == Seq::<u8>::empty(),
{
    reveal_strlit("TRAILER!!!");
    reveal_strlit("");
    let t = "TRAILER!!!"@;
    assert(vstd::utf8::is_ascii_chars(t));
    vstd::utf8::is_ascii_chars_encode_utf8(t);
    assert("TRAILER!!!".spec_bytes() =~= trailer_name());
    let e = ""@;
    assert(vstd::utf8::is_ascii_chars(e));
    vstd::utf8::is_ascii_chars_encode_utf8(e);
    assert("".spec_bytes() =~= Seq::<u8>::empty());
}

} // verus!
