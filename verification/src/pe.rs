//! PE binaries: reading section data out of parsed images, and the section layout that the
//! stub images are assembled with.
use vstd::prelude::*;

use crate::paths::{backslash_chars, components_prefix, path_names, file_name, spec_file_name, strip_path_prefix, backslashed, path_strip_prefix};
use crate::strmap::chars_eq;
use crate::text::{chars_to_string, joined, join_strings, str_chars, push_chars, push_str, string_from_utf8, strings_view, utf8_text};
use vstd::utf8::{decode_utf8, encode_utf8, valid_utf8};

verus! {

/// What the logic reads of a section header.
#[derive(Debug, Clone)]
pub struct PeSection {
    /// The section name, or `None` where it cannot be read as text.
    pub name: Option<String>,
    pub virtual_size: u32,
    pub virtual_address: u32,
    pub size_of_raw_data: u32,
    pub pointer_to_raw_data: u32,
}

/// A section header as plain values.
pub struct SectionView {
    pub name: Option<Seq<char>>,
    pub virtual_size: u32,
    pub virtual_address: u32,
    pub size_of_raw_data: u32,
    pub pointer_to_raw_data: u32,
}

impl PeSection {
    pub open spec fn view(&self) -> SectionView {
        SectionView {
            name: match self.name {
                Some(n) => Some(n@),
                None => None,
            },
            virtual_size: self.virtual_size,
            virtual_address: self.virtual_address,
            size_of_raw_data: self.size_of_raw_data,
            pointer_to_raw_data: self.pointer_to_raw_data,
        }
    }
}

/// What the logic reads of a parsed PE image.
#[derive(Debug, Clone)]
pub struct PeInfo {
    pub sections: Vec<PeSection>,
    /// The image base of the optional header, where there is one.
    pub image_base: Option<u64>,
    /// The entry point address.
    pub entry: u32,
    /// Whether the image has a base relocation table.
    pub has_base_relocations: bool,
}

/// A parsed PE image as plain values.
pub struct PeView {
    pub sections: Seq<SectionView>,
    pub image_base: Option<u64>,
    pub entry: u32,
    pub has_base_relocations: bool,
}

pub open spec fn sections_view(s: Seq<PeSection>) -> Seq<SectionView> {
    s.map_values(|x: PeSection| x@)
}

impl PeInfo {
    pub open spec fn view(&self) -> PeView {
        PeView {
            sections: sections_view(self.sections@),
            image_base: self.image_base,
            entry: self.entry,
            has_base_relocations: self.has_base_relocations,
        }
    }
}

/// The result of `goblin::pe::PE::parse_with_opts` on some bytes, with certificate parsing on
/// (`certificates`, the default, which `PE::parse` uses) or off (for an image as it lies in
/// memory), taken as plain values.
pub uninterp spec fn parsed_pe(data: Seq<u8>, certificates: bool) -> Option<PeView>;

/// Parses a PE image.
///
/// Trusted: calls `goblin::pe::PE::parse_with_opts` with default options but for
/// `parse_attribute_certificates` and copies out the section headers (the name as
/// `SectionTable::name` reads it), the optional header's image base, the entry point and
/// whether there is a base relocation table. The contract only names the result.
#[verifier::external_body]
pub(crate) fn parse_pe(data: &[u8], certificates: bool) -> (r: Option<PeInfo>)
    ensures
        r matches Some(p) ==> parsed_pe(data@, certificates) == Some(p@),
        r is None ==> parsed_pe(data@, certificates) is None,
{
    let mut opts = goblin::pe::options::ParseOptions::default();
    opts.parse_attribute_certificates = certificates;
    let pe = goblin::pe::PE::parse_with_opts(data, &opts).ok()?;
    let oh = pe.header.optional_header;
    Some(PeInfo {
        sections: pe.sections.iter().map(|s| PeSection { name: s.name().ok().map(String::from),
            virtual_size: s.virtual_size, virtual_address: s.virtual_address,
            size_of_raw_data: s.size_of_raw_data, pointer_to_raw_data: s.pointer_to_raw_data,
        }).collect(),
        image_base: oh.map(|h| h.windows_fields.image_base),
        entry: pe.entry,
        has_base_relocations: oh.map_or(false, |h| h.data_directories.get_base_relocation_table().is_some()),
    })
}

/// The first section whose name reads as `name`.
pub open spec fn first_named(secs: Seq<SectionView>, name: Seq<char>) -> Option<int>
    decreases secs.len(),
{
    if secs.len() == 0 {
        None
    } else {
        match first_named(secs.drop_last(), name) {
            Some(i) => Some(i),
            None => if secs.last().name == Some(name) {
                Some(secs.len() - 1)
            } else {
                None
            },
        }
    }
}

/// The sections that the search for `name` reads the name of.
pub open spec fn searched(secs: Seq<SectionView>, name: Seq<char>) -> int {
    match first_named(secs, name) {
        Some(i) => i + 1,
        None => secs.len() as int,
    }
}

/// The search by name, the size check and the slicing of `read_section_data` all succeed:
/// every name read is text, and the section found lies in the file.
pub open spec fn read_section_ok(file_len: nat, secs: Seq<SectionView>, name: Seq<char>) -> bool {
    &&& forall|j: int| 0 <= j < searched(secs, name) ==> (#[trigger] secs[j]).name is Some
    &&& first_named(secs, name) matches Some(i) ==> {
        &&& secs[i].virtual_size <= secs[i].size_of_raw_data
        &&& secs[i].pointer_to_raw_data + secs[i].virtual_size <= file_len
    }
}

/// The data of the section named `name`, from its raw data pointer and its virtual size.
pub open spec fn spec_read_section_data(file: Seq<u8>, secs: Seq<SectionView>, name: Seq<char>) -> Option<Seq<u8>> {
    match first_named(secs, name) {
        Some(i) => Some(file.subrange(
            secs[i].pointer_to_raw_data as int,
            secs[i].pointer_to_raw_data + secs[i].virtual_size,
        )),
        None => None,
    }
}

proof fn lemma_first_named_step(secs: Seq<SectionView>, name: Seq<char>, i: int)
    requires
        0 <= i < secs.len(),
        first_named(secs.take(i), name) is None,
    ensures
        first_named(secs.take(i + 1), name) == (if secs[i].name == Some(name) {
            Some(i)
        } else {
            None::<int>
        }),
{
    assert(secs.take(i + 1).drop_last() =~= secs.take(i));
}

proof fn lemma_first_named_prefix(secs: Seq<SectionView>, name: Seq<char>, i: int)
    requires
        0 <= i <= secs.len(),
        first_named(secs.take(i), name) matches Some(k) && k < i,
    ensures
        first_named(secs, name) == first_named(secs.take(i), name),
    decreases secs.len() - i,
{
    if i < secs.len() {
        assert(secs.take(i + 1).drop_last() =~= secs.take(i));
        lemma_first_named_prefix(secs, name, i + 1);
    } else {
        assert(secs.take(i) =~= secs);
    }
}

/// Copies `data[start..end]`.
pub fn copy_range(data: &[u8], start: usize, end: usize) -> (r: Vec<u8>)
    requires
        start <= end <= data@.len(),
    ensures
        r@ == data@.subrange(start as int, end as int),
{
    let mut r: Vec<u8> = Vec::new();
    let mut i = start;
    while i < end
        invariant
            start <= i <= end <= data@.len(),
            r@ == data@.subrange(start as int, i as int),
        decreases end - i,
    {
        r.push(data[i]);
        i = i + 1;
        assert(r@ =~= data@.subrange(start as int, i as int));
    }
    r
}

fn name_is(n: &Option<String>, name: &Vec<char>) -> (r: bool)
    ensures
        r == (match n {
            Some(s) => Some(s@),
            None => None::<Seq<char>>,
        } == Some(name@)),
{
    match n {
        Some(s) => chars_eq(&str_chars(s.as_str()), name),
        None => false,
    }
}

/// The data of the first section named `section_name`, taken from the file at the section's
/// raw data pointer with its virtual size.
pub fn section_data_of(file_data: &[u8], sections: &Vec<PeSection>, section_name: &str) -> (r: Option<Vec<u8>>)
    requires
        read_section_ok(file_data@.len(), sections_view(sections@), section_name@),
    ensures
        r matches Some(v) ==> spec_read_section_data(file_data@, sections_view(sections@), section_name@) == Some(v@),
        r is None ==> spec_read_section_data(file_data@, sections_view(sections@), section_name@) is None,
{
    let ghost secs = sections_view(sections@);
    let name = str_chars(section_name);
    let mut i: usize = 0;
    assert(secs.take(0) =~= Seq::<SectionView>::empty());
    while i < sections.len()
        invariant
            0 <= i <= sections@.len(),
            secs == sections_view(sections@),
            name@ == section_name@,
            first_named(secs.take(i as int), name@) is None,
            read_section_ok(file_data@.len(), secs, section_name@),
        decreases sections@.len() - i,
    {
        let s = &sections[i];
        proof {
            lemma_first_named_step(secs, name@, i as int);
        }
        if name_is(&s.name, &name) {
            proof {
                lemma_first_named_prefix(secs, name@, i + 1);
                assert(secs[i as int] == sections@[i as int]@);
                assert(first_named(secs, section_name@) == Some(i as int));
            }
            let flen = file_data.len();
            assert(s.pointer_to_raw_data + s.virtual_size <= flen);
            let start = s.pointer_to_raw_data as usize;
            let end = start + s.virtual_size as usize;
            return Some(copy_range(file_data, start, end));
        }
        i = i + 1;
    }
    assert(secs.take(i as int) =~= secs);
    None
}

/// Reads the data of a section of a PE file, by name.
pub fn read_section_data(file_data: &[u8], section_name: &str) -> (r: Option<Vec<u8>>)
    requires
        parsed_pe(file_data@, true) matches Some(p) ==> read_section_ok(
            file_data@.len(),
            p.sections,
            section_name@,
        ),
    ensures
        r matches Some(v) ==> parsed_pe(file_data@, true) matches Some(p)
            && spec_read_section_data(file_data@, p.sections, section_name@) == Some(v@),
        r is None ==> parsed_pe(file_data@, true) matches None || (parsed_pe(file_data@, true) matches Some(p)
            && spec_read_section_data(file_data@, p.sections, section_name@) is None),
{
    let pe = parse_pe(file_data, true)?;
    section_data_of(file_data, &pe.sections, section_name)
}

/// `read_section_data` where the file is well enough formed for it: `None` where the file is
/// not, `Some` of what `read_section_data` gives otherwise.
pub fn checked_read_section_data(file_data: &[u8], section_name: &str) -> (r: Option<Option<Vec<u8>>>)
    ensures
        r is None <==> (parsed_pe(file_data@, true) matches Some(p) && !read_section_ok(
            file_data@.len(),
            p.sections,
            section_name@,
        )),
        r matches Some(Some(v)) ==> parsed_pe(file_data@, true) matches Some(p)
            && spec_read_section_data(file_data@, p.sections, section_name@) == Some(v@),
        r matches Some(None) ==> parsed_pe(file_data@, true) matches None || (parsed_pe(file_data@, true) matches Some(p)
            && spec_read_section_data(file_data@, p.sections, section_name@) is None),
{
    match parse_pe(file_data, true) {
        None => Some(None),
        Some(pe) => {
            if section_read_is_ok(file_data, &pe.sections, section_name) {
                Some(read_section_data(file_data, section_name))
            } else {
                None
            }
        },
    }
}

/// Tests `read_section_ok`.
pub fn section_read_is_ok(file_data: &[u8], sections: &Vec<PeSection>, section_name: &str) -> (r: bool)
    ensures
        r == read_section_ok(file_data@.len(), sections_view(sections@), section_name@),
{
    let ghost secs = sections_view(sections@);
    let name = str_chars(section_name);
    let mut i: usize = 0;
    assert(secs.take(0) =~= Seq::<SectionView>::empty());
    while i < sections.len()
        invariant
            0 <= i <= sections@.len(),
            secs == sections_view(sections@),
            name@ == section_name@,
            first_named(secs.take(i as int), name@) is None,
            forall|j: int| 0 <= j < i ==> (#[trigger] secs[j]).name is Some,
        decreases sections@.len() - i,
    {
        let s = &sections[i];
        proof {
            lemma_first_named_step(secs, name@, i as int);
        }
        if s.name.is_none() {
            proof {
                if first_named(secs, name@) matches Some(k) {
                    // the search reaches i before it stops
                    lemma_first_named_none_before(secs, name@, i as int);
                }
            }
            return false;
        }
        if name_is(&s.name, &name) {
            proof {
                lemma_first_named_prefix(secs, name@, i + 1);
            }
            let ok = s.virtual_size <= s.size_of_raw_data
                && (s.pointer_to_raw_data as u64) + (s.virtual_size as u64) <= file_data.len() as u64;
            return ok;
        }
        i = i + 1;
    }
    assert(secs.take(i as int) =~= secs);
    true
}

proof fn lemma_first_named_none_before(secs: Seq<SectionView>, name: Seq<char>, i: int)
    requires
        0 <= i < secs.len(),
        first_named(secs.take(i), name) is None,
    ensures
        first_named(secs, name) matches Some(k) ==> k >= i,
    decreases secs.len() - i,
{
    if i + 1 < secs.len() {
        lemma_first_named_step(secs, name, i);
        if first_named(secs.take(i + 1), name) is None {
            lemma_first_named_none_before(secs, name, i + 1);
        } else {
            lemma_first_named_prefix(secs, name, i + 1);
        }
    } else {
        lemma_first_named_step(secs, name, i);
        assert(secs.take(i + 1) =~= secs);
    }
}

/// The bytes of a section that a loaded image holds: `min(virtual_size, size_of_raw_data)`.
pub open spec fn copied_size(s: SectionView) -> int {
    if s.virtual_size <= s.size_of_raw_data {
        s.virtual_size as int
    } else {
        s.size_of_raw_data as int
    }
}

/// The section's loaded bytes lie inside an image of `len` bytes.
pub open spec fn loaded_section_fits(len: nat, s: SectionView) -> bool {
    s.virtual_address + copied_size(s) <= len
}

/// The data of a section in a loaded image: the bytes at its virtual address, padded with
/// zeros to its virtual size.
pub open spec fn spec_section_data(pe_data: Seq<u8>, s: SectionView) -> Seq<u8> {
    pe_data.subrange(s.virtual_address as int, s.virtual_address + copied_size(s)) + Seq::new(
        (s.virtual_size - copied_size(s)) as nat,
        |i: int| 0u8,
    )
}

/// The data of the first section named `name`, if there is one.
pub open spec fn spec_section_by_name(pe_data: Seq<u8>, secs: Seq<SectionView>, name: Seq<char>) -> Option<Seq<u8>> {
    match first_named(secs, name) {
        Some(i) => Some(spec_section_data(pe_data, secs[i])),
        None => None,
    }
}

/// The section found by name, if any, lies inside the image.
pub open spec fn section_by_name_ok(len: nat, secs: Seq<SectionView>, name: Seq<char>) -> bool {
    first_named(secs, name) matches Some(i) ==> loaded_section_fits(len, secs[i])
}

/// A byte vector, if any, as a sequence.
pub open spec fn opt_bytes(r: Option<Vec<u8>>) -> Option<Seq<u8>> {
    match r {
        Some(v) => Some(v@),
        None => None,
    }
}

/// The data that `pe_section` reads from a loaded image.
pub open spec fn spec_pe_section(pe_data: Seq<u8>, name: Seq<char>) -> Option<Seq<u8>> {
    match parsed_pe(pe_data, true) {
        Some(p) => spec_section_by_name(pe_data, p.sections, name),
        None => None,
    }
}

/// `pe_section` finds no section that lies outside the image.
pub open spec fn pe_section_ok(pe_data: Seq<u8>, name: Seq<char>) -> bool {
    parsed_pe(pe_data, true) matches Some(p) ==> section_by_name_ok(pe_data.len(), p.sections, name)
}

/// Extracts the data of a section in a loaded PE file from its section header: the bytes at
/// the section's virtual address, zero-padded to its virtual size.
pub fn pe_section_data(pe_data: &[u8], section: &PeSection) -> (r: Option<Vec<u8>>)
    requires
        loaded_section_fits(pe_data@.len(), section@),
    ensures
        r matches Some(v) && v@ == spec_section_data(pe_data@, section@),
{
    let start = section.virtual_address as usize;
    let copied = if section.virtual_size <= section.size_of_raw_data {
        section.virtual_size
    } else {
        section.size_of_raw_data
    };
    let len = pe_data.len();
    assert(start + copied <= len);
    let end = start + copied as usize;
    let mut data = copy_range(pe_data, start, end);
    let target = section.virtual_size as usize;
    let ghost prefix = data@;
    while data.len() < target
        invariant
            prefix.len() <= data@.len() <= target,
            target == section.virtual_size,
            data@ == prefix + Seq::new((data@.len() - prefix.len()) as nat, |i: int| 0u8),
        decreases target - data@.len(),
    {
        data.push(0);
        assert(data@ =~= prefix + Seq::new((data@.len() - prefix.len()) as nat, |i: int| 0u8));
    }
    Some(data)
}

/// The index of the first section named `name`; sections whose name is not text match no name.
pub fn find_section(sections: &Vec<PeSection>, name: &str) -> (r: Option<usize>)
    ensures
        r matches Some(i) ==> i < sections@.len() && first_named(sections_view(sections@), name@)
            == Some(i as int),
        r is None ==> first_named(sections_view(sections@), name@) is None,
{
    let ghost secs = sections_view(sections@);
    let nm = str_chars(name);
    let mut i: usize = 0;
    assert(secs.take(0) =~= Seq::<SectionView>::empty());
    while i < sections.len()
        invariant
            0 <= i <= sections@.len(),
            secs == sections_view(sections@),
            nm@ == name@,
            first_named(secs.take(i as int), nm@) is None,
        decreases sections@.len() - i,
    {
        proof {
            lemma_first_named_step(secs, nm@, i as int);
        }
        if name_is(&sections[i].name, &nm) {
            proof {
                lemma_first_named_prefix(secs, nm@, i + 1);
            }
            return Some(i);
        }
        i = i + 1;
    }
    assert(secs.take(i as int) =~= secs);
    None
}

/// The data of the first section named `section_name` in a loaded image whose section headers
/// are given.
pub fn section_by_name(pe_data: &[u8], sections: &Vec<PeSection>, section_name: &str) -> (r: Option<Vec<u8>>)
    requires
        section_by_name_ok(pe_data@.len(), sections_view(sections@), section_name@),
    ensures
        opt_bytes(r) == spec_section_by_name(pe_data@, sections_view(sections@), section_name@),
{
    match find_section(sections, section_name) {
        Some(i) => {
            assert(sections_view(sections@)[i as int] == sections@[i as int]@);
            pe_section_data(pe_data, &sections[i])
        },
        None => None,
    }
}

/// Extracts the data of a section of a loaded PE file, by name.
pub fn pe_section(pe_data: &[u8], section_name: &str) -> (r: Option<Vec<u8>>)
    requires
        pe_section_ok(pe_data@, section_name@),
    ensures
        opt_bytes(r) == spec_pe_section(pe_data@, section_name@),
{
    let pe = parse_pe(pe_data, true)?;
    section_by_name(pe_data, &pe.sections, section_name)
}

/// `pe_section` where the section found lies inside the image: `None` where it does not.
pub fn checked_pe_section(pe_data: &[u8], section_name: &str) -> (r: Option<Option<Vec<u8>>>)
    ensures
        r is None <==> !pe_section_ok(pe_data@, section_name@),
        r matches Some(d) ==> opt_bytes(d) == spec_pe_section(pe_data@, section_name@),
{
    match parse_pe(pe_data, true) {
        None => Some(None),
        Some(pe) => match find_section(&pe.sections, section_name) {
            None => Some(None),
            Some(i) => {
                let s = &pe.sections[i];
                assert(sections_view(pe.sections@)[i as int] == pe.sections@[i as int]@);
                let copied = if s.virtual_size <= s.size_of_raw_data {
                    s.virtual_size
                } else {
                    s.size_of_raw_data
                };
                if (s.virtual_address as u64) + (copied as u64) <= pe_data.len() as u64 {
                    Some(pe_section(pe_data, section_name))
                } else {
                    None
                }
            },
        },
    }
}

/// The text of a section of a loaded image, where its data is UTF-8.
pub open spec fn spec_pe_section_as_string(pe_data: Seq<u8>, name: Seq<char>) -> Option<Seq<char>> {
    match spec_pe_section(pe_data, name) {
        Some(b) => utf8_text(b),
        None => None,
    }
}

/// A string, if any, as characters.
pub open spec fn opt_chars(r: Option<String>) -> Option<Seq<char>> {
    match r {
        Some(s) => Some(s@),
        None => None,
    }
}

/// Extracts the data of a section of a loaded PE image and returns it as a string.
pub fn pe_section_as_string(pe_data: &[u8], section_name: &str) -> (r: Option<String>)
    requires
        pe_section_ok(pe_data@, section_name@),
    ensures
        opt_chars(r) == spec_pe_section_as_string(pe_data@, section_name@),
{
    let data = pe_section(pe_data, section_name)?;
    let r = string_from_utf8(data);
    proof {
        if r is Some {
            decode_utf8_encode_utf8_of(r->0@);
        }
    }
    r
}

/// `pe_section_as_string` where the section found lies inside the image: `None` where it does
/// not.
pub fn checked_pe_section_as_string(pe_data: &[u8], section_name: &str) -> (r: Option<Option<String>>)
    ensures
        r is None <==> !pe_section_ok(pe_data@, section_name@),
        r matches Some(t) ==> opt_chars(t) == spec_pe_section_as_string(pe_data@, section_name@),
{
    match checked_pe_section(pe_data, section_name) {
        None => None,
        Some(_) => Some(pe_section_as_string(pe_data, section_name)),
    }
}

proof fn decode_utf8_encode_utf8_of(chars: Seq<char>)
    ensures
        decode_utf8(encode_utf8(chars)) == chars,
        valid_utf8(encode_utf8(chars)),
{
    vstd::utf8::encode_utf8_decode_utf8(chars);
    vstd::utf8::encode_utf8_valid_utf8(chars);
}

/// What can go wrong while the stub images are laid out.
#[derive(Debug, Clone, Copy, PartialEq, Eq, Structural)]
pub enum PeError {
    /// The PE binary could not be parsed.
    Parse,
    /// A path does not lie under the ESP.
    NotUnderEsp,
    /// The Xen kernel is not a `bzImage`.
    NotBzImage,
}

/// The lowercase hexadecimal digit of `d < 16`.
pub open spec fn hex_digit(d: nat) -> char {
    if d < 10 {
        ((48 + d) as u8) as char
    } else {
        ((87 + d) as u8) as char
    }
}

/// `n` in lowercase hexadecimal, without leading zeros.
pub open spec fn lower_hex(n: nat) -> Seq<char>
    decreases n,
{
    if n < 16 {
        seq![hex_digit(n)]
    } else {
        lower_hex(n / 16).push(hex_digit(n % 16))
    }
}

fn hex_digit_char(d: u64) -> (c: char)
    requires
        d < 16,
    ensures
        c == hex_digit(d as nat),
{
    let b: u8 = if d < 10 { 48 + d as u8 } else { 87 + d as u8 };
    b as char
}

/// Appends `n` in lowercase hexadecimal.
fn push_lower_hex(out: &mut Vec<char>, n: u64)
    ensures
        final(out)@ == old(out)@ + lower_hex(n as nat),
    decreases n,
{
    if n >= 16 {
        push_lower_hex(out, n / 16);
    }
    out.push(hex_digit_char(n % 16));
    assert(final(out)@ =~= old(out)@ + lower_hex(n as nat));
}

/// `format!("{:#x}", n)`: `0x` and `n` in lowercase hexadecimal.
pub open spec fn alt_hex(n: nat) -> Seq<char> {
    seq!['0', 'x'] + lower_hex(n)
}

/// The size of an image, rounded up to the 4 KiB alignment that EFI sections need.
pub open spec fn spec_align_to_4k(n: int) -> int {
    (n + 4095) / 4096 * 4096
}

/// Rounds up to a multiple of 4 KiB, the alignment of EFI sections.
pub fn align_to_4k(num: u64) -> (r: u64)
    requires
        num + 0xFFF <= u64::MAX,
    ensures
        r == spec_align_to_4k(num as int),
        r % 4096 == 0,
        num <= r < num + 4096,
{
    let t: u64 = num + 0xFFF;
    let r: u64 = t & !0xFFFu64;
    assert(r == t / 4096 * 4096 && r % 4096 == 0 && t - 0xFFF <= r && r <= t) by (bit_vector)
        requires
            r == t & !0xFFFu64,
    ;
    r
}

/// A section to attach to a PE stub: its name, the file that holds its data, and its virtual
/// address once laid out (`u64::MAX` until then).
#[derive(Debug)]
pub struct Section {
    pub name: String,
    pub file_path: String,
    pub offset: u64,
}

impl Section {
    /// A section whose address is not laid out yet.
    pub fn new(name: &str, file_path: &str) -> (r: Section)
        ensures
            r.name@ == name@,
            r.file_path@ == file_path@,
            r.offset == u64::MAX,
    {
        Section { name: name.to_owned(), file_path: file_path.to_owned(), offset: u64::MAX }
    }

    /// Whether the section's address has been laid out.
    pub fn resolved_offset(&self) -> (r: bool)
        ensures
            r == (self.offset != u64::MAX),
    {
        self.offset != u64::MAX
    }

    /// The `objcopy` arguments that attach the section to a PE file at its address.
    pub fn to_objcopy(&self) -> (r: Vec<String>)
        requires
            self.offset != u64::MAX,
        ensures
            strings_view(r@) == objcopy_section_args(self.name@, self.file_path@, self.offset as nat),
    {
        let mut map_str: Vec<char> = Vec::new();
        push_str(&mut map_str, self.name.as_str());
        map_str.push('=');
        push_str(&mut map_str, self.file_path.as_str());
        let mut vma: Vec<char> = Vec::new();
        push_str(&mut vma, self.name.as_str());
        vma.push('=');
        vma.push('0');
        vma.push('x');
        push_lower_hex(&mut vma, self.offset);
        let mut r: Vec<String> = Vec::new();
        r.push("--add-section".to_owned());
        r.push(chars_to_string(&map_str));
        r.push("--change-section-vma".to_owned());
        r.push(chars_to_string(&vma));
        proof {
            reveal_strlit("--add-section");
            reveal_strlit("--change-section-vma");
        }
        assert(map_str@ =~= self.name@ + seq!['='] + self.file_path@);
        assert(vma@ =~= self.name@ + seq!['='] + alt_hex(self.offset as nat));
        assert(strings_view(r@) =~= objcopy_section_args(self.name@, self.file_path@, self.offset as nat));
        r
    }
}

/// The `objcopy` arguments for one section.
pub open spec fn objcopy_section_args(name: Seq<char>, path: Seq<char>, offset: nat) -> Seq<Seq<char>> {
    seq![
        "--add-section"@,
        name + seq!['='] + path,
        "--change-section-vma"@,
        name + seq!['='] + alt_hex(offset),
    ]
}

/// The sections laid out: each starts at the next 4 KiB boundary after the end of the one
/// before, the first at or after `current`.
pub open spec fn section_offsets(current: int, sizes: Seq<u64>) -> Seq<int>
    decreases sizes.len(),
{
    if sizes.len() == 0 {
        Seq::empty()
    } else {
        let o = spec_align_to_4k(current);
        seq![o] + section_offsets(o + sizes[0], sizes.drop_first())
    }
}

proof fn lemma_align_to_4k(c: int)
    requires
        c >= 0,
    ensures
        spec_align_to_4k(c) % 4096 == 0,
        c <= spec_align_to_4k(c) < c + 4096,
{
    let q = (c + 4095) / 4096;
    assert(spec_align_to_4k(c) == q * 4096);
    assert((q * 4096) % 4096 == 0) by (nonlinear_arith);
    assert(c <= q * 4096 < c + 4096) by (nonlinear_arith)
        requires
            q == (c + 4095) / 4096,
            c >= 0,
    ;
}

/// EFI sections are 4 KiB aligned: every section starts on a 4 KiB boundary at or after
/// `current`, and each ends before the next one starts, so that none overlaps another.
pub proof fn law_sections_aligned_in_order(current: int, sizes: Seq<u64>)
    requires
        current >= 0,
    ensures
        section_offsets(current, sizes).len() == sizes.len(),
        forall|i: int| 0 <= i < sizes.len() ==> #[trigger] section_offsets(current, sizes)[i] % 4096 == 0
            && current <= section_offsets(current, sizes)[i],
        forall|i: int, j: int| 0 <= i < j < sizes.len() ==> #[trigger] section_offsets(current, sizes)[i]
            + sizes[i] <= #[trigger] section_offsets(current, sizes)[j],
    decreases sizes.len(),
{
    if sizes.len() > 0 {
        let o = spec_align_to_4k(current);
        lemma_align_to_4k(current);
        let tail = sizes.drop_first();
        law_sections_aligned_in_order(o + sizes[0], tail);
        let offs = section_offsets(current, sizes);
        let rest = section_offsets(o + sizes[0], tail);
        assert(offs == seq![o] + rest);
        assert forall|i: int| 0 <= i < sizes.len() implies #[trigger] offs[i] % 4096 == 0 && current <= offs[i] by {
            if i > 0 {
                assert(offs[i] == rest[i - 1]);
            }
        }
        assert forall|i: int, j: int| 0 <= i < j < sizes.len() implies #[trigger] offs[i] + sizes[i] <= #[trigger] offs[j] by {
            assert(offs[j] == rest[j - 1]);
            if i > 0 {
                assert(offs[i] == rest[i - 1]);
                assert(tail[i - 1] == sizes[i]);
            }
        }
    }
}

/// The layout of `section_offsets` stays inside 64 bits, the end of the last section included.
pub open spec fn offsets_fit(current: int, sizes: Seq<u64>) -> bool
    decreases sizes.len(),
{
    sizes.len() == 0 || {
        &&& current + 0xFFF <= u64::MAX
        &&& spec_align_to_4k(current) + sizes[0] <= u64::MAX
        &&& offsets_fit(spec_align_to_4k(current) + sizes[0], sizes.drop_first())
    }
}

/// Whether sections of these sizes can be laid out from `current` on within 64 bits; where they
/// cannot, `calculate_offsets` would overflow.
pub fn layout_fits(current: u64, sizes: &Vec<u64>) -> (r: bool)
    ensures
        r == offsets_fit(current as int, sizes@),
{
    let mut cur = current;
    let mut i: usize = 0;
    proof {
        assert(sizes@.skip(0) =~= sizes@);
    }
    while i < sizes.len()
        invariant
            0 <= i <= sizes@.len(),
            offsets_fit(current as int, sizes@) == offsets_fit(cur as int, sizes@.skip(i as int)),
        decreases sizes@.len() - i,
    {
        proof {
            assert(sizes@.skip(i as int)[0] == sizes@[i as int]);
            assert(sizes@.skip(i as int).drop_first() =~= sizes@.skip(i + 1));
        }
        if cur > u64::MAX - 0xFFF {
            return false;
        }
        let aligned = align_to_4k(cur);
        if aligned > u64::MAX - sizes[i] {
            return false;
        }
        cur = aligned + sizes[i];
        i = i + 1;
    }
    proof {
        assert(sizes@.skip(i as int).len() == 0);
    }
    true
}

/// Lays the sections out from `current` on, given the size of each section's file.
pub fn calculate_offsets(current: u64, sections: &mut Vec<Section>, sizes: &Vec<u64>)
    requires
        sizes@.len() == old(sections)@.len(),
        forall|i: int| 0 <= i < old(sections)@.len() ==> (#[trigger] old(sections)@[i]).offset == u64::MAX,
        offsets_fit(current as int, sizes@),
    ensures
        final(sections)@.len() == old(sections)@.len(),
        forall|i: int| 0 <= i < final(sections)@.len() ==> {
            &&& (#[trigger] final(sections)@[i]).name == old(sections)@[i].name
            &&& final(sections)@[i].file_path == old(sections)@[i].file_path
            &&& final(sections)@[i].offset == section_offsets(current as int, sizes@)[i]
        },
{
    let ghost c0 = current as int;
    let mut cur = current;
    let mut i: usize = 0;
    proof {
        assert(sizes@.skip(0) =~= sizes@);
        lemma_section_offsets_len(c0, sizes@);
        assert(section_offsets(c0, sizes@).take(0) + section_offsets(c0, sizes@) =~= section_offsets(c0, sizes@));
    }
    while i < sections.len()
        invariant
            0 <= i <= sections@.len(),
            sizes@.len() == sections@.len(),
            sections@.len() == old(sections)@.len(),
            offsets_fit(cur as int, sizes@.skip(i as int)),
            section_offsets(c0, sizes@) == section_offsets(c0, sizes@).take(i as int) + section_offsets(
                cur as int,
                sizes@.skip(i as int),
            ),
            section_offsets(c0, sizes@).len() == sizes@.len(),
            forall|j: int| 0 <= j < sections@.len() ==> {
                &&& (#[trigger] sections@[j]).name == old(sections)@[j].name
                &&& sections@[j].file_path == old(sections)@[j].file_path
            },
            forall|j: int| 0 <= j < i ==> (#[trigger] sections@[j]).offset == section_offsets(c0, sizes@)[j],
            forall|j: int| i <= j < sections@.len() ==> (#[trigger] sections@[j]).offset == u64::MAX,
        decreases sections@.len() - i,
    {
        proof {
            lemma_section_offsets_len(cur as int, sizes@.skip(i as int));
            assert(sizes@.skip(i as int).drop_first() =~= sizes@.skip(i + 1));
        }
        let aligned = align_to_4k(cur);
        sections[i].offset = aligned;
        cur = aligned + sizes[i];
        proof {
            let tail = section_offsets(aligned as int, sizes@.skip(i as int));
            assert(section_offsets(c0, sizes@)[i as int] == aligned);
            assert(section_offsets(c0, sizes@).take(i + 1) =~= section_offsets(c0, sizes@).take(i as int).push(aligned as int));
        }
        i = i + 1;
    }
}

proof fn lemma_section_offsets_len(current: int, sizes: Seq<u64>)
    ensures
        section_offsets(current, sizes).len() == sizes.len(),
    decreases sizes.len(),
{
    if sizes.len() > 0 {
        lemma_section_offsets_len(spec_align_to_4k(current) + sizes[0], sizes.drop_first());
    }
}

/// The `objcopy` arguments that attach all the sections, in order.
pub open spec fn objcopy_sections_args(secs: Seq<Section>) -> Seq<Seq<char>>
    decreases secs.len(),
{
    if secs.len() == 0 {
        Seq::empty()
    } else {
        objcopy_sections_args(secs.drop_last()) + objcopy_section_args(
            secs.last().name@,
            secs.last().file_path@,
            secs.last().offset as nat,
        )
    }
}

/// The arguments of the `objcopy` run that attaches the laid-out sections to `stub` and writes
/// the result to `output`.
pub fn objcopy_args(sections: &Vec<Section>, stub: &str, output: &str) -> (r: Vec<String>)
    requires
        forall|i: int| 0 <= i < sections@.len() ==> (#[trigger] sections@[i]).offset != u64::MAX,
    ensures
        strings_view(r@) == objcopy_sections_args(sections@) + seq![stub@, output@],
{
    let mut args: Vec<String> = Vec::new();
    let mut i: usize = 0;
    assert(sections@.take(0) =~= Seq::<Section>::empty());
    while i < sections.len()
        invariant
            0 <= i <= sections@.len(),
            forall|k: int| 0 <= k < sections@.len() ==> (#[trigger] sections@[k]).offset != u64::MAX,
            strings_view(args@) == objcopy_sections_args(sections@.take(i as int)),
        decreases sections@.len() - i,
    {
        let part = sections[i].to_objcopy();
        let ghost before = args@;
        let mut j: usize = 0;
        while j < part.len()
            invariant
                0 <= j <= part@.len(),
                args@ == before + part@.take(j as int),
            decreases part@.len() - j,
        {
            args.push(part[j].clone());
            j = j + 1;
            assert(args@ =~= before + part@.take(j as int));
        }
        assert(part@.take(j as int) =~= part@);
        assert(sections@.take(i + 1).drop_last() =~= sections@.take(i as int));
        i = i + 1;
        assert(strings_view(args@) =~= objcopy_sections_args(sections@.take(i as int)));
    }
    assert(sections@.take(i as int) =~= sections@);
    let ghost body = args@;
    args.push(stub.to_owned());
    args.push(output.to_owned());
    assert(strings_view(args@) =~= strings_view(body) + seq![stub@, output@]);
    args
}

/// The image base of a parsed PE image.
pub fn image_base(pe: &PeInfo) -> (r: u64)
    requires
        pe.image_base is Some,
    ensures
        r == pe.image_base->0,
{
    match pe.image_base {
        Some(b) => b,
        None => 0,
    }
}

/// The address right after the last section of the stub, as a virtual address.
pub open spec fn spec_stub_offset(p: PeView) -> int {
    p.sections.last().virtual_size + p.sections.last().virtual_address + p.image_base->0
}

/// `stub_offset` neither panics nor overflows on the image.
pub open spec fn stub_offset_ok(p: PeView) -> bool {
    &&& p.image_base is Some
    &&& p.sections.len() > 0
    &&& p.sections.last().virtual_size + p.sections.last().virtual_address <= u32::MAX
    &&& spec_stub_offset(p) <= u64::MAX
}

/// The virtual address right after the last section of a parsed stub.
pub fn stub_offset_of(pe: &PeInfo) -> (r: u64)
    requires
        stub_offset_ok(pe@),
    ensures
        r == spec_stub_offset(pe@),
{
    let base = image_base(pe);
    let last = &pe.sections[pe.sections.len() - 1];
    assert(pe@.sections.last() == last@);
    let end: u32 = last.virtual_size + last.virtual_address;
    end as u64 + base
}

/// Tests `stub_offset_ok`.
fn stub_offset_is_ok(pe: &PeInfo) -> (r: bool)
    ensures
        r == stub_offset_ok(pe@),
{
    if pe.image_base.is_none() || pe.sections.len() == 0 {
        return false;
    }
    let last = &pe.sections[pe.sections.len() - 1];
    assert(pe@.sections.last() == last@);
    let end: u64 = last.virtual_size as u64 + last.virtual_address as u64;
    end <= u32::MAX as u64 && end <= u64::MAX - image_base(pe)
}

/// The virtual address at which the sections of a stub image start to be laid out: the end of
/// the stub's last section.
pub fn stub_offset(pe_binary: &[u8]) -> (r: Result<u64, PeError>)
    requires
        parsed_pe(pe_binary@, true) matches Some(p) ==> stub_offset_ok(p),
    ensures
        parsed_pe(pe_binary@, true) is None ==> r == Err::<u64, PeError>(PeError::Parse),
        parsed_pe(pe_binary@, true) matches Some(p) ==> r == Ok::<u64, PeError>(
            spec_stub_offset(p) as u64,
        ),
{
    match parse_pe(pe_binary, true) {
        None => Err(PeError::Parse),
        Some(pe) => Ok(stub_offset_of(&pe)),
    }
}

/// `stub_offset` where the stub has an image base and sections and the address fits: `None`
/// where it does not.
pub fn checked_stub_offset(pe_binary: &[u8]) -> (r: Option<Result<u64, PeError>>)
    ensures
        r is None <==> (parsed_pe(pe_binary@, true) matches Some(p) && !stub_offset_ok(p)),
        parsed_pe(pe_binary@, true) is None ==> r == Some(Err::<u64, PeError>(PeError::Parse)),
        parsed_pe(pe_binary@, true) matches Some(p) ==> (stub_offset_ok(p) ==> r == Some(
            Ok::<u64, PeError>(spec_stub_offset(p) as u64),
        )),
{
    match parse_pe(pe_binary, true) {
        None => Some(Err(PeError::Parse)),
        Some(pe) => if stub_offset_is_ok(&pe) {
            Some(stub_offset(pe_binary))
        } else {
            None
        },
    }
}

/// The address right after the `.pad` section of the Xen stub, as a virtual address.
pub open spec fn spec_xen_offset(p: PeView) -> int {
    let pad = p.sections[first_named(p.sections, ".pad"@)->0];
    pad.virtual_size + pad.virtual_address + p.image_base->0
}

/// `xen_offset` neither panics nor overflows on the image.
pub open spec fn xen_offset_ok(p: PeView) -> bool {
    &&& p.image_base is Some
    &&& first_named(p.sections, ".pad"@) is Some
    &&& p.sections[first_named(p.sections, ".pad"@)->0].virtual_size
        + p.sections[first_named(p.sections, ".pad"@)->0].virtual_address <= u32::MAX
    &&& spec_xen_offset(p) <= u64::MAX
}

/// The virtual address right after the `.pad` section of a parsed Xen stub.
pub fn xen_offset_of(pe: &PeInfo) -> (r: u64)
    requires
        xen_offset_ok(pe@),
    ensures
        r == spec_xen_offset(pe@),
{
    let base = image_base(pe);
    match find_section(&pe.sections, ".pad") {
        Some(i) => {
            let pad = &pe.sections[i];
            assert(pe@.sections[i as int] == pad@);
            let end: u32 = pad.virtual_size + pad.virtual_address;
            end as u64 + base
        },
        None => 0,
    }
}

/// Tests `xen_offset_ok`.
fn xen_offset_is_ok(pe: &PeInfo) -> (r: bool)
    ensures
        r == xen_offset_ok(pe@),
{
    if pe.image_base.is_none() {
        return false;
    }
    match find_section(&pe.sections, ".pad") {
        Some(i) => {
            let pad = &pe.sections[i];
            assert(pe@.sections[i as int] == pad@);
            let end: u64 = pad.virtual_size as u64 + pad.virtual_address as u64;
            end <= u32::MAX as u64 && end <= u64::MAX - image_base(pe)
        },
        None => false,
    }
}

/// The virtual address at which the sections of a Xen image start to be laid out: the end of
/// the stub's `.pad` section.
pub fn xen_offset(pe_binary: &[u8]) -> (r: Result<u64, PeError>)
    requires
        parsed_pe(pe_binary@, true) matches Some(p) ==> xen_offset_ok(p),
    ensures
        parsed_pe(pe_binary@, true) is None ==> r == Err::<u64, PeError>(PeError::Parse),
        parsed_pe(pe_binary@, true) matches Some(p) ==> r == Ok::<u64, PeError>(
            spec_xen_offset(p) as u64,
        ),
{
    match parse_pe(pe_binary, true) {
        None => Err(PeError::Parse),
        Some(pe) => Ok(xen_offset_of(&pe)),
    }
}

/// `xen_offset` where the stub has an image base and a `.pad` section and the address fits:
/// `None` where it does not.
pub fn checked_xen_offset(pe_binary: &[u8]) -> (r: Option<Result<u64, PeError>>)
    ensures
        r is None <==> (parsed_pe(pe_binary@, true) matches Some(p) && !xen_offset_ok(p)),
        parsed_pe(pe_binary@, true) is None ==> r == Some(Err::<u64, PeError>(PeError::Parse)),
        parsed_pe(pe_binary@, true) matches Some(p) ==> (xen_offset_ok(p) ==> r == Some(
            Ok::<u64, PeError>(spec_xen_offset(p) as u64),
        )),
{
    match parse_pe(pe_binary, true) {
        None => Some(Err(PeError::Parse)),
        Some(pe) => if xen_offset_is_ok(&pe) {
            Some(xen_offset(pe_binary))
        } else {
            None
        },
    }
}

/// A path as UEFI writes it: every `/` replaced by a backslash.
pub fn uefi_path(path: &str) -> (r: String)
    ensures
        r@ == backslashed(path@),
{
    chars_to_string(&backslash_chars(&str_chars(path)))
}

/// The UEFI path of `path` relative to the ESP root: a backslash, then the part of `path`
/// under `esp` with its separators as backslashes.
pub open spec fn spec_esp_relative_uefi_path(esp: Seq<char>, path: Seq<char>) -> Option<Seq<char>> {
    match path_strip_prefix(path, esp) {
        Some(rel) => Some(seq!['\\'] + backslashed(rel)),
        None => None,
    }
}

/// Converts a path to a UEFI path relative to the ESP; fails where the path does not lie
/// under the ESP.
pub fn esp_relative_uefi_path(esp: &str, path: &str) -> (r: Result<String, PeError>)
    ensures
        spec_esp_relative_uefi_path(esp@, path@) matches Some(u) ==> (r matches Ok(s) && s@ == u),
        spec_esp_relative_uefi_path(esp@, path@) is None ==> r == Err::<String, PeError>(
            PeError::NotUnderEsp,
        ),
        r is Ok <==> components_prefix(esp@, path@),
        r is Ok ==> (path_strip_prefix(path@, esp@) matches Some(rel) && path_names(rel) == path_names(
            path@,
        ).skip(path_names(esp@).len() as int)),
{
    match strip_path_prefix(path, esp) {
        None => Err(PeError::NotUnderEsp),
        Some(rel) => {
            let mut out: Vec<char> = Vec::new();
            out.push('\\');
            let converted = backslash_chars(&str_chars(rel.as_str()));
            push_chars(&mut out, &converted);
            Ok(chars_to_string(&out))
        },
    }
}

/// What the stub image of a generation is assembled from.
#[derive(Debug)]
pub struct StubParameters {
    pub lanzaboote_store_path: String,
    pub kernel_cmdline: Vec<String>,
    pub os_release_contents: Vec<u8>,
    pub kernel_store_path: String,
    pub initrd_store_path: String,
    /// Kernel path rooted at the ESP: `/boot/efi/EFI/NixOS/kernel.efi` becomes
    /// `\EFI\NixOS\kernel.efi`, which is turned into UTF-16 when the stub is assembled.
    pub kernel_path_at_esp: String,
    /// Initrd path rooted at the ESP, as for the kernel.
    pub initrd_path_at_esp: String,
}

/// Copies a byte slice.
pub fn bytes_to_vec(b: &[u8]) -> (r: Vec<u8>)
    ensures
        r@ == b@,
{
    copy_range(b, 0, b.len())
}

/// Copies a slice of strings.
pub fn strings_to_vec(v: &[String]) -> (r: Vec<String>)
    ensures
        r@ == v@,
{
    let mut r: Vec<String> = Vec::new();
    let mut i: usize = 0;
    while i < v.len()
        invariant
            0 <= i <= v@.len(),
            r@ == v@.take(i as int),
        decreases v@.len() - i,
    {
        r.push(v[i].clone());
        i = i + 1;
        assert(r@ =~= v@.take(i as int));
    }
    assert(v@.take(i as int) =~= v@);
    r
}

impl StubParameters {
    /// The parameters of a stub for a kernel and initrd that are installed at `kernel_target`
    /// and `initrd_target` on the ESP at `esp`; no command line and no os-release yet. Fails
    /// where a target does not lie under the ESP.
    pub fn new(
        lanzaboote_stub: &str,
        kernel_path: &str,
        initrd_path: &str,
        kernel_target: &str,
        initrd_target: &str,
        esp: &str,
    ) -> (r: Result<StubParameters, PeError>)
        ensures
            (spec_esp_relative_uefi_path(esp@, kernel_target@) is None || spec_esp_relative_uefi_path(
                esp@,
                initrd_target@,
            ) is None) <==> r is Err,
            r is Err ==> r == Err::<StubParameters, PeError>(PeError::NotUnderEsp),
            r is Ok <==> components_prefix(esp@, kernel_target@) && components_prefix(esp@, initrd_target@),
            r matches Ok(p) ==> {
                &&& p.lanzaboote_store_path@ == lanzaboote_stub@
                &&& p.kernel_store_path@ == kernel_path@
                &&& p.initrd_store_path@ == initrd_path@
                &&& Some(p.kernel_path_at_esp@) == spec_esp_relative_uefi_path(esp@, kernel_target@)
                &&& Some(p.initrd_path_at_esp@) == spec_esp_relative_uefi_path(esp@, initrd_target@)
                &&& p.kernel_cmdline@.len() == 0
                &&& p.os_release_contents@.len() == 0
            },
    {
        let kernel_path_at_esp = esp_relative_uefi_path(esp, kernel_target)?;
        let initrd_path_at_esp = esp_relative_uefi_path(esp, initrd_target)?;
        Ok(StubParameters {
            lanzaboote_store_path: lanzaboote_stub.to_owned(),
            kernel_store_path: kernel_path.to_owned(),
            initrd_store_path: initrd_path.to_owned(),
            kernel_path_at_esp,
            initrd_path_at_esp,
            kernel_cmdline: Vec::new(),
            os_release_contents: Vec::new(),
        })
    }

    /// The parameters with the given os-release contents.
    pub fn with_os_release_contents(self, os_release_contents: &[u8]) -> (r: StubParameters)
        ensures
            r.os_release_contents@ == os_release_contents@,
            r.lanzaboote_store_path == self.lanzaboote_store_path,
            r.kernel_cmdline == self.kernel_cmdline,
            r.kernel_store_path == self.kernel_store_path,
            r.initrd_store_path == self.initrd_store_path,
            r.kernel_path_at_esp == self.kernel_path_at_esp,
            r.initrd_path_at_esp == self.initrd_path_at_esp,
    {
        let mut p = self;
        p.os_release_contents = bytes_to_vec(os_release_contents);
        p
    }

    /// The parameters with the given kernel command line.
    pub fn with_cmdline(self, cmdline: &[String]) -> (r: StubParameters)
        ensures
            r.kernel_cmdline@ == cmdline@,
            r.lanzaboote_store_path == self.lanzaboote_store_path,
            r.os_release_contents == self.os_release_contents,
            r.kernel_store_path == self.kernel_store_path,
            r.initrd_store_path == self.initrd_store_path,
            r.kernel_path_at_esp == self.kernel_path_at_esp,
            r.initrd_path_at_esp == self.initrd_path_at_esp,
    {
        let mut p = self;
        p.kernel_cmdline = strings_to_vec(cmdline);
        p
    }
}

/// The sections attached to the lanzaboote stub, in order, each from the file that holds its
/// contents: the os-release, the kernel command line, the initrd's and the kernel's paths on
/// the ESP, and the initrd's and the kernel's hashes.
pub fn lanzaboote_sections(
    os_release: &str,
    kernel_cmdline: &str,
    initrd_path: &str,
    kernel_path: &str,
    initrd_hash: &str,
    kernel_hash: &str,
) -> (r: Vec<Section>)
    ensures
        r@.len() == 6,
        r@[0].name@ == ".osrel"@ && r@[0].file_path@ == os_release@,
        r@[1].name@ == ".cmdline"@ && r@[1].file_path@ == kernel_cmdline@,
        r@[2].name@ == ".initrd"@ && r@[2].file_path@ == initrd_path@,
        r@[3].name@ == ".linux"@ && r@[3].file_path@ == kernel_path@,
        r@[4].name@ == ".initrdh"@ && r@[4].file_path@ == initrd_hash@,
        r@[5].name@ == ".linuxh"@ && r@[5].file_path@ == kernel_hash@,
        forall|i: int| 0 <= i < 6 ==> (#[trigger] r@[i]).offset == u64::MAX,
{
    let mut r: Vec<Section> = Vec::new();
    r.push(Section::new(".osrel", os_release));
    r.push(Section::new(".cmdline", kernel_cmdline));
    r.push(Section::new(".initrd", initrd_path));
    r.push(Section::new(".linux", kernel_path));
    r.push(Section::new(".initrdh", initrd_hash));
    r.push(Section::new(".linuxh", kernel_hash));
    r
}

/// The configuration that the Xen stub reads from its `.config` section.
pub open spec fn spec_xen_config(kernel_cmdline: Seq<Seq<char>>, xen_options: Seq<Seq<char>>) -> Seq<char> {
    "[global]\ndefault=xen\n\n[xen]\nkernel=nope_this_is_uxi "@ + joined(kernel_cmdline, " "@)
        + "\nramdisk=nope_this_is_uxi\noptions="@ + joined(xen_options, " "@) + "\n"@
}

/// The Xen stub's configuration for a kernel command line and Xen options.
pub fn xen_config(xen_options: &[String], kernel_cmdline: &[String]) -> (r: String)
    ensures
        r@ == spec_xen_config(strings_view(kernel_cmdline@), strings_view(xen_options@)),
{
    let mut out: Vec<char> = Vec::new();
    push_str(&mut out, "[global]\ndefault=xen\n\n[xen]\nkernel=nope_this_is_uxi ");
    push_str(&mut out, join_strings(kernel_cmdline, " ").as_str());
    push_str(&mut out, "\nramdisk=nope_this_is_uxi\noptions=");
    push_str(&mut out, join_strings(xen_options, " ").as_str());
    push_str(&mut out, "\n");
    chars_to_string(&out)
}

/// The sections attached to the Xen stub: its configuration, the kernel and the initrd. Fails
/// where the kernel's file is not named `bzImage`.
pub fn xen_sections(config: &str, kernel: &str, initrd: &str) -> (r: Result<Vec<Section>, PeError>)
    ensures
        spec_file_name(kernel@) != Some("bzImage"@) ==> r == Err::<Vec<Section>, PeError>(
            PeError::NotBzImage,
        ),
        spec_file_name(kernel@) == Some("bzImage"@) ==> (r matches Ok(v) && {
            &&& v@.len() == 3
            &&& v@[0].name@ == ".config"@ && v@[0].file_path@ == config@
            &&& v@[1].name@ == ".kernel"@ && v@[1].file_path@ == kernel@
            &&& v@[2].name@ == ".ramdisk"@ && v@[2].file_path@ == initrd@
            &&& forall|i: int| 0 <= i < 3 ==> (#[trigger] v@[i]).offset == u64::MAX
        }),
{
    let is_bz = match file_name(kernel) {
        Some(n) => chars_eq(&str_chars(n.as_str()), &str_chars("bzImage")),
        None => false,
    };
    if !is_bz {
        return Err(PeError::NotBzImage);
    }
    let mut r: Vec<Section> = Vec::new();
    r.push(Section::new(".config", config));
    r.push(Section::new(".kernel", kernel));
    r.push(Section::new(".ramdisk", initrd));
    Ok(r)
}

/// A PE image as it lies in memory, with its parsed headers.
pub struct ParsedPe {
    pub data: Vec<u8>,
    pub parsed: PeInfo,
}

impl ParsedPe {
    /// Parses an image as it lies in memory (attribute certificates are not mapped there, so
    /// they are not parsed); `None` where it cannot be parsed.
    pub fn from_pe_in_memory(data: &[u8]) -> (r: Option<ParsedPe>)
        ensures
            parsed_pe(data@, false) is None <==> r is None,
            r matches Some(p) ==> p.data@ == data@ && parsed_pe(data@, false) == Some(p.parsed@),
    {
        let parsed = parse_pe(data, false)?;
        Some(ParsedPe { data: bytes_to_vec(data), parsed })
    }

    /// The data of the first section named `section_name`.
    pub fn section_data(&self, section_name: &str) -> (r: Option<Vec<u8>>)
        requires
            section_by_name_ok(self.data@.len(), self.parsed@.sections, section_name@),
        ensures
            opt_bytes(r) == spec_section_by_name(self.data@, self.parsed@.sections, section_name@),
    {
        section_by_name(self.data.as_slice(), &self.parsed.sections, section_name)
    }

    /// The names of the sections whose name reads as text, in order.
    pub fn sections(&self) -> (r: Vec<String>)
        ensures
            strings_view(r@) == section_names(self.parsed@.sections),
    {
        let ghost secs = self.parsed@.sections;
        let mut r: Vec<String> = Vec::new();
        let mut i: usize = 0;
        assert(secs.take(0) =~= Seq::<SectionView>::empty());
        while i < self.parsed.sections.len()
            invariant
                0 <= i <= self.parsed.sections@.len(),
                secs == self.parsed@.sections,
                strings_view(r@) == section_names(secs.take(i as int)),
            decreases self.parsed.sections@.len() - i,
        {
            let ghost before = r@;
            assert(secs[i as int] == self.parsed.sections@[i as int]@);
            match &self.parsed.sections[i].name {
                Some(n) => r.push(n.clone()),
                None => {},
            }
            assert(secs.take(i + 1).drop_last() =~= secs.take(i as int));
            i = i + 1;
            assert(strings_view(r@) =~= section_names(secs.take(i as int)));
        }
        assert(secs.take(i as int) =~= secs);
        r
    }
}

/// The names of the sections whose name reads as text, in order.
pub open spec fn section_names(secs: Seq<SectionView>) -> Seq<Seq<char>>
    decreases secs.len(),
{
    if secs.len() == 0 {
        Seq::empty()
    } else {
        match secs.last().name {
            Some(n) => section_names(secs.drop_last()).push(n),
            None => section_names(secs.drop_last()),
        }
    }
}

} // verus!
