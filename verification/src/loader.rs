//! Loading a PE image into memory the way the firmware would: every section copied to its
//! virtual address in a zeroed buffer, without base relocations.
use vstd::prelude::*;

use crate::pe::{copied_size, parse_pe, parsed_pe, PeInfo, PeView, SectionView};

verus! {

/// The number of 4 KiB pages that `bytes` bytes take; where rounding up overflows, the
/// number of pages in the whole address space.
pub open spec fn spec_bytes_to_pages(bytes: int) -> int {
    if bytes + 4095 <= usize::MAX {
        (bytes + 4095) / 4096
    } else {
        (usize::MAX + 1) / 4096
    }
}

/// Converts a length in bytes to the number of 4 KiB pages needed to hold it.
pub fn bytes_to_pages(bytes: usize) -> (r: usize)
    ensures
        r == spec_bytes_to_pages(bytes as int),
{
    match bytes.checked_add(0xFFF) {
        Some(rounded_up) => {
            let r = rounded_up >> 12usize;
            assert(r == rounded_up / 4096) by (bit_vector)
                requires
                    r == rounded_up >> 12usize,
            ;
            r
        },
        None => {
            // 2^(usize::BITS - 12): every page of the address space
            usize::MAX / 4096 + 1
        },
    }
}

/// Why an image could not be loaded.
#[derive(Debug, Clone, Copy, PartialEq, Eq, Structural)]
pub enum ImageError {
    /// The image is malformed: it does not parse, a section does not fit, or the entry point
    /// lies outside the image.
    Load,
    /// The image needs base relocations, which are not supported.
    IncompatibleVersion,
}

/// A PE image loaded into memory: its bytes and the offset of its entry point in them.
pub struct Image {
    pub image: Vec<u8>,
    pub entry: usize,
}

/// The end of every section's virtual range fits in 32 bits.
pub open spec fn section_ends_fit(secs: Seq<SectionView>) -> bool {
    forall|i: int| 0 <= i < secs.len() ==> (#[trigger] secs[i]).virtual_address + secs[i].virtual_size <= u32::MAX
}

/// The size of the loaded image: the largest end of a section's virtual range, 0 without
/// sections.
pub open spec fn image_len(secs: Seq<SectionView>) -> int
    decreases secs.len(),
{
    if secs.len() == 0 {
        0
    } else {
        let e = secs.last().virtual_address + secs.last().virtual_size;
        let m = image_len(secs.drop_last());
        if e > m { e } else { m }
    }
}

/// A section's bytes can be copied from a file of `file_len` bytes into an image of `len`.
pub open spec fn copy_ok(len: int, file_len: int, s: SectionView) -> bool {
    &&& s.virtual_address + copied_size(s) <= len
    &&& s.pointer_to_raw_data + copied_size(s) <= file_len
}

/// The image with a section's bytes copied from the file to the section's virtual address.
pub open spec fn apply_copy(img: Seq<u8>, file: Seq<u8>, s: SectionView) -> Seq<u8> {
    img.subrange(0, s.virtual_address as int) + file.subrange(
        s.pointer_to_raw_data as int,
        s.pointer_to_raw_data + copied_size(s),
    ) + img.subrange(s.virtual_address + copied_size(s), img.len() as int)
}

/// The image of `len` zero bytes after the first `n` sections were copied into it, or `None`
/// where one of them does not fit.
pub open spec fn loaded_sections(file: Seq<u8>, secs: Seq<SectionView>, n: int, len: int) -> Option<Seq<u8>>
    decreases n,
{
    if n <= 0 {
        Some(Seq::new(len as nat, |i: int| 0u8))
    } else {
        match loaded_sections(file, secs, n - 1, len) {
            Some(img) => if copy_ok(len, file.len() as int, secs[n - 1]) {
                Some(apply_copy(img, file, secs[n - 1]))
            } else {
                None
            },
            None => None,
        }
    }
}

/// What loading an image gives: its bytes and the offset of its entry point, or the error.
pub open spec fn spec_load(file: Seq<u8>, p: PeView) -> Result<(Seq<u8>, int), ImageError> {
    if !section_ends_fit(p.sections) {
        Err(ImageError::Load)
    } else {
        let len = image_len(p.sections);
        match loaded_sections(file, p.sections, p.sections.len() as int, len) {
            None => Err(ImageError::Load),
            Some(img) => if p.has_base_relocations {
                Err(ImageError::IncompatibleVersion)
            } else if p.entry >= len {
                Err(ImageError::Load)
            } else {
                Ok((img, p.entry as int))
            },
        }
    }
}

/// Byte `t` of a section in a loaded image.
pub open spec fn loaded_byte(img: Seq<u8>, s: SectionView, t: int) -> u8 {
    img[s.virtual_address + t]
}

/// Byte `t` of a section's data in the file.
pub open spec fn file_byte(file: Seq<u8>, s: SectionView, t: int) -> u8 {
    file[s.pointer_to_raw_data + t]
}

/// The section's loaded bytes cover address `a` of the image.
pub open spec fn covers(s: SectionView, a: int) -> bool {
    s.virtual_address <= a < s.virtual_address + copied_size(s)
}

proof fn lemma_loaded_sections(file: Seq<u8>, secs: Seq<SectionView>, n: int, len: int)
    requires
        0 <= n <= secs.len(),
        len >= 0,
        loaded_sections(file, secs, n, len) is Some,
    ensures
        ({
            let img = loaded_sections(file, secs, n, len)->0;
            &&& img.len() == len
            &&& forall|i: int| 0 <= i < n ==> copy_ok(len, file.len() as int, #[trigger] secs[i])
            &&& forall|i: int, t: int|
                0 <= i < n && 0 <= t < copied_size(secs[i]) && (forall|j: int| i < j < n ==> !covers(
                    #[trigger] secs[j],
                    secs[i].virtual_address + t,
                )) ==> #[trigger] loaded_byte(img, secs[i], t) == file_byte(file, secs[i], t)
            &&& forall|a: int| 0 <= a < len && (forall|j: int| 0 <= j < n ==> !covers(#[trigger] secs[j], a))
                ==> #[trigger] img[a] == 0u8
        }),
    decreases n,
{
    if n > 0 {
        lemma_loaded_sections(file, secs, n - 1, len);
        let prev = loaded_sections(file, secs, n - 1, len)->0;
        let s = secs[n - 1];
        let img = loaded_sections(file, secs, n, len)->0;
        assert(copy_ok(len, file.len() as int, s));
        assert(img == apply_copy(prev, file, s));
        let c = copied_size(s);
        assert(img.len() == len);
        assert forall|a: int| 0 <= a < len && !covers(s, a) implies img[a] == prev[a] by {
            if a < s.virtual_address {
                assert(img[a] == prev.subrange(0, s.virtual_address as int)[a]);
            } else {
                assert(img[a] == prev.subrange(s.virtual_address + c, len)[a - s.virtual_address - c]);
            }
        }
        assert forall|t: int| 0 <= t < c implies #[trigger] loaded_byte(img, s, t) == file_byte(file, s, t) by {
            assert(img[s.virtual_address + t] == file.subrange(
                s.pointer_to_raw_data as int,
                s.pointer_to_raw_data + c,
            )[t]);
        }
        assert forall|i: int, t: int|
            0 <= i < n && 0 <= t < copied_size(secs[i]) && (forall|j: int| i < j < n ==> !covers(
                #[trigger] secs[j],
                secs[i].virtual_address + t,
            )) implies #[trigger] loaded_byte(img, secs[i], t) == file_byte(file, secs[i], t) by {
            let a = secs[i].virtual_address + t;
            if i < n - 1 {
                assert(!covers(secs[n - 1], a));
                assert(forall|j: int| i < j < n - 1 ==> !covers(#[trigger] secs[j], a));
                assert(copy_ok(len, file.len() as int, secs[i]));
                assert(loaded_byte(prev, secs[i], t) == file_byte(file, secs[i], t));
                assert(img[a] == prev[a]);
            } else {
                assert(secs[i] == s);
                assert(loaded_byte(img, s, t) == file_byte(file, s, t));
            }
        }
        assert forall|a: int| 0 <= a < len && (forall|j: int| 0 <= j < n ==> !covers(#[trigger] secs[j], a))
            implies #[trigger] img[a] == 0u8 by {
            assert(!covers(secs[n - 1], a));
            assert(forall|j: int| 0 <= j < n - 1 ==> !covers(#[trigger] secs[j], a));
        }
    }
}

/// A loaded image is as long as the furthest section end, its entry point lies inside it,
/// each byte that a section's data covers holds that data (where sections overlap, the later
/// one's), and every other byte is zero.
pub proof fn law_loaded_image(file: Seq<u8>, p: PeView)
    requires
        spec_load(file, p) is Ok,
    ensures
        ({
            let (img, entry) = spec_load(file, p)->Ok_0;
            let secs = p.sections;
            &&& img.len() == image_len(secs)
            &&& 0 <= entry < img.len()
            &&& forall|i: int, t: int|
                0 <= i < secs.len() && 0 <= t < copied_size(secs[i]) && (forall|j: int| i < j < secs.len() ==> !covers(
                    #[trigger] secs[j],
                    secs[i].virtual_address + t,
                )) ==> #[trigger] loaded_byte(img, secs[i], t) == file_byte(file, secs[i], t)
            &&& forall|a: int| 0 <= a < img.len() && (forall|j: int| 0 <= j < secs.len() ==> !covers(#[trigger] secs[j], a))
                ==> #[trigger] img[a] == 0u8
        }),
{
    lemma_image_len_nonneg(p.sections);
    lemma_loaded_sections(file, p.sections, p.sections.len() as int, image_len(p.sections));
}

/// A loaded image as plain values.
pub open spec fn image_result(r: Result<Image, ImageError>) -> Result<(Seq<u8>, int), ImageError> {
    match r {
        Ok(im) => Ok((im.image@, im.entry as int)),
        Err(e) => Err(e),
    }
}

proof fn lemma_image_len_step(secs: Seq<SectionView>, i: int)
    requires
        0 <= i < secs.len(),
    ensures
        secs.take(i + 1).drop_last() == secs.take(i),
        image_len(secs.take(i + 1)) == (if secs[i].virtual_address + secs[i].virtual_size > image_len(secs.take(i)) {
            secs[i].virtual_address + secs[i].virtual_size
        } else {
            image_len(secs.take(i))
        }),
{
    assert(secs.take(i + 1).drop_last() =~= secs.take(i));
}

proof fn lemma_image_len_bound(secs: Seq<SectionView>, i: int)
    requires
        0 <= i < secs.len(),
    ensures
        secs[i].virtual_address + secs[i].virtual_size <= image_len(secs),
    decreases secs.len(),
{
    if i < secs.len() - 1 {
        lemma_image_len_bound(secs.drop_last(), i);
    }
}

proof fn lemma_image_len_nonneg(secs: Seq<SectionView>)
    ensures
        0 <= image_len(secs),
        section_ends_fit(secs) ==> image_len(secs) <= u32::MAX,
    decreases secs.len(),
{
    if secs.len() > 0 {
        lemma_image_len_nonneg(secs.drop_last());
        if section_ends_fit(secs) {
            assert(section_ends_fit(secs.drop_last()));
            assert(secs.last() == secs[secs.len() - 1]);
        }
    }
}

/// Copies `n` bytes of `src` from `start` on into `image` at `dst`.
fn copy_into(image: &mut Vec<u8>, dst: usize, src: &[u8], start: usize, n: usize)
    requires
        dst + n <= old(image)@.len(),
        start + n <= src@.len(),
    ensures
        final(image)@ == old(image)@.subrange(0, dst as int) + src@.subrange(
            start as int,
            start + n,
        ) + old(image)@.subrange(dst + n, old(image)@.len() as int),
{
    let ghost orig = image@;
    let ilen = image.len();
    let slen = src.len();
    let mut k: usize = 0;
    while k < n
        invariant
            0 <= k <= n,
            orig.len() == ilen,
            src@.len() == slen,
            dst + n <= orig.len(),
            start + n <= src@.len(),
            image@ == orig.subrange(0, dst as int) + src@.subrange(start as int, start + k)
                + orig.subrange(dst + k, orig.len() as int),
        decreases n - k,
    {
        image.set(dst + k, src[start + k]);
        k = k + 1;
        assert(image@ =~= orig.subrange(0, dst as int) + src@.subrange(start as int, start + k)
            + orig.subrange(dst + k, orig.len() as int));
    }
}

impl Image {
    /// Loads a parsed PE image: every section copied from the file to its virtual address in
    /// a zeroed buffer as large as the furthest section end.
    pub fn load_parsed(file_data: &[u8], pe: &PeInfo) -> (r: Result<Image, ImageError>)
        ensures
            image_result(r) == spec_load(file_data@, pe@),
    {
        let ghost secs = pe@.sections;
        // the size of the image
        let mut length: u32 = 0;
        let mut i: usize = 0;
        assert(secs.take(0) =~= Seq::<SectionView>::empty());
        while i < pe.sections.len()
            invariant
                0 <= i <= pe.sections@.len(),
                secs == pe@.sections,
                section_ends_fit(secs.take(i as int)),
                length == image_len(secs.take(i as int)),
            decreases pe.sections@.len() - i,
        {
            let s = &pe.sections[i];
            assert(secs[i as int] == s@);
            proof {
                lemma_image_len_step(secs, i as int);
            }
            match s.virtual_address.checked_add(s.virtual_size) {
                None => {
                    assert(!section_ends_fit(secs) && secs[i as int] == secs[i as int]);
                    return Err(ImageError::Load);
                },
                Some(end) => {
                    if end > length {
                        length = end;
                    }
                },
            }
            i = i + 1;
            assert(section_ends_fit(secs.take(i as int)));
        }
        assert(secs.take(i as int) =~= secs);
        let len = length as usize;

        // populate all sections
        let mut image: Vec<u8> = Vec::new();
        let mut z: usize = 0;
        while z < len
            invariant
                z <= len,
                image@ == Seq::new(z as nat, |k: int| 0u8),
            decreases len - z,
        {
            image.push(0);
            z = z + 1;
            assert(image@ =~= Seq::new(z as nat, |k: int| 0u8));
        }
        let mut j: usize = 0;
        while j < pe.sections.len()
            invariant
                0 <= j <= pe.sections@.len(),
                secs == pe@.sections,
                len == image_len(secs),
                section_ends_fit(secs),
                loaded_sections(file_data@, secs, j as int, len as int) == Some(image@),
                image@.len() == len,
            decreases pe.sections@.len() - j,
        {
            let s = &pe.sections[j];
            assert(secs[j as int] == s@);
            let flen = file_data.len();
            let copy_size: u32 = if s.virtual_size <= s.size_of_raw_data {
                s.virtual_size
            } else {
                s.size_of_raw_data
            };
            let raw_start = s.pointer_to_raw_data as usize;
            let virt_start = s.virtual_address as usize;
            let raw_end = match raw_start.checked_add(copy_size as usize) {
                Some(e) => e,
                None => {
                    assert(loaded_sections(file_data@, secs, j + 1, len as int) is None);
                    proof { lemma_loaded_none_stays(file_data@, secs, j + 1, secs.len() as int, len as int); }
                    return Err(ImageError::Load);
                },
            };
            let virt_end = match virt_start.checked_add(copy_size as usize) {
                Some(e) => e,
                None => {
                    assert(loaded_sections(file_data@, secs, j + 1, len as int) is None);
                    proof { lemma_loaded_none_stays(file_data@, secs, j + 1, secs.len() as int, len as int); }
                    return Err(ImageError::Load);
                },
            };
            if virt_end > image.len() || raw_end > file_data.len() {
                assert(loaded_sections(file_data@, secs, j + 1, len as int) is None);
                proof { lemma_loaded_none_stays(file_data@, secs, j + 1, secs.len() as int, len as int); }
                return Err(ImageError::Load);
            }
            copy_into(&mut image, virt_start, file_data, raw_start, copy_size as usize);
            j = j + 1;
        }
        if pe.has_base_relocations {
            return Err(ImageError::IncompatibleVersion);
        }
        if pe.entry as usize >= image.len() {
            return Err(ImageError::Load);
        }
        Ok(Image { image, entry: pe.entry as usize })
    }

    /// Loads a PE file: parses it, then copies each section to its virtual address in a zeroed
    /// buffer.
    pub fn load(file_data: &[u8]) -> (r: Result<Image, ImageError>)
        ensures
            parsed_pe(file_data@, true) is None ==> r == Err::<Image, ImageError>(ImageError::Load),
            parsed_pe(file_data@, true) matches Some(p) ==> image_result(r) == spec_load(file_data@, p),
    {
        match parse_pe(file_data, true) {
            None => Err(ImageError::Load),
            Some(pe) => Image::load_parsed(file_data, &pe),
        }
    }
}

proof fn lemma_loaded_none_stays(file: Seq<u8>, secs: Seq<SectionView>, j: int, n: int, len: int)
    requires
        0 <= j <= n,
        loaded_sections(file, secs, j, len) is None,
    ensures
        loaded_sections(file, secs, n, len) is None,
    decreases n - j,
{
    if j < n {
        lemma_loaded_none_stays(file, secs, j + 1, n, len);
    }
}

} // verus!
