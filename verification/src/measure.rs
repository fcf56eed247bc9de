//! What the stub measures into the TPM: the unified sections of its own image into PCR 11,
//! credentials into PCR 12 and system extensions into PCR 13, and the EFI variables that
//! announce those PCRs.
use vstd::prelude::*;

use crate::companions::CompanionInitrdType;
use crate::pe::{copied_size, loaded_section_fits, parse_pe, parsed_pe, pe_section_data, spec_section_data, PeInfo, SectionView};
use crate::strmap::chars_eq;
use crate::text::{str_chars, strings_view};

verus! {

/// The PE sections with a meaning in the unified kernel image specification. Their order
/// here is the canonical order of PCR 11 measurements; it must not change.
#[derive(Debug, Clone, Copy, PartialEq, Eq, Structural, PartialOrd, Ord)]
pub enum UnifiedSection {
    Linux,
    OsRel,
    CmdLine,
    Initrd,
    Ucode,
    Splash,
    Dtb,
    DtbAuto,
    Hwids,
    Uname,
    Sbat,
    PcrSig,
    PcrPkey,
}

/// A section name that is not one of the unified sections.
#[derive(Debug, Clone, Copy, PartialEq, Eq, Structural)]
pub struct NotUnifiedSection;

impl UnifiedSection {
    /// The PE section name.
    pub open spec fn spec_name(self) -> Seq<char> {
        match self {
            UnifiedSection::Linux => ".linux"@,
            UnifiedSection::OsRel => ".osrel"@,
            UnifiedSection::CmdLine => ".cmdline"@,
            UnifiedSection::Initrd => ".initrd"@,
            UnifiedSection::Ucode => ".ucode"@,
            UnifiedSection::Splash => ".splash"@,
            UnifiedSection::Dtb => ".dtb"@,
            UnifiedSection::DtbAuto => ".dtbauto"@,
            UnifiedSection::Hwids => ".hwids"@,
            UnifiedSection::Uname => ".uname"@,
            UnifiedSection::Sbat => ".sbat"@,
            UnifiedSection::PcrSig => ".pcrsig"@,
            UnifiedSection::PcrPkey => ".pcrpkey"@,
        }
    }

    /// The unified section with that name, if any.
    pub open spec fn spec_from_name(n: Seq<char>) -> Option<UnifiedSection> {
        if n == ".linux"@ {
            Some(UnifiedSection::Linux)
        } else if n == ".osrel"@ {
            Some(UnifiedSection::OsRel)
        } else if n == ".cmdline"@ {
            Some(UnifiedSection::CmdLine)
        } else if n == ".initrd"@ {
            Some(UnifiedSection::Initrd)
        } else if n == ".ucode"@ {
            Some(UnifiedSection::Ucode)
        } else if n == ".splash"@ {
            Some(UnifiedSection::Splash)
        } else if n == ".dtb"@ {
            Some(UnifiedSection::Dtb)
        } else if n == ".dtbauto"@ {
            Some(UnifiedSection::DtbAuto)
        } else if n == ".hwids"@ {
            Some(UnifiedSection::Hwids)
        } else if n == ".uname"@ {
            Some(UnifiedSection::Uname)
        } else if n == ".sbat"@ {
            Some(UnifiedSection::Sbat)
        } else if n == ".pcrsig"@ {
            Some(UnifiedSection::PcrSig)
        } else if n == ".pcrpkey"@ {
            Some(UnifiedSection::PcrPkey)
        } else {
            None
        }
    }

    /// Whether the section is measured into the TPM: all but `.pcrsig` (never measured) and
    /// `.dtbauto` (which needs hardware matching that is not implemented).
    pub open spec fn spec_should_be_measured(self) -> bool {
        !(self == UnifiedSection::PcrSig || self == UnifiedSection::DtbAuto)
    }

    /// The unified section named `value`.
    pub fn try_from(value: &str) -> (r: Result<UnifiedSection, NotUnifiedSection>)
        ensures
            match Self::spec_from_name(value@) {
                Some(s) => r == Ok::<UnifiedSection, NotUnifiedSection>(s),
                None => r == Err::<UnifiedSection, NotUnifiedSection>(NotUnifiedSection),
            },
    {
        let v = str_chars(value);
        let all = [
            UnifiedSection::Linux,
            UnifiedSection::OsRel,
            UnifiedSection::CmdLine,
            UnifiedSection::Initrd,
            UnifiedSection::Ucode,
            UnifiedSection::Splash,
            UnifiedSection::Dtb,
            UnifiedSection::DtbAuto,
            UnifiedSection::Hwids,
            UnifiedSection::Uname,
            UnifiedSection::Sbat,
            UnifiedSection::PcrSig,
            UnifiedSection::PcrPkey,
        ];
        let mut i: usize = 0;
        while i < 13
            invariant
                0 <= i <= 13,
                v@ == value@,
                all@ == seq![
                    UnifiedSection::Linux,
                    UnifiedSection::OsRel,
                    UnifiedSection::CmdLine,
                    UnifiedSection::Initrd,
                    UnifiedSection::Ucode,
                    UnifiedSection::Splash,
                    UnifiedSection::Dtb,
                    UnifiedSection::DtbAuto,
                    UnifiedSection::Hwids,
                    UnifiedSection::Uname,
                    UnifiedSection::Sbat,
                    UnifiedSection::PcrSig,
                    UnifiedSection::PcrPkey,
                ],
                forall|j: int| 0 <= j < i ==> (#[trigger] all@[j]).spec_name() != value@,
            decreases 13 - i,
        {
            let s = all[i];
            if chars_eq(&str_chars(s.name()), &v) {
                proof {
                    lemma_names_distinct(s, value@);
                }
                return Ok(s);
            }
            i = i + 1;
        }
        proof {
            if Self::spec_from_name(value@) is Some {
                let s = Self::spec_from_name(value@)->0;
                lemma_names_distinct(s, value@);
                assert(all@.contains(s));
            }
        }
        Err(NotUnifiedSection)
    }

    /// Whether the section is measured into the TPM.
    pub fn should_be_measured(&self) -> (r: bool)
        ensures
            r == self.spec_should_be_measured(),
    {
        match self {
            UnifiedSection::PcrSig | UnifiedSection::DtbAuto => false,
            _ => true,
        }
    }

    /// The PE section name.
    pub fn name(&self) -> (r: &'static str)
        ensures
            r@ == self.spec_name(),
    {
        match self {
            UnifiedSection::Linux => ".linux",
            UnifiedSection::OsRel => ".osrel",
            UnifiedSection::CmdLine => ".cmdline",
            UnifiedSection::Initrd => ".initrd",
            UnifiedSection::Ucode => ".ucode",
            UnifiedSection::Splash => ".splash",
            UnifiedSection::Dtb => ".dtb",
            UnifiedSection::DtbAuto => ".dtbauto",
            UnifiedSection::Hwids => ".hwids",
            UnifiedSection::Uname => ".uname",
            UnifiedSection::Sbat => ".sbat",
            UnifiedSection::PcrSig => ".pcrsig",
            UnifiedSection::PcrPkey => ".pcrpkey",
        }
    }
}

proof fn lemma_names_distinct(s: UnifiedSection, n: Seq<char>)
    ensures
        s.spec_name() == n <==> UnifiedSection::spec_from_name(n) == Some(s),
{
    reveal_strlit(".linux");
    reveal_strlit(".osrel");
    reveal_strlit(".cmdline");
    reveal_strlit(".initrd");
    reveal_strlit(".ucode");
    reveal_strlit(".splash");
    reveal_strlit(".dtb");
    reveal_strlit(".dtbauto");
    reveal_strlit(".hwids");
    reveal_strlit(".uname");
    reveal_strlit(".sbat");
    reveal_strlit(".pcrsig");
    reveal_strlit(".pcrpkey");
    assert(".linux"@.len() == 6 && ".linux"@[1] == 'l' && ".linux"@[2] == 'i');
    assert(".osrel"@.len() == 6 && ".osrel"@[1] == 'o' && ".osrel"@[2] == 's');
    assert(".cmdline"@.len() == 8 && ".cmdline"@[1] == 'c' && ".cmdline"@[2] == 'm');
    assert(".initrd"@.len() == 7 && ".initrd"@[1] == 'i' && ".initrd"@[2] == 'n');
    assert(".ucode"@.len() == 6 && ".ucode"@[1] == 'u' && ".ucode"@[2] == 'c');
    assert(".splash"@.len() == 7 && ".splash"@[1] == 's' && ".splash"@[2] == 'p');
    assert(".dtb"@.len() == 4 && ".dtb"@[1] == 'd' && ".dtb"@[2] == 't');
    assert(".dtbauto"@.len() == 8 && ".dtbauto"@[1] == 'd' && ".dtbauto"@[2] == 't');
    assert(".hwids"@.len() == 6 && ".hwids"@[1] == 'h' && ".hwids"@[2] == 'w');
    assert(".uname"@.len() == 6 && ".uname"@[1] == 'u' && ".uname"@[2] == 'n');
    assert(".sbat"@.len() == 5 && ".sbat"@[1] == 's' && ".sbat"@[2] == 'b');
    assert(".pcrsig"@.len() == 7 && ".pcrsig"@[1] == 'p' && ".pcrsig"@[2] == 'c');
    assert(".pcrpkey"@.len() == 8 && ".pcrpkey"@[1] == 'p' && ".pcrpkey"@[2] == 'c');
}

/// A unified section's name names it again, and only it: `try_from` undoes `name`.
pub proof fn law_section_name_round_trip(s: UnifiedSection, n: Seq<char>)
    ensures
        UnifiedSection::spec_from_name(s.spec_name()) == Some(s),
        UnifiedSection::spec_from_name(n) == Some(s) ==> n == s.spec_name(),
{
    lemma_names_distinct(s, s.spec_name());
    lemma_names_distinct(s, n);
}

/// The PCR of the unified sections of the image.
pub const TPM_PCR_INDEX_KERNEL_IMAGE: u32 = 11;

/// The PCR of the kernel command line and the credentials.
pub const TPM_PCR_INDEX_KERNEL_CONFIG: u32 = 12;

/// The PCR of the system extension images.
pub const TPM_PCR_INDEX_SYSEXTS: u32 = 13;

/// A section of the image to measure into PCR 11: its name, which also describes the event,
/// and its data.
pub struct SectionMeasurement {
    pub name: String,
    pub data: Vec<u8>,
}

/// The measurements of an image's unified sections, in section order, and whether the walk
/// stopped at a section whose name is not text (which fails the measurement after those).
pub struct ImageMeasurements {
    pub events: Vec<SectionMeasurement>,
    pub unreadable_name: bool,
}

/// The sections measured into PCR 11 among `secs`, in order, up to the first section whose
/// name is not text; and whether there is such a section.
pub open spec fn spec_image_measurements(pe_data: Seq<u8>, secs: Seq<SectionView>) -> (Seq<(Seq<char>, Seq<u8>)>, bool)
    decreases secs.len(),
{
    if secs.len() == 0 {
        (Seq::empty(), false)
    } else {
        let (ev, stopped) = spec_image_measurements(pe_data, secs.drop_last());
        if stopped {
            (ev, true)
        } else {
            match secs.last().name {
                None => (ev, true),
                Some(n) => match UnifiedSection::spec_from_name(n) {
                    Some(u) => if u.spec_should_be_measured() {
                        (ev.push((n, spec_section_data(pe_data, secs.last()))), false)
                    } else {
                        (ev, false)
                    },
                    None => (ev, false),
                },
            }
        }
    }
}

/// Every section that the measurement reads lies inside the image.
pub open spec fn image_measurements_safe(len: nat, secs: Seq<SectionView>) -> bool
    decreases secs.len(),
{
    secs.len() == 0 || {
        &&& image_measurements_safe(len, secs.drop_last())
        &&& (!spec_image_measurements(Seq::empty(), secs.drop_last()).1 ==> (secs.last().name matches Some(n)
            ==> (UnifiedSection::spec_from_name(n) matches Some(u) ==> (u.spec_should_be_measured()
            ==> loaded_section_fits(len, secs.last())))))
    }
}

/// Measurements as plain values.
pub open spec fn measurements_view(m: ImageMeasurements) -> (Seq<(Seq<char>, Seq<u8>)>, bool) {
    (m.events@.map_values(|e: SectionMeasurement| (e.name@, e.data@)), m.unreadable_name)
}

proof fn lemma_stopped_free_of_data(a: Seq<u8>, b: Seq<u8>, secs: Seq<SectionView>)
    ensures
        spec_image_measurements(a, secs).1 == spec_image_measurements(b, secs).1,
    decreases secs.len(),
{
    if secs.len() > 0 {
        lemma_stopped_free_of_data(a, b, secs.drop_last());
    }
}

/// The unified sections of an image to measure into PCR 11, with their data as the loaded
/// image holds it, in section order; a section whose name is not text ends the walk.
pub fn image_measurements(pe_binary: &[u8], pe: &PeInfo) -> (r: ImageMeasurements)
    requires
        image_measurements_safe(pe_binary@.len(), pe@.sections),
    ensures
        measurements_view(r) == spec_image_measurements(pe_binary@, pe@.sections),
{
    let ghost secs = pe@.sections;
    let mut events: Vec<SectionMeasurement> = Vec::new();
    let mut i: usize = 0;
    assert(secs.take(0) =~= Seq::<SectionView>::empty());
    while i < pe.sections.len()
        invariant
            0 <= i <= pe.sections@.len(),
            secs == pe@.sections,
            image_measurements_safe(pe_binary@.len(), secs),
            spec_image_measurements(pe_binary@, secs.take(i as int)) == (
                events@.map_values(|e: SectionMeasurement| (e.name@, e.data@)),
                false,
            ),
        decreases pe.sections@.len() - i,
    {
        let s = &pe.sections[i];
        let ghost t = secs.take(i + 1);
        proof {
            assert(t.drop_last() =~= secs.take(i as int));
            assert(t.last() == s@);
            assert(secs[i as int] == s@);
            lemma_safe_prefix(pe_binary@.len(), secs, i + 1);
            assert(t.take(i as int) =~= secs.take(i as int));
            lemma_stopped_free_of_data(pe_binary@, Seq::empty(), secs.take(i as int));
        }
        match &s.name {
            None => {
                proof {
                    lemma_stop_stays(pe_binary@, secs, i + 1);
                }
                return ImageMeasurements { events, unreadable_name: true };
            },
            Some(n) => {
                match UnifiedSection::try_from(n.as_str()) {
                    Ok(u) => {
                        if u.should_be_measured() {
                            let data = match pe_section_data(pe_binary, s) {
                                Some(d) => d,
                                None => Vec::new(),
                            };
                            let ghost before = events@;
                            events.push(SectionMeasurement { name: n.clone(), data });
                            assert(events@.map_values(|e: SectionMeasurement| (e.name@, e.data@)) =~=
                                before.map_values(|e: SectionMeasurement| (e.name@, e.data@)).push((n@, spec_section_data(pe_binary@, s@))));
                        }
                    },
                    Err(_) => {},
                }
            },
        }
        i = i + 1;
    }
    assert(secs.take(i as int) =~= secs);
    ImageMeasurements { events, unreadable_name: false }
}

proof fn lemma_safe_prefix(len: nat, secs: Seq<SectionView>, k: int)
    requires
        0 <= k <= secs.len(),
        image_measurements_safe(len, secs),
    ensures
        image_measurements_safe(len, secs.take(k)),
    decreases secs.len() - k,
{
    if k == secs.len() {
        assert(secs.take(k) =~= secs);
    } else {
        assert(secs.drop_last().take(k) =~= secs.take(k));
        lemma_safe_prefix(len, secs.drop_last(), k);
    }
}

proof fn lemma_stop_stays(d: Seq<u8>, secs: Seq<SectionView>, k: int)
    requires
        0 <= k <= secs.len(),
        spec_image_measurements(d, secs.take(k)).1,
    ensures
        spec_image_measurements(d, secs) == spec_image_measurements(d, secs.take(k)),
    decreases secs.len() - k,
{
    if k == secs.len() {
        assert(secs.take(k) =~= secs);
    } else {
        assert(secs.take(k + 1).drop_last() =~= secs.take(k));
        lemma_stop_stays(d, secs, k + 1);
    }
}

/// Why measuring the image failed before any measurement.
#[derive(Debug, Clone, Copy, PartialEq, Eq, Structural)]
pub enum MeasureError {
    /// The image could not be parsed.
    Load,
}

/// The measurements of the running image's unified sections: the image parsed as a file (as
/// the stub does), then `image_measurements`. `None` where a section to measure does not lie
/// inside the image.
pub fn measure_image(pe_binary: &[u8]) -> (r: Option<Result<ImageMeasurements, MeasureError>>)
    ensures
        parsed_pe(pe_binary@, true) is None ==> r matches Some(Err(MeasureError::Load)),
        parsed_pe(pe_binary@, true) matches Some(p) ==> (r is None <==> !image_measurements_safe(pe_binary@.len(), p.sections)),
        parsed_pe(pe_binary@, true) matches Some(p) ==> (r matches Some(x) ==> (x matches Ok(m)
            && measurements_view(m) == spec_image_measurements(pe_binary@, p.sections))),
{
    match parse_pe(pe_binary, true) {
        None => Some(Err(MeasureError::Load)),
        Some(pe) => {
            if measurements_are_safe(pe_binary, &pe) {
                Some(Ok(image_measurements(pe_binary, &pe)))
            } else {
                None
            }
        },
    }
}

/// Tests `image_measurements_safe`.
fn measurements_are_safe(pe_binary: &[u8], pe: &PeInfo) -> (r: bool)
    ensures
        r == image_measurements_safe(pe_binary@.len(), pe@.sections),
{
    let ghost secs = pe@.sections;
    let mut i: usize = 0;
    assert(secs.take(0) =~= Seq::<SectionView>::empty());
    while i < pe.sections.len()
        invariant
            0 <= i <= pe.sections@.len(),
            secs == pe@.sections,
            image_measurements_safe(pe_binary@.len(), secs.take(i as int)),
            !spec_image_measurements(Seq::empty(), secs.take(i as int)).1,
        decreases pe.sections@.len() - i,
    {
        let s = &pe.sections[i];
        let ghost t = secs.take(i + 1);
        proof {
            assert(t.drop_last() =~= secs.take(i as int));
            assert(t.last() == s@);
        }
        match &s.name {
            None => {
                // the walk stops here; later sections are not read
                proof {
                    lemma_safe_after_stop(pe_binary@.len(), secs, i + 1);
                }
                return true;
            },
            Some(n) => {
                match UnifiedSection::try_from(n.as_str()) {
                    Ok(u) => {
                        if u.should_be_measured() {
                            let copied = if s.virtual_size <= s.size_of_raw_data { s.virtual_size } else { s.size_of_raw_data };
                            if (s.virtual_address as u64) + (copied as u64) > pe_binary.len() as u64 {
                                proof {
                                    lemma_unsafe_stays(pe_binary@.len(), secs, i + 1);
                                }
                                return false;
                            }
                        }
                    },
                    Err(_) => {},
                }
            },
        }
        i = i + 1;
    }
    assert(secs.take(i as int) =~= secs);
    true
}

proof fn lemma_unsafe_stays(len: nat, secs: Seq<SectionView>, k: int)
    requires
        0 <= k <= secs.len(),
        !image_measurements_safe(len, secs.take(k)),
    ensures
        !image_measurements_safe(len, secs),
    decreases secs.len() - k,
{
    if k == secs.len() {
        assert(secs.take(k) =~= secs);
    } else {
        assert(secs.take(k + 1).drop_last() =~= secs.take(k));
        lemma_unsafe_stays(len, secs, k + 1);
    }
}

proof fn lemma_safe_after_stop(len: nat, secs: Seq<SectionView>, k: int)
    requires
        0 <= k <= secs.len(),
        image_measurements_safe(len, secs.take(k)),
        spec_image_measurements(Seq::empty(), secs.take(k)).1,
    ensures
        image_measurements_safe(len, secs),
    decreases secs.len() - k,
{
    if k < secs.len() {
        assert(secs.take(k + 1).drop_last() =~= secs.take(k));
        lemma_safe_after_stop(len, secs, k + 1);
    } else {
        assert(secs.take(k) =~= secs);
    }
}

/// The UTF-16 code units of a character.
pub open spec fn utf16_units(c: char) -> Seq<u16> {
    let v = c as u32;
    if v < 0x10000 {
        seq![v as u16]
    } else {
        seq![(0xD800 + ((v - 0x10000) / 0x400)) as u16, (0xDC00 + ((v - 0x10000) % 0x400)) as u16]
    }
}

/// The little-endian bytes of UTF-16 code units.
pub open spec fn le_bytes(units: Seq<u16>) -> Seq<u8>
    decreases units.len(),
{
    if units.len() == 0 {
        Seq::empty()
    } else {
        le_bytes(units.drop_last()) + seq![(units.last() % 256) as u8, (units.last() / 256) as u8]
    }
}

/// A text encoded as UTF-16, little endian, as the TPM event log takes descriptions.
pub open spec fn utf16le(s: Seq<char>) -> Seq<u8>
    decreases s.len(),
{
    if s.len() == 0 {
        Seq::empty()
    } else {
        utf16le(s.drop_last()) + le_bytes(utf16_units(s.last()))
    }
}

proof fn lemma_le_bytes_one(x: u16)
    ensures
        le_bytes(seq![x]) == seq![(x % 256) as u8, (x / 256) as u8],
{
    reveal_with_fuel(le_bytes, 2);
    assert(seq![x].drop_last() =~= Seq::<u16>::empty());
    assert(seq![x].last() == x);
    assert(le_bytes(seq![x]) =~= Seq::<u8>::empty() + seq![(x % 256) as u8, (x / 256) as u8]);
}

proof fn lemma_le_bytes_two(x: u16, y: u16)
    ensures
        le_bytes(seq![x, y]) == seq![(x % 256) as u8, (x / 256) as u8, (y % 256) as u8, (y / 256) as u8],
{
    lemma_le_bytes_one(x);
    assert(seq![x, y].drop_last() =~= seq![x]);
    assert(seq![x, y].last() == y);
    assert(le_bytes(seq![x, y]) =~= seq![(x % 256) as u8, (x / 256) as u8] + seq![(y % 256) as u8, (y / 256) as u8]);
}

/// Appends the little-endian bytes of one UTF-16 code unit.
fn push_unit(out: &mut Vec<u8>, u: u16)
    ensures
        final(out)@ == old(out)@ + seq![(u % 256) as u8, (u / 256) as u8],
{
    out.push((u % 256) as u8);
    out.push((u / 256) as u8);
    assert(final(out)@ =~= old(out)@ + seq![(u % 256) as u8, (u / 256) as u8]);
}

/// The description of a TPM event, encoded as UTF-16, little endian.
pub fn event_description(description: &str) -> (r: Vec<u8>)
    ensures
        r@ == utf16le(description@),
{
    let cs = str_chars(description);
    let mut out: Vec<u8> = Vec::new();
    let mut i: usize = 0;
    while i < cs.len()
        invariant
            0 <= i <= cs@.len(),
            cs@ == description@,
            out@ == utf16le(cs@.take(i as int)),
        decreases cs@.len() - i,
    {
        let c = cs[i];
        let v = c as u32;
        let ghost before = out@;
        if v < 0x10000 {
            push_unit(&mut out, v as u16);
            proof {
                lemma_le_bytes_one(v as u16);
            }
        } else {
            proof {
                vstd::utf8::char_is_scalar(c);
            }
            let hi: u16 = (0xD800 + (v - 0x10000) / 0x400) as u16;
            let lo: u16 = (0xDC00 + (v - 0x10000) % 0x400) as u16;
            push_unit(&mut out, hi);
            push_unit(&mut out, lo);
            proof {
                lemma_le_bytes_two(hi, lo);
            }
        }
        assert(cs@.take(i + 1).drop_last() =~= cs@.take(i as int));
        i = i + 1;
        assert(out@ =~= utf16le(cs@.take(i as int)));
    }
    assert(cs@.take(i as int) =~= cs@);
    out
}

/// Whether an event goes to the TPM at all: the PCR index `u32::MAX` marks an event that is
/// logged nowhere.
pub fn pcr_is_logged(pcr_index: u32) -> (r: bool)
    ensures
        r == (pcr_index != u32::MAX),
{
    pcr_index != u32::MAX
}

/// The value of `StubPcrKernelImage`: the PCR of the kernel image as decimal text, in UTF-16,
/// little endian.
pub fn kernel_image_pcr_variable() -> (r: Vec<u8>)
    ensures
        r@ == utf16le("11"@),
{
    event_description("11")
}

/// The PCR and the event description of a companion initrd's measurement; `None` for the PCR
/// signature and public key, which are not measured.
pub open spec fn spec_companion_measurement(kind: CompanionInitrdType) -> Option<(u32, Seq<char>)> {
    match kind {
        CompanionInitrdType::Credentials => Some((TPM_PCR_INDEX_KERNEL_CONFIG, "Credentials initrd"@)),
        CompanionInitrdType::GlobalCredentials => Some((TPM_PCR_INDEX_KERNEL_CONFIG, "Global credentials initrd"@)),
        CompanionInitrdType::SystemExtension => Some((TPM_PCR_INDEX_SYSEXTS, "System extension initrd"@)),
        CompanionInitrdType::PcrSignature | CompanionInitrdType::PcrPublicKey => None,
    }
}

/// Where a companion initrd of that kind is measured, and with what description.
pub fn companion_measurement(kind: CompanionInitrdType) -> (r: Option<(u32, &'static str)>)
    ensures
        match spec_companion_measurement(kind) {
            Some((pcr, d)) => r matches Some(x) && x.0 == pcr && x.1@ == d,
            None => r is None,
        },
{
    match kind {
        CompanionInitrdType::Credentials => Some((TPM_PCR_INDEX_KERNEL_CONFIG, "Credentials initrd")),
        CompanionInitrdType::GlobalCredentials => Some((TPM_PCR_INDEX_KERNEL_CONFIG, "Global credentials initrd")),
        CompanionInitrdType::SystemExtension => Some((TPM_PCR_INDEX_SYSEXTS, "System extension initrd")),
        CompanionInitrdType::PcrSignature | CompanionInitrdType::PcrPublicKey => None,
    }
}

/// The running count of companion measurements.
#[derive(Debug, Clone, Copy, PartialEq, Eq, Structural)]
pub struct CompanionTally {
    pub measurements: u32,
    pub credentials_measured: u32,
    pub sysext_measured: bool,
}

/// The tally after a companion of that kind was (or was not) measured.
pub open spec fn spec_record(t: CompanionTally, kind: CompanionInitrdType, measured: bool) -> CompanionTally {
    if !measured || spec_companion_measurement(kind) is None {
        t
    } else {
        match kind {
            CompanionInitrdType::SystemExtension => CompanionTally {
                measurements: (t.measurements + 1) as u32,
                credentials_measured: t.credentials_measured,
                sysext_measured: true,
            },
            _ => CompanionTally {
                measurements: (t.measurements + 1) as u32,
                credentials_measured: (t.credentials_measured + 1) as u32,
                sysext_measured: t.sysext_measured,
            },
        }
    }
}

/// The tally after the companions went by in turn, each with whether the TPM took its
/// measurement.
pub open spec fn tally_of(events: Seq<(CompanionInitrdType, bool)>) -> CompanionTally
    decreases events.len(),
{
    if events.len() == 0 {
        CompanionTally { measurements: 0, credentials_measured: 0, sysext_measured: false }
    } else {
        spec_record(tally_of(events.drop_last()), events.last().0, events.last().1)
    }
}

/// The number of companions measured: taken by the TPM and of a kind that is measured.
pub open spec fn count_measured(events: Seq<(CompanionInitrdType, bool)>) -> nat
    decreases events.len(),
{
    if events.len() == 0 {
        0
    } else {
        count_measured(events.drop_last()) + if events.last().1 && spec_companion_measurement(events.last().0) is Some {
            1nat
        } else {
            0nat
        }
    }
}

/// A credentials companion, global or the image's own.
pub open spec fn is_credentials(kind: CompanionInitrdType) -> bool {
    kind == CompanionInitrdType::Credentials || kind == CompanionInitrdType::GlobalCredentials
}

/// Over a whole run of companions: the count is that of the companions measured, the PCR 12
/// variable is set exactly where some credentials were measured, the PCR 13 one exactly where
/// some system extension was; the PCR signature and public key never count.
pub proof fn law_companion_tally(events: Seq<(CompanionInitrdType, bool)>)
    requires
        events.len() < u32::MAX,
    ensures
        tally_of(events).measurements == count_measured(events),
        tally_of(events).credentials_measured <= tally_of(events).measurements <= events.len(),
        tally_of(events).credentials_measured > 0 <==> exists|i: int|
            0 <= i < events.len() && (#[trigger] events[i]).1 && is_credentials(events[i].0),
        tally_of(events).sysext_measured <==> exists|i: int|
            0 <= i < events.len() && (#[trigger] events[i]).1 && events[i].0 == CompanionInitrdType::SystemExtension,
    decreases events.len(),
{
    if events.len() > 0 {
        let p = events.drop_last();
        law_companion_tally(p);
        let last = events.len() - 1;
        assert(events.last() == events[last]);
        assert forall|i: int| 0 <= i < p.len() implies #[trigger] p[i] == events[i] by {}
        if exists|i: int| 0 <= i < p.len() && (#[trigger] p[i]).1 && is_credentials(p[i].0) {
            let i = choose|i: int| 0 <= i < p.len() && (#[trigger] p[i]).1 && is_credentials(p[i].0);
            assert(events[i] == p[i]);
        }
        if exists|i: int| 0 <= i < events.len() && (#[trigger] events[i]).1 && is_credentials(events[i].0) {
            let i = choose|i: int| 0 <= i < events.len() && (#[trigger] events[i]).1 && is_credentials(events[i].0);
            if i < last {
                assert(p[i] == events[i]);
            }
        }
        if exists|i: int| 0 <= i < p.len() && (#[trigger] p[i]).1 && p[i].0 == CompanionInitrdType::SystemExtension {
            let i = choose|i: int| 0 <= i < p.len() && (#[trigger] p[i]).1 && p[i].0 == CompanionInitrdType::SystemExtension;
            assert(events[i] == p[i]);
        }
        if exists|i: int| 0 <= i < events.len() && (#[trigger] events[i]).1 && events[i].0 == CompanionInitrdType::SystemExtension {
            let i = choose|i: int| 0 <= i < events.len() && (#[trigger] events[i]).1 && events[i].0 == CompanionInitrdType::SystemExtension;
            if i < last {
                assert(p[i] == events[i]);
            }
        }
    }
}

impl CompanionTally {
    /// Nothing measured yet.
    pub fn new() -> (r: Self)
        ensures
            r == (CompanionTally { measurements: 0, credentials_measured: 0, sysext_measured: false }),
    {
        CompanionTally { measurements: 0, credentials_measured: 0, sysext_measured: false }
    }

    /// Counts the measurement of a companion of that kind, where the TPM took it.
    pub fn record(&mut self, kind: CompanionInitrdType, measured: bool)
        requires
            old(self).measurements < u32::MAX,
            old(self).credentials_measured < u32::MAX,
        ensures
            *final(self) == spec_record(*old(self), kind, measured),
    {
        if !measured {
            return;
        }
        match kind {
            CompanionInitrdType::PcrSignature | CompanionInitrdType::PcrPublicKey => {},
            CompanionInitrdType::SystemExtension => {
                self.measurements = self.measurements + 1;
                self.sysext_measured = true;
            },
            _ => {
                self.measurements = self.measurements + 1;
                self.credentials_measured = self.credentials_measured + 1;
            },
        }
    }

    /// The EFI variables to set once all companions went by: `StubPcrKernelParameters` with
    /// PCR 12 where credentials were measured, `StubPcrInitRDSysExts` with PCR 13 where system
    /// extensions were; each value a little-endian 32-bit number.
    pub fn variables(&self) -> (r: Vec<(&'static str, Vec<u8>)>)
        ensures
            r@.map_values(|v: (&'static str, Vec<u8>)| (v.0@, v.1@)) == (if self.credentials_measured > 0 {
                seq![("StubPcrKernelParameters"@, seq![12u8, 0u8, 0u8, 0u8])]
            } else {
                Seq::empty()
            }) + (if self.sysext_measured {
                seq![("StubPcrInitRDSysExts"@, seq![13u8, 0u8, 0u8, 0u8])]
            } else {
                Seq::empty()
            }),
    {
        let mut r: Vec<(&'static str, Vec<u8>)> = Vec::new();
        if self.credentials_measured > 0 {
            r.push(("StubPcrKernelParameters", vec![12u8, 0u8, 0u8, 0u8]));
        }
        if self.sysext_measured {
            r.push(("StubPcrInitRDSysExts", vec![13u8, 0u8, 0u8, 0u8]));
        }
        assert(r@.map_values(|v: (&'static str, Vec<u8>)| (v.0@, v.1@)) =~= (if self.credentials_measured > 0 {
            seq![("StubPcrKernelParameters"@, seq![12u8, 0u8, 0u8, 0u8])]
        } else {
            Seq::empty()
        }) + (if self.sysext_measured {
            seq![("StubPcrInitRDSysExts"@, seq![13u8, 0u8, 0u8, 0u8])]
        } else {
            Seq::empty()
        }));
        r
    }
}

} // verus!
