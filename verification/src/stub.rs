//! The boot decisions of the lanzaboote stub: whether Secure Boot is on, which kernel command
//! line to use, what the embedded sections give, whether the kernel and initrd match their
//! hashes, and how the initrds are laid end to end.
use vstd::prelude::*;
use vstd::string::StringSliceAdditionalSpecFns;

use crate::companions::{pack_cpio_literal, pack_cpio_literal_safe, spec_pack_cpio_literal};
use crate::cpio::{CPIOError, Cpio, CpioState};
use crate::hash::{sha256, sha256_digest};
use crate::pe::{section_by_name_ok, spec_section_by_name, ParsedPe};
use crate::text::{string_from_utf8, str_chars, utf8_text};

verus! {

/// What reading the `SecureBoot` EFI variable gave.
pub enum SecureBootVariable {
    /// The variable does not exist: the firmware does not support Secure Boot.
    NotFound,
    /// Reading the variable failed otherwise.
    Failed,
    /// The variable's value.
    Value(Vec<u8>),
}

/// Whether Secure Boot is to be taken as active: it is unless the variable says `0` or does not
/// exist; in case of doubt (an unexpected value, a failed read) it is.
pub open spec fn spec_secure_boot(v: SecureBootVariable) -> bool {
    match v {
        SecureBootVariable::NotFound => false,
        SecureBootVariable::Failed => true,
        SecureBootVariable::Value(b) => b@ != seq![0u8],
    }
}

/// Decides whether Secure Boot is active from the `SecureBoot` variable.
pub fn get_secure_boot_status(variable: &SecureBootVariable) -> (r: bool)
    ensures
        r == spec_secure_boot(*variable),
{
    match variable {
        SecureBootVariable::NotFound => {
            assert(!spec_secure_boot(*variable));
            false
        },
        SecureBootVariable::Failed => true,
        SecureBootVariable::Value(b) => {
            if b.len() == 1 && b[0] == 0 {
                assert(b@ =~= seq![0u8]);
                false
            } else {
                assert(b@.len() != 1 || b@[0] != 0);
                assert(b@ != seq![0u8]);
                true
            }
        },
    }
}

/// Which kernel command line to boot with.
#[derive(Debug, Clone, Copy, PartialEq, Eq, Structural)]
pub enum CmdlineChoice {
    /// The command line embedded in the stub.
    Embedded,
    /// The command line that the boot loader passed.
    Passed,
    /// The passed command line, once it has been measured into the TPM; the embedded one
    /// where that fails.
    MeasurePassed,
}

/// The choice of command line: with Secure Boot always the embedded one (the passed one may
/// come from a malicious boot entry); otherwise the passed one, measured unless it equals the
/// embedded one, falling back to the embedded one.
pub open spec fn spec_cmdline_choice(secure_boot: bool, passed: Option<Seq<u8>>, embedded: Seq<u8>) -> CmdlineChoice {
    if secure_boot {
        CmdlineChoice::Embedded
    } else {
        match passed {
            None => CmdlineChoice::Embedded,
            Some(p) => if p == embedded {
                CmdlineChoice::Passed
            } else {
                CmdlineChoice::MeasurePassed
            },
        }
    }
}

/// Chooses the kernel command line from the Secure Boot state, the load options the boot
/// loader passed and the embedded command line.
pub fn choose_cmdline(secure_boot: bool, passed: Option<&[u8]>, embedded: &[u8]) -> (r: CmdlineChoice)
    ensures
        r == spec_cmdline_choice(
            secure_boot,
            match passed {
                Some(p) => Some(p@),
                None => None,
            },
            embedded@,
        ),
{
    if secure_boot {
        return CmdlineChoice::Embedded;
    }
    match passed {
        None => CmdlineChoice::Embedded,
        Some(p) => {
            if bytes_equal(p, embedded) {
                CmdlineChoice::Passed
            } else {
                CmdlineChoice::MeasurePassed
            }
        },
    }
}

/// The command line booted with: the embedded one, or the passed one where it was chosen as
/// it is or was chosen to be measured and the measurement (`measured`) succeeded.
pub open spec fn spec_cmdline_used(choice: CmdlineChoice, passed: Option<Seq<u8>>, embedded: Seq<u8>, measured: bool) -> Seq<u8> {
    match (choice, passed) {
        (CmdlineChoice::Passed, Some(p)) => p,
        (CmdlineChoice::MeasurePassed, Some(p)) => if measured {
            p
        } else {
            embedded
        },
        _ => embedded,
    }
}

/// The kernel command line to boot with, once the choice is made and, where the passed one
/// had to be measured first, the outcome of that measurement (`measured`) is known.
pub fn cmdline_used(choice: CmdlineChoice, passed: Option<&[u8]>, embedded: &[u8], measured: bool) -> (r: Vec<u8>)
    ensures
        r@ == spec_cmdline_used(
            choice,
            match passed {
                Some(p) => Some(p@),
                None => None,
            },
            embedded@,
            measured,
        ),
{
    match (choice, passed) {
        (CmdlineChoice::Passed, Some(p)) => crate::pe::bytes_to_vec(p),
        (CmdlineChoice::MeasurePassed, Some(p)) => if measured {
            crate::pe::bytes_to_vec(p)
        } else {
            crate::pe::bytes_to_vec(embedded)
        },
        _ => crate::pe::bytes_to_vec(embedded),
    }
}

/// Under Secure Boot the embedded command line is booted; a command line other than the
/// embedded one is booted only where the boot loader passed it and it was measured.
pub proof fn law_cmdline_embedded_or_measured(secure_boot: bool, passed: Option<Seq<u8>>, embedded: Seq<u8>, measured: bool)
    ensures
        ({
            let used = spec_cmdline_used(spec_cmdline_choice(secure_boot, passed, embedded), passed, embedded, measured);
            &&& secure_boot ==> used == embedded
            &&& used != embedded ==> passed == Some(used) && measured
        }),
{
}

/// Whether two byte strings are equal.
pub fn bytes_equal(a: &[u8], b: &[u8]) -> (r: bool)
    ensures
        r == (a@ == b@),
{
    if a.len() != b.len() {
        return false;
    }
    let mut i: usize = 0;
    while i < a.len()
        invariant
            0 <= i <= a@.len(),
            a@.len() == b@.len(),
            forall|j: int| 0 <= j < i ==> a@[j] == b@[j],
        decreases a@.len() - i,
    {
        if a[i] != b[i] {
            return false;
        }
        i = i + 1;
    }
    assert(a@ =~= b@);
    true
}

/// `len` rounded up to a multiple of four.
pub open spec fn round_up4(len: int) -> int {
    (len + 3) / 4 * 4
}

/// The bytes padded with zeros to a multiple of four.
pub open spec fn padded4(b: Seq<u8>) -> Seq<u8> {
    b + Seq::new((round_up4(b.len() as int) - b.len()) as nat, |i: int| 0u8)
}

/// The initrd handed to the kernel: the initrd and every further initrd in turn, each padded
/// to a multiple of four bytes.
pub open spec fn spec_initrd(initrd: Seq<u8>, extra: Seq<Seq<u8>>) -> Seq<u8>
    decreases extra.len(),
{
    if extra.len() == 0 {
        padded4(initrd)
    } else {
        padded4(spec_initrd(initrd, extra.drop_last()) + extra.last())
    }
}

/// Pads with zeros to a multiple of four bytes.
fn pad_to_4(data: &mut Vec<u8>)
    requires
        old(data)@.len() + 3 <= usize::MAX,
    ensures
        final(data)@ == padded4(old(data)@),
{
    let ghost orig = data@;
    let target = (data.len() + 3) / 4 * 4;
    while data.len() < target
        invariant
            orig.len() <= data@.len() <= target,
            target == round_up4(orig.len() as int),
            data@ == orig + Seq::new((data@.len() - orig.len()) as nat, |i: int| 0u8),
        decreases target - data@.len(),
    {
        data.push(0);
        assert(data@ =~= orig + Seq::new((data@.len() - orig.len()) as nat, |i: int| 0u8));
    }
}

/// The total length of some byte strings.
pub open spec fn total_len(s: Seq<Seq<u8>>) -> int
    decreases s.len(),
{
    if s.len() == 0 {
        0
    } else {
        total_len(s.drop_last()) + s.last().len()
    }
}

proof fn lemma_spec_initrd_len(initrd: Seq<u8>, extra: Seq<Seq<u8>>)
    ensures
        spec_initrd(initrd, extra).len() <= initrd.len() + total_len(extra) + 4 * extra.len() + 3,
        spec_initrd(initrd, extra).len() % 4 == 0,
    decreases extra.len(),
{
    if extra.len() > 0 {
        lemma_spec_initrd_len(initrd, extra.drop_last());
    }
}

/// Lays the initrd and the further initrds (credentials, system extensions, the PCR
/// signature) end to end, each padded to a multiple of four bytes as the kernel expects of
/// concatenated CPIO archives.
pub fn assemble_initrd(initrd: Vec<u8>, dynamic_initrds: Vec<Vec<u8>>) -> (r: Vec<u8>)
    requires
        initrd@.len() + total_len(dynamic_initrds@.map_values(|v: Vec<u8>| v@)) + 4 * dynamic_initrds@.len() + 3 <= usize::MAX,
    ensures
        r@ == spec_initrd(initrd@, dynamic_initrds@.map_values(|v: Vec<u8>| v@)),
        r@.len() % 4 == 0,
{
    let ghost ev = dynamic_initrds@.map_values(|v: Vec<u8>| v@);
    let mut data = initrd;
    let ghost init = data@;
    proof {
        lemma_total_len_prefix(ev, 0);
        assert(ev.take(0) =~= Seq::<Seq<u8>>::empty());
    }
    pad_to_4(&mut data);
    let mut i: usize = 0;
    assert(ev.take(0) =~= Seq::<Seq<u8>>::empty());
    while i < dynamic_initrds.len()
        invariant
            0 <= i <= dynamic_initrds@.len(),
            ev == dynamic_initrds@.map_values(|v: Vec<u8>| v@),
            init.len() + total_len(ev) + 4 * ev.len() + 3 <= usize::MAX,
            data@ == spec_initrd(init, ev.take(i as int)),
        decreases dynamic_initrds@.len() - i,
    {
        proof {
            assert(ev.take(i + 1).drop_last() =~= ev.take(i as int));
            assert(ev.take(i + 1).last() == dynamic_initrds@[i as int]@);
            lemma_spec_initrd_len(init, ev.take(i as int));
            lemma_total_len_prefix(ev, i + 1);
        }
        let extra = &dynamic_initrds[i];
        let mut k: usize = 0;
        let ghost before = data@;
        while k < extra.len()
            invariant
                0 <= k <= extra@.len(),
                data@ == before + extra@.take(k as int),
                before.len() + extra@.len() + 3 <= usize::MAX,
            decreases extra@.len() - k,
        {
            data.push(extra[k]);
            k = k + 1;
            assert(data@ =~= before + extra@.take(k as int));
        }
        assert(extra@.take(k as int) =~= extra@);
        pad_to_4(&mut data);
        i = i + 1;
    }
    assert(ev.take(i as int) =~= ev);
    proof {
        lemma_spec_initrd_len(init, ev);
    }
    data
}

proof fn lemma_total_len_nonneg(s: Seq<Seq<u8>>)
    ensures
        total_len(s) >= 0,
    decreases s.len(),
{
    if s.len() > 0 {
        lemma_total_len_nonneg(s.drop_last());
    }
}

proof fn lemma_total_len_prefix(s: Seq<Seq<u8>>, k: int)
    requires
        0 <= k <= s.len(),
    ensures
        0 <= total_len(s.take(k)) <= total_len(s),
        k > 0 ==> total_len(s.take(k - 1)) + s[k - 1].len() == total_len(s.take(k)),
    decreases s.len() - k,
{
    lemma_total_len_nonneg(s.take(k));
    if k < s.len() {
        lemma_total_len_prefix(s, k + 1);
        assert(s.take(k + 1).drop_last() =~= s.take(k));
    } else {
        assert(s.take(k) =~= s);
    }
    if k > 0 {
        assert(s.take(k).drop_last() =~= s.take(k - 1));
    }
}

/// The initrd handed to the kernel is a whole number of four-byte words, and begins with the
/// padded initrd: further initrds only ever come after it.
pub proof fn law_initrd_aligned(initrd: Seq<u8>, extra: Seq<Seq<u8>>)
    ensures
        spec_initrd(initrd, extra).len() % 4 == 0,
        spec_initrd(initrd, extra).take(padded4(initrd).len() as int) == padded4(initrd),
    decreases extra.len(),
{
    lemma_spec_initrd_len(initrd, extra);
    if extra.len() > 0 {
        law_initrd_aligned(initrd, extra.drop_last());
        let prev = spec_initrd(initrd, extra.drop_last());
        lemma_spec_initrd_len(initrd, extra.drop_last());
        assert(prev.len() >= padded4(initrd).len()) by {
            lemma_spec_initrd_prefix_len(initrd, extra.drop_last());
        }
        assert(spec_initrd(initrd, extra).take(padded4(initrd).len() as int) =~= prev.take(padded4(initrd).len() as int));
    }
}

proof fn lemma_spec_initrd_prefix_len(initrd: Seq<u8>, extra: Seq<Seq<u8>>)
    ensures
        spec_initrd(initrd, extra).len() >= padded4(initrd).len(),
    decreases extra.len(),
{
    if extra.len() > 0 {
        lemma_spec_initrd_prefix_len(initrd, extra.drop_last());
    }
}

/// Why the stub refuses to boot.
#[derive(Debug, Clone, Copy, PartialEq, Eq, Structural)]
pub enum StubError {
    /// An embedded section is missing or malformed.
    InvalidParameter,
    /// The kernel or the initrd does not match its embedded hash.
    SecurityViolation,
}

/// A text as a UCS-2 string with its terminating NUL, as UEFI takes strings: `None` where it
/// holds a character outside the Basic Multilingual Plane or a NUL.
pub open spec fn spec_ucs2(s: Seq<char>) -> Option<Seq<u16>> {
    if forall|i: int| 0 <= i < s.len() ==> 0 < (#[trigger] s[i] as u32) < 0x10000 {
        Some(s.map_values(|c: char| (c as u32) as u16).push(0u16))
    } else {
        None
    }
}

/// Converts a text to a UCS-2 string with its terminating NUL.
pub fn to_ucs2(s: &str) -> (r: Option<Vec<u16>>)
    ensures
        match spec_ucs2(s@) {
            Some(u) => r matches Some(v) && v@ == u,
            None => r is None,
        },
{
    let cs = str_chars(s);
    let mut out: Vec<u16> = Vec::new();
    let mut i: usize = 0;
    while i < cs.len()
        invariant
            0 <= i <= cs@.len(),
            cs@ == s@,
            forall|j: int| 0 <= j < i ==> 0 < (#[trigger] cs@[j] as u32) < 0x10000,
            out@ == cs@.take(i as int).map_values(|c: char| (c as u32) as u16),
        decreases cs@.len() - i,
    {
        let v = cs[i] as u32;
        if v == 0 || v >= 0x10000 {
            return None;
        }
        out.push(v as u16);
        i = i + 1;
        assert(out@ =~= cs@.take(i as int).map_values(|c: char| (c as u32) as u16));
    }
    assert(cs@.take(i as int) =~= cs@);
    out.push(0u16);
    Some(out)
}

/// The UCS-2 text of a section of the running image: its data as UTF-8, converted.
pub open spec fn spec_extract_string(data: Option<Seq<u8>>) -> Result<Seq<u16>, StubError> {
    match data {
        None => Err(StubError::InvalidParameter),
        Some(d) => match utf8_text(d) {
            None => Err(StubError::InvalidParameter),
            Some(t) => match spec_ucs2(t) {
                None => Err(StubError::InvalidParameter),
                Some(u) => Ok(u),
            },
        },
    }
}

/// The text of a section of the running image, stored as UTF-8, as a UEFI string.
pub fn extract_string(pe: &ParsedPe, section: &str) -> (r: Result<Vec<u16>, StubError>)
    requires
        section_by_name_ok(pe.data@.len(), pe.parsed@.sections, section@),
    ensures
        match spec_extract_string(spec_section_by_name(pe.data@, pe.parsed@.sections, section@)) {
            Ok(u) => r matches Ok(v) && v@ == u,
            Err(e) => r == Err::<Vec<u16>, StubError>(e),
        },
{
    let data = match pe.section_data(section) {
        Some(d) => d,
        None => return Err(StubError::InvalidParameter),
    };
    let text = match string_from_utf8(data) {
        Some(t) => t,
        None => return Err(StubError::InvalidParameter),
    };
    proof {
        vstd::utf8::encode_utf8_decode_utf8(text@);
    }
    match to_ucs2(text.as_str()) {
        Some(u) => Ok(u),
        None => Err(StubError::InvalidParameter),
    }
}

/// The SHA-256 hash stored in a section: exactly 32 bytes.
pub fn extract_hash(pe: &ParsedPe, section: &str) -> (r: Result<Vec<u8>, StubError>)
    requires
        section_by_name_ok(pe.data@.len(), pe.parsed@.sections, section@),
    ensures
        match spec_section_by_name(pe.data@, pe.parsed@.sections, section@) {
            Some(d) => if d.len() == 32 {
                r matches Ok(h) && h@ == d
            } else {
                r == Err::<Vec<u8>, StubError>(StubError::InvalidParameter)
            },
            None => r == Err::<Vec<u8>, StubError>(StubError::InvalidParameter),
        },
{
    match pe.section_data(section) {
        None => Err(StubError::InvalidParameter),
        Some(d) => if d.len() == 32 {
            Ok(d)
        } else {
            Err(StubError::InvalidParameter)
        },
    }
}

/// Checks data against the hash it must have; a mismatch stops the boot.
pub fn check_hash(data: &[u8], expected_hash: &[u8]) -> (r: Result<(), StubError>)
    ensures
        sha256_digest(data@) == expected_hash@ ==> r is Ok,
        sha256_digest(data@) != expected_hash@ ==> r == Err::<(), StubError>(StubError::SecurityViolation),
{
    let digest = sha256(data);
    if bytes_equal(digest.as_slice(), expected_hash) {
        Ok(())
    } else {
        Err(StubError::SecurityViolation)
    }
}

/// What the stub reads from its own sections: the kernel's and the initrd's file names on the
/// ESP and their hashes, and the kernel command line.
pub struct StubSections {
    pub kernel_filename: Vec<u16>,
    pub kernel_hash: Vec<u8>,
    pub initrd_filename: Vec<u16>,
    pub initrd_hash: Vec<u8>,
    pub cmdline: Vec<u16>,
}

/// Every section that the stub reads lies inside the image.
pub open spec fn stub_sections_ok(pe: ParsedPe) -> bool {
    &&& section_by_name_ok(pe.data@.len(), pe.parsed@.sections, ".linux"@)
    &&& section_by_name_ok(pe.data@.len(), pe.parsed@.sections, ".linuxh"@)
    &&& section_by_name_ok(pe.data@.len(), pe.parsed@.sections, ".initrd"@)
    &&& section_by_name_ok(pe.data@.len(), pe.parsed@.sections, ".initrdh"@)
    &&& section_by_name_ok(pe.data@.len(), pe.parsed@.sections, ".cmdline"@)
}

/// A section holding a SHA-256 hash: present and 32 bytes long.
pub open spec fn hash_section_ok(data: Option<Seq<u8>>) -> bool {
    data matches Some(d) && d.len() == 32
}

/// Every section that the stub reads is present and well formed: the file names and the
/// command line are UTF-8 text of the Basic Multilingual Plane without NUL, the hashes are 32
/// bytes long.
pub open spec fn stub_sections_readable(pe: ParsedPe) -> bool {
    &&& spec_extract_string(spec_section_by_name(pe.data@, pe.parsed@.sections, ".linux"@)) is Ok
    &&& hash_section_ok(spec_section_by_name(pe.data@, pe.parsed@.sections, ".linuxh"@))
    &&& spec_extract_string(spec_section_by_name(pe.data@, pe.parsed@.sections, ".initrd"@)) is Ok
    &&& hash_section_ok(spec_section_by_name(pe.data@, pe.parsed@.sections, ".initrdh"@))
    &&& spec_extract_string(spec_section_by_name(pe.data@, pe.parsed@.sections, ".cmdline"@)) is Ok
}

/// Reads the stub's sections, in the order the stub reads them; the first that is missing or
/// malformed stops it.
pub fn read_stub_sections(pe: &ParsedPe) -> (r: Result<StubSections, StubError>)
    requires
        stub_sections_ok(*pe),
    ensures
        r matches Ok(s) ==> {
            &&& spec_extract_string(spec_section_by_name(pe.data@, pe.parsed@.sections, ".linux"@)) == Ok::<Seq<u16>, StubError>(s.kernel_filename@)
            &&& spec_section_by_name(pe.data@, pe.parsed@.sections, ".linuxh"@) == Some(s.kernel_hash@) && s.kernel_hash@.len() == 32
            &&& spec_extract_string(spec_section_by_name(pe.data@, pe.parsed@.sections, ".initrd"@)) == Ok::<Seq<u16>, StubError>(s.initrd_filename@)
            &&& spec_section_by_name(pe.data@, pe.parsed@.sections, ".initrdh"@) == Some(s.initrd_hash@) && s.initrd_hash@.len() == 32
            &&& spec_extract_string(spec_section_by_name(pe.data@, pe.parsed@.sections, ".cmdline"@)) == Ok::<Seq<u16>, StubError>(s.cmdline@)
        },
        r matches Err(e) ==> e == StubError::InvalidParameter,
        r is Ok <==> stub_sections_readable(*pe),
{
    let kernel_filename = extract_string(pe, ".linux")?;
    let kernel_hash = extract_hash(pe, ".linuxh")?;
    let initrd_filename = extract_string(pe, ".initrd")?;
    let initrd_hash = extract_hash(pe, ".initrdh")?;
    let cmdline = extract_string(pe, ".cmdline")?;
    Ok(StubSections { kernel_filename, kernel_hash, initrd_filename, initrd_hash, cmdline })
}

/// Checks the kernel and the initrd read from the ESP against the hashes embedded in the stub:
/// the kernel first.
pub fn verify_components(sections: &StubSections, kernel_data: &[u8], initrd_data: &[u8]) -> (r: Result<(), StubError>)
    ensures
        r is Ok <==> (sha256_digest(kernel_data@) == sections.kernel_hash@ && sha256_digest(initrd_data@) == sections.initrd_hash@),
        r is Err ==> r == Err::<(), StubError>(StubError::SecurityViolation),
{
    check_hash(kernel_data, sections.kernel_hash.as_slice())?;
    check_hash(initrd_data, sections.initrd_hash.as_slice())
}

/// The CPIO archive that hands the signed PCR policy to the booted system as
/// `.extra/tpm2-pcr-signature.json`.
pub fn pcr_signature_initrd(pcr_signature: &[u8]) -> (r: Result<Cpio, CPIOError>)
    requires
        pack_cpio_literal_safe(pcr_signature@.len(), "tpm2-pcr-signature.json".spec_bytes(), ".extra".spec_bytes(), 555),
    ensures
        match spec_pack_cpio_literal(pcr_signature@, "tpm2-pcr-signature.json".spec_bytes(), ".extra".spec_bytes(), 555, 444) {
            Ok(st) => r matches Ok(c) && c@ == st,
            Err(e) => r == Err::<Cpio, CPIOError>(e),
        },
{
    pack_cpio_literal(pcr_signature, "tpm2-pcr-signature.json", ".extra", 555, 444)
}

} // verus!
