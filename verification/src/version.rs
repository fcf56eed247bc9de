//! The version of a systemd-boot binary, read from its embedded os-release.
use vstd::prelude::*;
use vstd::std_specs::convert::FromSpecImpl;
use vstd::utf8::{decode_utf8, encode_utf8, valid_utf8};

use crate::os_release::{parse_os_release, OsRelease};
use crate::pe::{
    parse_pe, parsed_pe, section_read_is_ok, read_section_data, read_section_ok, spec_read_section_data,
};
use crate::text::{
    chars_to_string, parse_i32, parse_u32, spec_parse_i32, spec_parse_unsigned, spec_split_once,
    split_once_chars, str_chars, string_from_utf8, utf8_text,
};

verus! {

/// A systemd version.
///
/// systemd does not follow semver, but it is mapped onto it anyway; components that are not
/// there are zero. A release candidate `255-rc2` is taken as `255.-1.2`, which orders it
/// before `255`.
#[derive(Debug, PartialEq, Eq, Structural)]
pub struct SystemdVersion {
    pub major: u32,
    /// Signed, so that release candidates can be `-1`.
    pub minor: i32,
    pub patch: u32,
}

/// Why the version of a systemd-boot binary could not be read.
#[derive(Debug, Clone, Copy, PartialEq, Eq, Structural)]
pub enum VersionError {
    /// The binary has no `.osrel` section.
    NoOsRelSection,
    /// The section is not a NUL-terminated string without other NULs.
    NotCString,
    /// The section is not UTF-8.
    NotUtf8,
    /// The os-release has no `VERSION` key.
    NoVersionKey,
    /// The version text is not a version.
    Malformed,
}

/// The version that a text denotes: `major-rcN`, `major.minor` or `major`.
pub open spec fn spec_parse_systemd_version(s: Seq<char>) -> Option<(u32, i32, u32)> {
    match spec_split_once(s, seq!['-', 'r', 'c']) {
        Some(parts) => match (
            spec_parse_unsigned(parts.0, u32::MAX as int),
            spec_parse_unsigned(parts.1, u32::MAX as int),
        ) {
            (Some(major), Some(rc)) => Some((major as u32, -1i32, rc as u32)),
            _ => None,
        },
        None => match spec_split_once(s, seq!['.']) {
            Some(parts) => match (spec_parse_unsigned(parts.0, u32::MAX as int), spec_parse_i32(parts.1)) {
                (Some(major), Some(minor)) => Some((major as u32, minor as i32, 0u32)),
                _ => None,
            },
            None => match spec_parse_unsigned(s, u32::MAX as int) {
                Some(major) => Some((major as u32, 0i32, 0u32)),
                None => None,
            },
        },
    }
}

impl SystemdVersion {
    /// The components.
    pub open spec fn view(&self) -> (u32, i32, u32) {
        (self.major, self.minor, self.patch)
    }

    /// Parses a version: `253-rc2`, `253.7` or `253`.
    pub fn from_str(s: &str) -> (r: Result<SystemdVersion, VersionError>)
        ensures
            spec_parse_systemd_version(s@) matches Some(v) ==> r matches Ok(x) && x@ == v,
            spec_parse_systemd_version(s@) is None ==> r == Err::<SystemdVersion, VersionError>(
                VersionError::Malformed,
            ),
    {
        let chars = str_chars(s);
        let rc: Vec<char> = vec!['-', 'r', 'c'];
        let dot: Vec<char> = vec!['.'];
        assert(rc@ =~= seq!['-', 'r', 'c']);
        assert(dot@ =~= seq!['.']);
        match split_once_chars(&chars, &rc) {
            Some((major_str, rc_str)) => {
                match (parse_u32(major_str.as_slice()), parse_u32(rc_str.as_slice())) {
                    (Some(major), Some(patch)) => Ok(SystemdVersion { major, minor: -1, patch }),
                    _ => Err(VersionError::Malformed),
                }
            },
            None => match split_once_chars(&chars, &dot) {
                Some((major_str, minor_str)) => {
                    match (parse_u32(major_str.as_slice()), parse_i32(minor_str.as_slice())) {
                        (Some(major), Some(minor)) => Ok(SystemdVersion { major, minor, patch: 0 }),
                        _ => Err(VersionError::Malformed),
                    }
                },
                None => match parse_u32(chars.as_slice()) {
                    Some(major) => Ok(SystemdVersion { major, minor: 0, patch: 0 }),
                    None => Err(VersionError::Malformed),
                },
            },
        }
    }
}

impl From<(u32, i32, u32)> for SystemdVersion {
    fn from(value: (u32, i32, u32)) -> (r: SystemdVersion) {
        SystemdVersion { major: value.0, minor: value.1, patch: value.2 }
    }
}

impl FromSpecImpl<(u32, i32, u32)> for SystemdVersion {
    open spec fn obeys_from_spec() -> bool {
        true
    }

    open spec fn from_spec(v: (u32, i32, u32)) -> SystemdVersion {
        SystemdVersion { major: v.0, minor: v.1, patch: v.2 }
    }
}

/// The bytes of a C string before its terminating NUL: `None` unless the data ends with a NUL
/// and holds no other (`CStr::from_bytes_with_nul`).
pub open spec fn spec_c_string_body(data: Seq<u8>) -> Option<Seq<u8>> {
    if data.len() > 0 && data.last() == 0 && (forall|i: int| 0 <= i < data.len() - 1 ==> data[i] != 0) {
        Some(data.drop_last())
    } else {
        None
    }
}

/// The bytes of a NUL-terminated string without its terminator; `None` where the data does not
/// end with a NUL or holds another one before it.
pub fn c_string_body(data: &[u8]) -> (r: Option<Vec<u8>>)
    ensures
        r matches Some(v) ==> spec_c_string_body(data@) == Some(v@),
        r is None ==> spec_c_string_body(data@) is None,
{
    let n = data.len();
    if n == 0 || data[n - 1] != 0 {
        return None;
    }
    let mut body: Vec<u8> = Vec::new();
    let mut i: usize = 0;
    while i < n - 1
        invariant
            n == data@.len(),
            0 <= i <= n - 1,
            body@ == data@.take(i as int),
            forall|k: int| 0 <= k < i ==> data@[k] != 0,
        decreases n - 1 - i,
    {
        if data[i] == 0 {
            return None;
        }
        body.push(data[i]);
        i = i + 1;
        assert(body@ =~= data@.take(i as int));
    }
    assert(body@ =~= data@.drop_last());
    Some(body)
}

/// The version that the `.osrel` section data of a systemd-boot binary gives.
pub open spec fn spec_version_from_osrel(data: Seq<u8>) -> Result<(u32, i32, u32), VersionError> {
    match spec_c_string_body(data) {
        None => Err(VersionError::NotCString),
        Some(body) => match utf8_text(body) {
            None => Err(VersionError::NotUtf8),
            Some(text) => {
                let m = parse_os_release(text);
                if !m.dom().contains(seq!['V', 'E', 'R', 'S', 'I', 'O', 'N']) {
                    Err(VersionError::NoVersionKey)
                } else {
                    match spec_parse_systemd_version(m[seq!['V', 'E', 'R', 'S', 'I', 'O', 'N']]) {
                        Some(v) => Ok(v),
                        None => Err(VersionError::Malformed),
                    }
                }
            },
        },
    }
}

/// A version result as plain values.
pub open spec fn version_result(r: Result<SystemdVersion, VersionError>) -> Result<(u32, i32, u32), VersionError> {
    match r {
        Ok(v) => Ok(v@),
        Err(e) => Err(e),
    }
}

impl SystemdVersion {
    /// Reads the version from the `.osrel` section data of a systemd-boot binary: a
    /// NUL-terminated os-release text whose `VERSION` key holds the version.
    pub fn from_osrel_section(data: &[u8]) -> (r: Result<SystemdVersion, VersionError>)
        ensures
            version_result(r) == spec_version_from_osrel(data@),
    {
        let body = match c_string_body(data) {
            Some(b) => b,
            None => return Err(VersionError::NotCString),
        };
        let ghost body_bytes = body@;
        let text = match string_from_utf8(body) {
            Some(t) => t,
            None => return Err(VersionError::NotUtf8),
        };
        proof {
            vstd::utf8::encode_utf8_decode_utf8(text@);
        }
        let os_release = match OsRelease::from_str(text.as_str()) {
            Ok(o) => o,
            Err(_) => return Err(VersionError::NotUtf8),
        };
        let key = chars_to_string(&vec!['V', 'E', 'R', 'S', 'I', 'O', 'N']);
        assert(key@ =~= seq!['V', 'E', 'R', 'S', 'I', 'O', 'N']);
        match os_release.get(key.as_str()) {
            None => Err(VersionError::NoVersionKey),
            Some(version) => SystemdVersion::from_str(version.as_str()),
        }
    }

    /// Reads the systemd version from the `.osrel` section of a systemd-boot binary.
    pub fn from_systemd_boot_binary(file_data: &[u8]) -> (r: Result<SystemdVersion, VersionError>)
        requires
            parsed_pe(file_data@, true) matches Some(p) ==> read_section_ok(
                file_data@.len(),
                p.sections,
                ".osrel"@,
            ),
        ensures
            parsed_pe(file_data@, true) is None ==> r == Err::<SystemdVersion, VersionError>(
                VersionError::NoOsRelSection,
            ),
            parsed_pe(file_data@, true) matches Some(p) ==> version_result(r) == match spec_read_section_data(
                file_data@,
                p.sections,
                ".osrel"@,
            ) {
                None => Err(VersionError::NoOsRelSection),
                Some(d) => spec_version_from_osrel(d),
            },
    {
        match read_section_data(file_data, ".osrel") {
            None => Err(VersionError::NoOsRelSection),
            Some(section) => SystemdVersion::from_osrel_section(section.as_slice()),
        }
    }
}

impl SystemdVersion {
    /// `from_systemd_boot_binary` where the search for `.osrel` reads only text names and the
    /// section found lies in the file: `None` where it does not.
    pub fn checked_from_systemd_boot_binary(file_data: &[u8]) -> (r: Option<Result<SystemdVersion, VersionError>>)
        ensures
            r is None <==> (parsed_pe(file_data@, true) matches Some(p) && !read_section_ok(
                file_data@.len(),
                p.sections,
                ".osrel"@,
            )),
            parsed_pe(file_data@, true) is None ==> r == Some(
                Err::<SystemdVersion, VersionError>(VersionError::NoOsRelSection),
            ),
            r matches Some(x) ==> (parsed_pe(file_data@, true) matches Some(p) ==> version_result(x)
                == match spec_read_section_data(file_data@, p.sections, ".osrel"@) {
                None => Err(VersionError::NoOsRelSection),
                Some(d) => spec_version_from_osrel(d),
            }),
    {
        match parse_pe(file_data, true) {
            None => Some(SystemdVersion::from_systemd_boot_binary(file_data)),
            Some(pe) => if section_read_is_ok(file_data, &pe.sections, ".osrel") {
                Some(SystemdVersion::from_systemd_boot_binary(file_data))
            } else {
                None
            },
        }
    }
}

} // verus!
