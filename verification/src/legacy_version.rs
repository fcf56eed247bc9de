//! The systemd version as the earlier installer reads it: major and minor number only.
use vstd::prelude::*;

use crate::os_release::{parse_os_release, OsRelease};
use crate::paths::{split_chars, split_on};
use crate::pe::{parse_pe, parsed_pe, section_read_is_ok, read_section_data, read_section_ok, spec_read_section_data};
use crate::text::{chars_to_string, parse_u32, spec_parse_unsigned, str_chars, string_from_utf8, utf8_text};
use crate::version::{c_string_body, spec_c_string_body, VersionError};

verus! {

/// A systemd version as a major and a minor number; `252` is `(252, 0)`.
#[derive(Debug, PartialEq, Eq, Structural)]
pub struct SystemdVersion(pub u32, pub u32);

/// The version that a text denotes: its first two `.`-separated pieces as numbers, the minor
/// one 0 where there is none.
pub open spec fn spec_parse_legacy_version(s: Seq<char>) -> Option<(u32, u32)> {
    let pieces = split_on(s, '.');
    match spec_parse_unsigned(pieces[0], u32::MAX as int) {
        None => None,
        Some(major) => if pieces.len() < 2 {
            Some((major as u32, 0u32))
        } else {
            match spec_parse_unsigned(pieces[1], u32::MAX as int) {
                Some(minor) => Some((major as u32, minor as u32)),
                None => None,
            }
        },
    }
}

impl SystemdVersion {
    /// The components.
    pub open spec fn view(&self) -> (u32, u32) {
        (self.0, self.1)
    }

    /// Parses a version: `253` or `253.7` (further pieces are ignored).
    pub fn from_str(s: &str) -> (r: Result<SystemdVersion, VersionError>)
        ensures
            match spec_parse_legacy_version(s@) {
                Some(v) => r matches Ok(x) && x@ == v,
                None => r == Err::<SystemdVersion, VersionError>(VersionError::Malformed),
            },
    {
        let pieces = split_chars(&str_chars(s), '.');
        assert(pieces@.map_values(|v: Vec<char>| v@)[0] == pieces@[0]@);
        let major = match parse_u32(pieces[0].as_slice()) {
            Some(m) => m,
            None => return Err(VersionError::Malformed),
        };
        if pieces.len() < 2 {
            return Ok(SystemdVersion(major, 0));
        }
        assert(pieces@.map_values(|v: Vec<char>| v@)[1] == pieces@[1]@);
        match parse_u32(pieces[1].as_slice()) {
            Some(minor) => Ok(SystemdVersion(major, minor)),
            None => Err(VersionError::Malformed),
        }
    }

    /// Reads the version from the `.osrel` section data of a systemd-boot binary.
    pub fn from_osrel_section(data: &[u8]) -> (r: Result<SystemdVersion, VersionError>)
        ensures
            match spec_legacy_version_from_osrel(data@) {
                Ok(v) => r matches Ok(x) && x@ == v,
                Err(e) => r == Err::<SystemdVersion, VersionError>(e),
            },
    {
        let body = match c_string_body(data) {
            Some(b) => b,
            None => return Err(VersionError::NotCString),
        };
        let text = match string_from_utf8(body) {
            Some(t) => t,
            None => return Err(VersionError::NotUtf8),
        };
        proof {
            vstd::utf8::encode_utf8_decode_utf8(text@);
        }
        let os_release = match OsRelease::from_str(text.as_str()) {
            Ok(o) => o,
            Err(_) => return Err(VersionError::NotUtf8),
        };
        let key = chars_to_string(&vec!['V', 'E', 'R', 'S', 'I', 'O', 'N']);
        assert(key@ =~= seq!['V', 'E', 'R', 'S', 'I', 'O', 'N']);
        match os_release.get(key.as_str()) {
            None => Err(VersionError::NoVersionKey),
            Some(version) => SystemdVersion::from_str(version.as_str()),
        }
    }

    /// Reads the systemd version from the `.osrel` section of a systemd-boot binary.
    pub fn from_systemd_boot_binary(file_data: &[u8]) -> (r: Result<SystemdVersion, VersionError>)
        requires
            parsed_pe(file_data@, true) matches Some(p) ==> read_section_ok(file_data@.len(), p.sections, ".osrel"@),
        ensures
            parsed_pe(file_data@, true) is None ==> r == Err::<SystemdVersion, VersionError>(VersionError::NoOsRelSection),
            parsed_pe(file_data@, true) matches Some(p) ==> match spec_read_section_data(file_data@, p.sections, ".osrel"@) {
                None => r == Err::<SystemdVersion, VersionError>(VersionError::NoOsRelSection),
                Some(d) => match spec_legacy_version_from_osrel(d) {
                    Ok(v) => r matches Ok(x) && x@ == v,
                    Err(e) => r == Err::<SystemdVersion, VersionError>(e),
                },
            },
    {
        match read_section_data(file_data, ".osrel") {
            None => Err(VersionError::NoOsRelSection),
            Some(section) => SystemdVersion::from_osrel_section(section.as_slice()),
        }
    }

    /// `from_systemd_boot_binary` where the search for `.osrel` reads only text names and the
    /// section found lies in the file: `None` where it does not.
    pub fn checked_from_systemd_boot_binary(file_data: &[u8]) -> (r: Option<Result<SystemdVersion, VersionError>>)
        ensures
            r is None <==> (parsed_pe(file_data@, true) matches Some(p) && !read_section_ok(file_data@.len(), p.sections, ".osrel"@)),
            parsed_pe(file_data@, true) is None ==> r == Some(
                Err::<SystemdVersion, VersionError>(VersionError::NoOsRelSection),
            ),
            r matches Some(x) ==> (parsed_pe(file_data@, true) matches Some(p) ==> match spec_read_section_data(
                file_data@,
                p.sections,
                ".osrel"@,
            ) {
                None => x == Err::<SystemdVersion, VersionError>(VersionError::NoOsRelSection),
                Some(d) => match spec_legacy_version_from_osrel(d) {
                    Ok(v) => x matches Ok(y) && y@ == v,
                    Err(e) => x == Err::<SystemdVersion, VersionError>(e),
                },
            }),
    {
        match parse_pe(file_data, true) {
            None => Some(SystemdVersion::from_systemd_boot_binary(file_data)),
            Some(pe) => if section_read_is_ok(file_data, &pe.sections, ".osrel") {
                Some(SystemdVersion::from_systemd_boot_binary(file_data))
            } else {
                None
            },
        }
    }
}

/// The version that the `.osrel` section data of a systemd-boot binary gives.
pub open spec fn spec_legacy_version_from_osrel(data: Seq<u8>) -> Result<(u32, u32), VersionError> {
    match spec_c_string_body(data) {
        None => Err(VersionError::NotCString),
        Some(body) => match utf8_text(body) {
            None => Err(VersionError::NotUtf8),
            Some(text) => {
                let m = parse_os_release(text);
                if !m.dom().contains(seq!['V', 'E', 'R', 'S', 'I', 'O', 'N']) {
                    Err(VersionError::NoVersionKey)
                } else {
                    match spec_parse_legacy_version(m[seq!['V', 'E', 'R', 'S', 'I', 'O', 'N']]) {
                        Some(v) => Ok(v),
                        None => Err(VersionError::Malformed),
                    }
                }
            },
        },
    }
}

} // verus!
