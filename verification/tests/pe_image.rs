use lanzaboote::loader::{bytes_to_pages, Image, ImageError};
use lanzaboote::measure::{measure_image, MeasureError};
use lanzaboote::pe::{
    checked_pe_section, checked_read_section_data, pe_section, pe_section_as_string,
    read_section_data, ParsedPe, PeInfo, PeSection,
};
use lanzaboote::stub::{extract_hash, extract_string, read_stub_sections, verify_components, StubError};
use lanzaboote::version::SystemdVersion;
use sha2::{Digest, Sha256};

const ALIGN: usize = 0x200;

fn put16(b: &mut Vec<u8>, v: u16) {
    b.extend_from_slice(&v.to_le_bytes());
}

fn put32(b: &mut Vec<u8>, v: u32) {
    b.extend_from_slice(&v.to_le_bytes());
}

fn put64(b: &mut Vec<u8>, v: u64) {
    b.extend_from_slice(&v.to_le_bytes());
}

fn round_up(n: usize) -> usize {
    (n + ALIGN - 1) / ALIGN * ALIGN
}

/// A minimal PE32+ image: each section's data lies at the same offset in the file and in
/// memory, each in its own alignment units, after the headers.
fn sec<'a>(name: &'a str, data: &[u8]) -> (&'a str, Vec<u8>) {
    (name, data.to_vec())
}

fn build_pe(sections: &[(&str, Vec<u8>)], entry: u32) -> Vec<u8> {
    let headers = round_up(0x148 + 40 * sections.len());
    let mut offsets = Vec::new();
    let mut next = headers;
    for (_, data) in sections {
        offsets.push(next);
        next += round_up(data.len().max(1));
    }
    let size_of_image = next as u32;

    let mut b = vec![0u8; 0x40];
    b[0] = b'M';
    b[1] = b'Z';
    b[0x3c..0x40].copy_from_slice(&0x40u32.to_le_bytes());
    b.extend_from_slice(b"PE\0\0");
    // COFF header
    put16(&mut b, 0x8664);
    put16(&mut b, sections.len() as u16);
    put32(&mut b, 0);
    put32(&mut b, 0);
    put32(&mut b, 0);
    put16(&mut b, 240);
    put16(&mut b, 0x22);
    // optional header, PE32+
    put16(&mut b, 0x20b);
    b.push(0);
    b.push(0);
    put32(&mut b, 0);
    put32(&mut b, 0);
    put32(&mut b, 0);
    put32(&mut b, entry);
    put32(&mut b, 0);
    put64(&mut b, 0x1_4000_0000);
    put32(&mut b, ALIGN as u32);
    put32(&mut b, ALIGN as u32);
    for _ in 0..6 {
        put16(&mut b, 0);
    }
    put32(&mut b, 0);
    put32(&mut b, size_of_image);
    put32(&mut b, headers as u32);
    put32(&mut b, 0);
    put16(&mut b, 10);
    put16(&mut b, 0);
    for _ in 0..4 {
        put64(&mut b, 0x1000);
    }
    put32(&mut b, 0);
    put32(&mut b, 16);
    b.extend_from_slice(&[0u8; 16 * 8]);
    // section table
    for ((name, data), off) in sections.iter().zip(offsets.iter()) {
        let mut n = [0u8; 8];
        n[..name.len()].copy_from_slice(name.as_bytes());
        b.extend_from_slice(&n);
        put32(&mut b, data.len() as u32);
        put32(&mut b, *off as u32);
        put32(&mut b, round_up(data.len().max(1)) as u32);
        put32(&mut b, *off as u32);
        put32(&mut b, 0);
        put32(&mut b, 0);
        put16(&mut b, 0);
        put16(&mut b, 0);
        put32(&mut b, 0x4000_0040);
    }
    assert!(b.len() <= headers);
    b.resize(headers, 0);
    for ((_, data), off) in sections.iter().zip(offsets.iter()) {
        b.resize(*off, 0);
        b.extend_from_slice(data);
    }
    b.resize(next, 0);
    b
}

const OSREL: &[u8] = b"ID=systemd-boot\nVERSION=\"252.1\"\n\0";

#[test]
fn sections_are_read_by_name() {
    let pe = build_pe(&[sec(".osrel", OSREL), sec(".cmdline", b"init=/init quiet")], 0x200);
    assert_eq!(read_section_data(&pe, ".osrel").unwrap(), OSREL);
    assert_eq!(read_section_data(&pe, ".cmdline").unwrap(), b"init=/init quiet");
    assert_eq!(read_section_data(&pe, ".linux"), None);
    assert_eq!(checked_read_section_data(&pe, ".cmdline"), Some(Some(b"init=/init quiet".to_vec())));
    assert_eq!(pe_section(&pe, ".cmdline").unwrap(), b"init=/init quiet");
    assert_eq!(checked_pe_section(&pe, ".missing"), Some(None));
    assert_eq!(pe_section_as_string(&pe, ".cmdline").unwrap(), "init=/init quiet");
}

#[test]
fn garbage_is_not_a_pe_image() {
    let garbage = b"this is not a PE image at all".to_vec();
    assert_eq!(read_section_data(&garbage, ".osrel"), None);
    assert_eq!(checked_read_section_data(&garbage, ".osrel"), Some(None));
    assert!(ParsedPe::from_pe_in_memory(&garbage).is_none());
    assert!(matches!(Image::load(&garbage), Err(ImageError::Load)));
    assert!(matches!(measure_image(&garbage), Some(Err(MeasureError::Load))));
}

#[test]
fn systemd_version_is_read_from_osrel_section() {
    let pe = build_pe(&[sec(".osrel", OSREL)], 0x200);
    let v = SystemdVersion::from_systemd_boot_binary(&pe).unwrap();
    assert_eq!(v, SystemdVersion { major: 252, minor: 1, patch: 0 });
    let rc = build_pe(&[sec(".osrel", b"VERSION=255-rc3\n\0")], 0x200);
    assert_eq!(
        SystemdVersion::from_systemd_boot_binary(&rc).unwrap(),
        SystemdVersion { major: 255, minor: -1, patch: 3 }
    );
}

#[test]
fn stub_sections_are_extracted() {
    let kernel_hash: Vec<u8> = Sha256::digest(b"kernel").to_vec();
    let initrd_hash: Vec<u8> = Sha256::digest(b"initrd").to_vec();
    let pe = build_pe(
        &[
            sec(".cmdline", b"init=/init"),
            sec(".osrel", b"ID=lanza\n"),
            sec(".linux", b"\\EFI\\nixos\\kernel.efi"),
            sec(".initrd", b"\\EFI\\nixos\\initrd.efi"),
            sec(".linuxh", &kernel_hash),
            sec(".initrdh", &initrd_hash),
        ],
        0x200,
    );
    let parsed = ParsedPe::from_pe_in_memory(&pe).unwrap();
    assert_eq!(
        parsed.sections(),
        vec![".cmdline", ".osrel", ".linux", ".initrd", ".linuxh", ".initrdh"]
    );
    assert_eq!(parsed.section_data(".osrel").unwrap(), b"ID=lanza\n");
    let cmdline = extract_string(&parsed, ".cmdline").unwrap();
    let expected: Vec<u16> = "init=/init".encode_utf16().chain(std::iter::once(0)).collect();
    assert_eq!(cmdline, expected);
    assert_eq!(extract_hash(&parsed, ".linuxh").unwrap(), kernel_hash);
    assert_eq!(extract_string(&parsed, ".missing"), Err(StubError::InvalidParameter));
    assert_eq!(extract_hash(&parsed, ".cmdline"), Err(StubError::InvalidParameter));

    let sections = read_stub_sections(&parsed).unwrap();
    let kernel_name: Vec<u16> = "\\EFI\\nixos\\kernel.efi".encode_utf16().chain(std::iter::once(0)).collect();
    assert_eq!(sections.kernel_filename, kernel_name);
    assert_eq!(verify_components(&sections, b"kernel", b"initrd"), Ok(()));
    assert_eq!(verify_components(&sections, b"kernel", b"other"), Err(StubError::SecurityViolation));
    assert_eq!(verify_components(&sections, b"other", b"initrd"), Err(StubError::SecurityViolation));

    let incomplete = build_pe(&[sec(".cmdline", b"init=/init")], 0x200);
    let parsed = ParsedPe::from_pe_in_memory(&incomplete).unwrap();
    assert!(matches!(read_stub_sections(&parsed), Err(StubError::InvalidParameter)));
}

#[test]
fn image_is_loaded_at_virtual_addresses() {
    let pe = build_pe(&[sec(".text", b"\x90\x90\xc3")], 0x200);
    let image = Image::load(&pe).unwrap();
    assert_eq!(image.image.len(), 0x203);
    assert_eq!(&image.image[0x200..0x203], b"\x90\x90\xc3");
    assert!(image.image[..0x200].iter().all(|b| *b == 0));
    assert_eq!(image.entry, 0x200);

    let outside = build_pe(&[sec(".text", b"\x90\x90\xc3")], 0x1000);
    assert!(matches!(Image::load(&outside), Err(ImageError::Load)));
}

#[test]
fn images_with_relocations_are_refused() {
    let info = PeInfo {
        sections: vec![PeSection {
            name: Some(".text".to_string()),
            virtual_size: 4,
            virtual_address: 8,
            size_of_raw_data: 2,
            pointer_to_raw_data: 0,
        }],
        image_base: None,
        entry: 8,
        has_base_relocations: false,
    };
    let image = Image::load_parsed(b"ab", &info).unwrap();
    // two bytes copied, the rest of the virtual size zero
    assert_eq!(image.image, vec![0, 0, 0, 0, 0, 0, 0, 0, b'a', b'b', 0, 0]);
    let relocated = PeInfo { has_base_relocations: true, ..info.clone() };
    assert!(matches!(Image::load_parsed(b"ab", &relocated), Err(ImageError::IncompatibleVersion)));
    let too_short = PeInfo {
        sections: vec![PeSection { pointer_to_raw_data: 1, ..info.sections[0].clone() }],
        ..info
    };
    assert!(matches!(Image::load_parsed(b"ab", &too_short), Err(ImageError::Load)));
}

#[test]
fn pages_round_up() {
    assert_eq!(bytes_to_pages(0), 0);
    assert_eq!(bytes_to_pages(1), 1);
    assert_eq!(bytes_to_pages(4096), 1);
    assert_eq!(bytes_to_pages(4097), 2);
}

#[test]
fn unified_sections_are_measured_except_signature() {
    let pe = build_pe(
        &[sec(".linux", b"kernel"), sec(".pcrsig", b"{}"), sec(".osrel", b"ID=lanza\n"), sec(".text", b"x")],
        0x200,
    );
    let m = measure_image(&pe).unwrap().unwrap();
    let names: Vec<&str> = m.events.iter().map(|e| e.name.as_str()).collect();
    assert_eq!(names, vec![".linux", ".osrel"]);
    assert_eq!(m.events[0].data, b"kernel");
    assert_eq!(m.events[1].data, b"ID=lanza\n");
    assert!(!m.unreadable_name);
}
