use lanzaboote::companions::{
    discover_credentials, discover_system_extensions, file_base_name, matching_files, pack_cpio,
    pack_cpio_literal, sort_files, CompanionInitrdType,
};
use lanzaboote::measure::{
    companion_measurement, event_description, kernel_image_pcr_variable, pcr_is_logged,
    CompanionTally, UnifiedSection,
};
use lanzaboote::stub::{
    assemble_initrd, bytes_equal, check_hash, choose_cmdline, cmdline_used, get_secure_boot_status,
    pcr_signature_initrd, to_ucs2, CmdlineChoice, SecureBootVariable, StubError,
};
use sha2::{Digest, Sha256};

#[test]
fn secure_boot_is_on_unless_the_variable_says_otherwise() {
    assert!(!get_secure_boot_status(&SecureBootVariable::NotFound));
    assert!(get_secure_boot_status(&SecureBootVariable::Failed));
    assert!(!get_secure_boot_status(&SecureBootVariable::Value(vec![0])));
    assert!(get_secure_boot_status(&SecureBootVariable::Value(vec![1])));
    assert!(get_secure_boot_status(&SecureBootVariable::Value(vec![0, 0])));
    assert!(get_secure_boot_status(&SecureBootVariable::Value(vec![])));
}

#[test]
fn command_line_choice() {
    let embedded: &[u8] = b"init=/init";
    assert_eq!(choose_cmdline(true, Some(b"evil"), embedded), CmdlineChoice::Embedded);
    assert_eq!(choose_cmdline(false, None, embedded), CmdlineChoice::Embedded);
    assert_eq!(choose_cmdline(false, Some(b"init=/init"), embedded), CmdlineChoice::Passed);
    assert_eq!(choose_cmdline(false, Some(b"init=/other"), embedded), CmdlineChoice::MeasurePassed);
    assert!(bytes_equal(b"abc", b"abc"));
    assert!(!bytes_equal(b"abc", b"abd"));
    assert!(!bytes_equal(b"abc", b"ab"));
}

#[test]
fn initrds_are_padded_to_four_bytes() {
    let r = assemble_initrd(vec![1, 2, 3, 4, 5], vec![vec![6], vec![], vec![7, 8, 9, 10]]);
    assert_eq!(r, vec![1, 2, 3, 4, 5, 0, 0, 0, 6, 0, 0, 0, 7, 8, 9, 10]);
    assert_eq!(r.len() % 4, 0);
    assert_eq!(assemble_initrd(vec![], vec![]), Vec::<u8>::new());
    assert_eq!(assemble_initrd(vec![1, 2, 3, 4], vec![]), vec![1, 2, 3, 4]);
}

#[test]
fn ucs2_strings_end_with_nul() {
    assert_eq!(to_ucs2("ab").unwrap(), vec![0x61, 0x62, 0]);
    assert_eq!(to_ucs2("").unwrap(), vec![0]);
    assert_eq!(to_ucs2("é").unwrap(), vec![0xe9, 0]);
    assert_eq!(to_ucs2("a\u{1F600}"), None);
    assert_eq!(to_ucs2("a\0b"), None);
}

#[test]
fn hashes_are_checked() {
    let digest = Sha256::digest(b"abc").to_vec();
    assert_eq!(check_hash(b"abc", &digest), Ok(()));
    assert_eq!(check_hash(b"abd", &digest), Err(StubError::SecurityViolation));
    assert_eq!(check_hash(b"abc", &digest[..31]), Err(StubError::SecurityViolation));
}

#[test]
fn pcr_signature_goes_to_extra() {
    let cpio = pcr_signature_initrd(b"{\"sha256\":[]}").unwrap();
    let data = cpio.into_inner();
    assert_eq!(&data[0..6], b"070701");
    assert_eq!(data.len() % 4, 0);
    let text = String::from_utf8_lossy(&data);
    assert!(text.contains(".extra/tpm2-pcr-signature.json"));
    assert!(text.contains("{\"sha256\":[]}"));
    assert!(text.contains("TRAILER!!!"));
}

#[test]
fn unified_sections_by_name() {
    assert_eq!(UnifiedSection::try_from(".linux").unwrap().name(), ".linux");
    assert!(UnifiedSection::try_from(".osrel").unwrap().should_be_measured());
    assert!(!UnifiedSection::try_from(".pcrsig").unwrap().should_be_measured());
    assert!(!UnifiedSection::try_from(".dtbauto").unwrap().should_be_measured());
    assert!(UnifiedSection::try_from(".text").is_err());
    for name in [
        ".linux", ".osrel", ".cmdline", ".initrd", ".ucode", ".splash", ".dtb", ".dtbauto",
        ".hwids", ".uname", ".sbat", ".pcrsig", ".pcrpkey",
    ] {
        assert_eq!(UnifiedSection::try_from(name).unwrap().name(), name);
    }
}

#[test]
fn measurement_descriptions_are_utf16le() {
    assert_eq!(event_description("ab"), vec![0x61, 0, 0x62, 0]);
    assert_eq!(event_description("é"), vec![0xe9, 0]);
    assert_eq!(kernel_image_pcr_variable(), vec![0x31, 0, 0x31, 0]);
    assert!(pcr_is_logged(11));
    assert!(!pcr_is_logged(u32::MAX));
}

#[test]
fn companions_are_measured_into_their_pcrs() {
    assert_eq!(companion_measurement(CompanionInitrdType::Credentials), Some((12, "Credentials initrd")));
    assert_eq!(
        companion_measurement(CompanionInitrdType::GlobalCredentials),
        Some((12, "Global credentials initrd"))
    );
    assert_eq!(
        companion_measurement(CompanionInitrdType::SystemExtension),
        Some((13, "System extension initrd"))
    );
    assert_eq!(companion_measurement(CompanionInitrdType::PcrSignature), None);

    let mut tally = CompanionTally::new();
    assert!(tally.variables().is_empty());
    tally.record(CompanionInitrdType::Credentials, true);
    tally.record(CompanionInitrdType::PcrSignature, true);
    tally.record(CompanionInitrdType::SystemExtension, false);
    assert_eq!(tally.measurements, 1);
    assert_eq!(tally.variables(), vec![("StubPcrKernelParameters", vec![12, 0, 0, 0])]);
    tally.record(CompanionInitrdType::SystemExtension, true);
    assert_eq!(
        tally.variables(),
        vec![("StubPcrKernelParameters", vec![12, 0, 0, 0]), ("StubPcrInitRDSysExts", vec![13, 0, 0, 0])]
    );
}

fn file(path: &str, data: &[u8]) -> (String, Vec<u8>) {
    (path.to_string(), data.to_vec())
}

#[test]
fn files_are_sorted_by_path() {
    let sorted = sort_files(vec![file("\\b", b"2"), file("\\a", b"1"), file("\\c", b"3")]);
    let paths: Vec<&str> = sorted.iter().map(|f| f.0.as_str()).collect();
    assert_eq!(paths, vec!["\\a", "\\b", "\\c"]);
    assert_eq!(file_base_name("\\loader\\credentials\\x.cred"), "x.cred");
    assert_eq!(file_base_name("plain"), "plain");
}

#[test]
fn archive_does_not_depend_on_file_order() {
    let a = pack_cpio(vec![file("\\d\\b.cred", b"BB"), file("\\d\\a.cred", b"A")], ".extra/credentials", 0o500, 0o400)
        .unwrap()
        .into_inner();
    let b = pack_cpio(vec![file("\\d\\a.cred", b"A"), file("\\d\\b.cred", b"BB")], ".extra/credentials", 0o500, 0o400)
        .unwrap()
        .into_inner();
    assert_eq!(a, b);
    let text = String::from_utf8_lossy(&a);
    let pos_a = text.find(".extra/credentials/a.cred").unwrap();
    let pos_b = text.find(".extra/credentials/b.cred").unwrap();
    assert!(pos_a < pos_b);
}

#[test]
fn literal_archive_holds_one_file() {
    let cpio = pack_cpio_literal(b"hello", "x.json", ".extra", 0o555, 0o444).unwrap();
    let data = cpio.into_inner();
    let text = String::from_utf8_lossy(&data);
    assert!(text.contains(".extra/x.json"));
    assert!(text.contains("hello"));
}

#[test]
fn drop_in_files_are_matched_by_suffix() {
    let entries = vec![
        ("a.cred".to_string(), true),
        ("dir.cred".to_string(), false),
        ("b.raw".to_string(), true),
        ("é.cred".to_string(), true),
        ("c.cred".to_string(), true),
    ];
    assert_eq!(
        matching_files("\\loader\\credentials", &entries, ".cred"),
        vec!["\\loader\\credentials\\a.cred", "\\loader\\credentials\\c.cred"]
    );
}

#[test]
fn credentials_and_extensions_become_companions() {
    let cs = discover_credentials(Some(vec![file("\\g\\a.cred", b"G")]), Some(vec![file("\\l\\b.cred", b"L")])).unwrap();
    let kinds: Vec<CompanionInitrdType> = cs.iter().map(|c| c.kind).collect();
    assert_eq!(kinds, vec![CompanionInitrdType::GlobalCredentials, CompanionInitrdType::Credentials]);
    let none = discover_credentials(None, Some(vec![])).unwrap();
    assert!(none.is_empty());
    let sys = discover_system_extensions(vec![file("\\i.extra\\x.raw", b"X")]).unwrap();
    assert_eq!(sys.len(), 1);
    assert_eq!(sys[0].kind, CompanionInitrdType::SystemExtension);
    assert!(discover_system_extensions(vec![]).unwrap().is_empty());
}

#[test]
fn command_line_after_measurement() {
    let embedded: &[u8] = b"init=/init";
    assert_eq!(cmdline_used(CmdlineChoice::Embedded, Some(b"evil"), embedded, true), embedded);
    assert_eq!(cmdline_used(CmdlineChoice::Passed, Some(b"init=/init"), embedded, false), embedded);
    assert_eq!(cmdline_used(CmdlineChoice::MeasurePassed, Some(b"quiet"), embedded, true), b"quiet");
    assert_eq!(cmdline_used(CmdlineChoice::MeasurePassed, Some(b"quiet"), embedded, false), embedded);
    let choice = choose_cmdline(true, Some(b"quiet"), embedded);
    assert_eq!(cmdline_used(choice, Some(b"quiet"), embedded, true), embedded);
}
