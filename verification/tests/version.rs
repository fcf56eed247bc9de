use lanzaboote::legacy_version::SystemdVersion as LegacySystemdVersion;
use lanzaboote::version::SystemdVersion;

fn parse_version(input: &str) -> SystemdVersion {
    SystemdVersion::from_str(input).unwrap()
}

fn parse_version_error(input: &str) {
    assert!(SystemdVersion::from_str(input).is_err());
}

fn parse_legacy_version(input: &str) -> LegacySystemdVersion {
    LegacySystemdVersion::from_str(input).unwrap()
}

fn parse_legacy_version_error(input: &str) {
    assert!(LegacySystemdVersion::from_str(input).is_err());
}

#[test]
fn version_parse_version_correctly() {
    assert_eq!(parse_version("253"), (253, 0, 0).into());
    assert_eq!(parse_version("252.4"), (252, 4, 0).into());
    assert_eq!(parse_version("251.11"), (251, 11, 0).into());
    assert_eq!(parse_version("251-rc7"), (251, -1, 7).into());

    assert_eq!(parse_legacy_version("253"), LegacySystemdVersion(253, 0));
    assert_eq!(parse_legacy_version("252.4"), LegacySystemdVersion(252, 4));
    assert_eq!(parse_legacy_version("251.11"), LegacySystemdVersion(251, 11));
}

#[test]
fn version_compare_version_correctly() {
    assert!(parse_version("253") > parse_version("252"));
    assert!(parse_version("253") > parse_version("252.4"));
    assert!(parse_version("251.8") == parse_version("251.8"));
    assert!(parse_version("251-rc5") > parse_version("251-rc4"));
    assert!(parse_version("251") > parse_version("251-rc9"));

    assert!(parse_legacy_version("253") > parse_legacy_version("252"));
    assert!(parse_legacy_version("253") > parse_legacy_version("252.4"));
    assert!(parse_legacy_version("251.8") == parse_legacy_version("251.8"));
}

#[test]
fn version_fail_to_parse_version() {
    parse_version_error("");
    parse_version_error("213;k;13");
    parse_version_error("-1.3.123");

    parse_legacy_version_error("");
    parse_legacy_version_error("213;k;13");
    parse_legacy_version_error("-1.3.123");
    parse_legacy_version_error("253-rc1");
}

#[test]
fn version_reads_osrel_section() {
    let v = SystemdVersion::from_osrel_section(b"ID=systemd-boot\nVERSION=\"255-rc2\"\n\0").unwrap();
    assert_eq!(v, (255, -1, 2).into());
    assert!(SystemdVersion::from_osrel_section(b"ID=systemd-boot\n").is_err());
    assert!(SystemdVersion::from_osrel_section(b"ID=systemd-boot\n\0").is_err());
    let legacy = LegacySystemdVersion::from_osrel_section(b"VERSION=252.4.1\n\0").unwrap();
    assert_eq!(legacy, LegacySystemdVersion(252, 4));
}
