use lanzaboote::generation::{BootSpec, BuildDate, ExtendedBootJson, Generation, LanzabooteExtension};
use lanzaboote::legacy::{
    parse_version as legacy_parse_version, Generation as LegacyGeneration, GenerationLink as LegacyLink,
    LinkError, OsRelease as LegacyOsRelease,
};
use lanzaboote::os_release::OsRelease;
use lanzaboote::version::c_string_body;

#[test]
fn parses_correctly_from_str() {
    let os_release_bytes = c_string_body(b"ID=systemd-boot\nVERSION=\"252.1\"\n\0").unwrap();
    let os_release_str = String::from_utf8(os_release_bytes).unwrap();
    let os_release = OsRelease::from_str(&os_release_str).unwrap();

    assert!(os_release.get("ID").unwrap() == "systemd-boot");
    assert!(os_release.get("VERSION").unwrap() == "252.1");
}

#[test]
fn escaping_works() {
    let teststring = r#"
            NO_QUOTES=systemd-boot
            DOUBLE_QUOTES="systemd-boot"
            SINGLE_QUOTES='systemd-boot'
            UNESCAPED_DOLLAR=$1.2
            ESCAPED_DOLLAR=\$1.2
            UNESCAPED_BACKTICK=`1.2
            ESCAPED_BACKTICK=\`1.2
            UNESCAPED_QUOTE=""1.2"
            ESCAPED_QUOTE=\"1.2
        "#;
    let os_release = OsRelease::from_str(teststring).unwrap();

    assert!(os_release.get("NO_QUOTES").unwrap() == "systemd-boot");
    assert!(os_release.get("DOUBLE_QUOTES").unwrap() == "systemd-boot");
    assert!(os_release.get("SINGLE_QUOTES").unwrap() == "systemd-boot");
    assert!(os_release.get("UNESCAPED_DOLLAR").unwrap() == "$1.2");
    assert!(os_release.get("ESCAPED_DOLLAR").unwrap() == "$1.2");
    assert!(os_release.get("UNESCAPED_BACKTICK").unwrap() == "`1.2");
    assert!(os_release.get("ESCAPED_BACKTICK").unwrap() == "`1.2");
    assert!(os_release.get("UNESCAPED_QUOTE").unwrap() == "1.2\"");
    assert!(os_release.get("ESCAPED_QUOTE").unwrap() == "\"1.2");
}

#[test]
fn os_release_renders_sorted_lines() {
    let mut os_release = OsRelease::new();
    os_release.insert("VERSION_ID".to_string(), "Generation 3".to_string());
    os_release.insert("ID".to_string(), "lanzaboote".to_string());
    os_release.insert("ID".to_string(), "lanza".to_string());
    assert_eq!(os_release.to_string(), "ID=lanza\nVERSION_ID=Generation 3\n");
}

#[test]
fn os_release_round_trip_of_plain_values() {
    let mut os_release = OsRelease::new();
    os_release.insert("PRETTY_NAME".to_string(), "NixOS 24.05 (Generation 7, 2024-01-02)".to_string());
    os_release.insert("ID".to_string(), "lanzaboote".to_string());
    let text = os_release.to_string();
    let parsed = OsRelease::from_str(&text).unwrap();
    assert_eq!(parsed.get("ID").unwrap(), "lanzaboote");
    assert_eq!(parsed.get("PRETTY_NAME").unwrap(), "NixOS 24.05 (Generation 7, 2024-01-02)");
    assert_eq!(parsed.to_string(), text);
}

fn generation_with_profile(profile: Option<&str>) -> Generation {
    Generation {
        profile: profile.unwrap_or("system").to_string(),
        is_default_profile: profile.is_none(),
        version: 1,
        build_time: Some(BuildDate { year: 1970, month: 1, day: 1 }),
        specialisation_name: None,
        spec: ExtendedBootJson {
            bootspec: BootSpec {
                label: "LanzaOS".to_string(),
                kernel: "/nix/store/kkkk-linux-6.1.1/bzImage".to_string(),
                kernel_params: vec![],
                init: "/nix/store/iiii-init".to_string(),
                initrd: None,
                initrd_secrets: None,
                system: "x86_64-linux".to_string(),
                toplevel: "/nix/store/aaaa-nixos-system".to_string(),
            },
            lanzaboote_extension: LanzabooteExtension::default(),
        },
    }
}

#[test]
fn generate_expected_os_release() {
    let os_release = OsRelease::from_generation(&generation_with_profile(None)).unwrap();
    assert_eq!(
        os_release.to_string(),
        "ID=lanzaboote\nPRETTY_NAME=LanzaOS (Generation 1, 1970-01-01)\nVERSION_ID=Generation 1, 1970-01-01\n"
    );
    let with_profile = OsRelease::from_generation(&generation_with_profile(Some(
        "My W#@cky_Yet_L3g!t profile-name -3",
    )))
    .unwrap();
    assert_eq!(
        with_profile.to_string(),
        "ID=lanzaboote\nPRETTY_NAME=LanzaOS [My W#@cky_Yet_L3g!t profile-name -3] (Generation 1, 1970-01-01)\nVERSION_ID=Generation 1, 1970-01-01\n"
    );
}

#[test]
fn legacy_os_release_of_generation() {
    let link = LegacyLink::from_path("/nix/var/nix/profiles/system-5-link", None).unwrap();
    assert_eq!(link.version, 5);
    let g = LegacyGeneration::from_link(&link, generation_with_profile(None).spec.bootspec);
    assert_eq!(g.describe(), "Generation 5, Built on Unknown");
    let os_release = LegacyOsRelease::from_generation(&g).unwrap();
    assert_eq!(
        os_release.to_string(),
        "ID=lanza\nPRETTY_NAME=LanzaOS\nVERSION_ID=Generation 5, Built on Unknown\n"
    );
    assert_eq!(legacy_parse_version("/x/system-abc-link"), Err(LinkError::MalformedVersion));
    assert_eq!(legacy_parse_version("/x/system"), Err(LinkError::MalformedVersion));
    let special = g.specialise(&"big".to_string(), &generation_with_profile(None).spec.bootspec).unwrap();
    assert_eq!(special.is_specialised(), Some("big".to_string()));
}
