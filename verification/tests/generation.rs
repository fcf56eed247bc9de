use lanzaboote::esp::nixos_path;
use lanzaboote::generation::{parse_profile, parse_version};
use lanzaboote::legacy;

#[test]
fn nixos_path_creates_correct_filename_from_nix_store_path() {
    let path = "/nix/store/xqplddjjjy1lhzyzbcv4dza11ccpcfds-initrd-linux-6.1.1/initrd";

    let generated_filename = nixos_path(path, "initrd").unwrap();

    let expected_filename = String::from("xqplddjjjy1lhzyzbcv4dza11ccpcfds-initrd-linux-6.1.1-initrd.efi");

    assert_eq!(generated_filename, expected_filename);
}

#[test]
fn parse_profile_correctly() {
    let path = "system-2-link";
    let parsed_profile = parse_profile(path).unwrap();
    assert_eq!(parsed_profile, "system");

    let path = "my-2nd-nixos-machine-3-link";
    let parsed_profile = parse_profile(path).unwrap();
    assert_eq!(parsed_profile, "my-2nd-nixos-machine");
}

#[test]
fn generation_parse_version_correctly() {
    let path = "system-2-link";
    let parsed_version = parse_version(path).unwrap();
    assert_eq!(parsed_version, 2,);

    // the earlier installer reads the second `-`-separated piece
    let path = "system-2-link";
    let parsed_version = legacy::parse_version(path).unwrap();
    assert_eq!(parsed_version, 2,);
}

#[test]
fn reject_malformed_generation_link_names() {
    for name in ["system-link", "system-abc-link", "2-link", "system-2"] {
        let path = name;
        assert!(parse_profile(path).is_err() || parse_version(path).is_err());
    }
}
