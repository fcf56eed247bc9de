use lanzaboote::generation::{BuildDate, Generation, GenerationLink};
use lanzaboote::legacy::{Generation as LegacyGeneration, GenerationLink as LegacyLink};
use lanzaboote::pe::{PeError, StubParameters};

fn bootspec_object(label: &str, toplevel: &str) -> String {
    format!(
        r#"{{"label": "{label}", "kernel": "{toplevel}/kernel", "kernelParams": ["init={toplevel}/init", "quiet"], "init": "{toplevel}/init", "initrd": "{toplevel}/initrd", "system": "x86_64-linux", "toplevel": "{toplevel}"}}"#
    )
}

fn document() -> String {
    format!(
        r#"{{"org.nixos.bootspec.v1": {}, "org.nixos.specialisation.v1": {{"big": {{"org.nixos.bootspec.v1": {}, "org.nix-community.lanzaboote": {{"sort_key": "zzz"}}}}}}, "org.nix-community.lanzaboote": {{"sort_key": "aaa"}}}}"#,
        bootspec_object("NixOS 23.05", "/nix/store/top"),
        bootspec_object("NixOS 23.05 big", "/nix/store/big"),
    )
}

fn link() -> GenerationLink {
    GenerationLink::from_path("/nix/var/nix/profiles/system-7-link", Some(0)).unwrap()
}

#[test]
fn boot_json_gives_the_generation_and_its_specialisation() {
    let (g, specialisations) = Generation::from_boot_json(&link(), document().as_bytes()).unwrap();
    assert_eq!(g.version, 7);
    assert_eq!(g.profile, "system");
    assert!(g.is_default_profile);
    assert_eq!(g.build_time, Some(BuildDate { year: 1970, month: 1, day: 1 }));
    assert_eq!(g.specialisation_name, None);
    assert_eq!(g.spec.bootspec.label, "NixOS 23.05");
    assert_eq!(g.spec.bootspec.kernel, "/nix/store/top/kernel");
    assert_eq!(g.spec.bootspec.kernel_params, vec!["init=/nix/store/top/init".to_string(), "quiet".to_string()]);
    assert_eq!(g.spec.bootspec.init, "/nix/store/top/init");
    assert_eq!(g.spec.bootspec.initrd, Some("/nix/store/top/initrd".to_string()));
    assert_eq!(g.spec.bootspec.initrd_secrets, None);
    assert_eq!(g.spec.bootspec.system, "x86_64-linux");
    assert_eq!(g.spec.bootspec.toplevel, "/nix/store/top");
    assert_eq!(g.spec.lanzaboote_extension.sort_key, "aaa");

    assert_eq!(specialisations.len(), 1);
    let s = &specialisations[0];
    assert_eq!(s.specialisation_name, Some("big".to_string()));
    assert_eq!(s.version, 7);
    assert_eq!(s.spec.bootspec.toplevel, "/nix/store/big");
    assert_eq!(s.spec.bootspec.label, "NixOS 23.05 big");
    assert_eq!(s.spec.lanzaboote_extension.sort_key, "zzz");
}

#[test]
fn boot_json_without_extension_sorts_by_default_key() {
    let raw = format!(r#"{{"org.nixos.bootspec.v1": {}}}"#, bootspec_object("NixOS", "/nix/store/top"));
    let (g, specialisations) = Generation::from_boot_json(&link(), raw.as_bytes()).unwrap();
    assert_eq!(g.spec.lanzaboote_extension.sort_key, "lanzaboote");
    assert!(specialisations.is_empty());
}

#[test]
fn malformed_boot_json_is_refused() {
    assert!(Generation::from_boot_json(&link(), b"not json").is_none());
    assert!(Generation::from_boot_json(&link(), b"{}").is_none());
    let missing_kernel = r#"{"org.nixos.bootspec.v1": {"label": "x", "kernelParams": [], "init": "/i", "system": "s", "toplevel": "/t"}}"#;
    assert!(Generation::from_boot_json(&link(), missing_kernel.as_bytes()).is_none());
}

#[test]
fn link_date_comes_from_modification_time() {
    let path = "/nix/var/nix/profiles/system-7-link";
    let date = |nanos| GenerationLink::from_path(path, nanos).unwrap().link_time;
    assert_eq!(date(None), None);
    assert_eq!(date(Some(0)), Some(BuildDate { year: 1970, month: 1, day: 1 }));
    assert_eq!(date(Some(-1)), Some(BuildDate { year: 1969, month: 12, day: 31 }));
    assert_eq!(
        date(Some(1_700_000_000 * 1_000_000_000 + 5)),
        Some(BuildDate { year: 2023, month: 11, day: 14 })
    );
    assert_eq!(date(Some(1_709_164_800 * 1_000_000_000)), Some(BuildDate { year: 2024, month: 2, day: 29 }));
    assert_eq!(date(Some(i128::MAX)), None);
    assert_eq!(date(Some(i128::MIN)), None);
}

#[test]
fn legacy_link_date_comes_from_modification_seconds() {
    let path = "/nix/var/nix/profiles/system-5-link";
    let link = LegacyLink::from_path(path, Some(86_400)).unwrap();
    assert_eq!(link.build_time, Some(BuildDate { year: 1970, month: 1, day: 2 }));
    assert_eq!(LegacyLink::from_path(path, None).unwrap().build_time, None);
}

#[test]
fn legacy_boot_json_gives_the_generation_and_specialisations() {
    let link = LegacyLink::from_path("/nix/var/nix/profiles/system-5-link", None).unwrap();
    let (g, specialisations) = LegacyGeneration::from_boot_json(&link, document().as_bytes()).unwrap();
    assert_eq!(g.is_specialised(), None);
    assert_eq!(g.spec.bootspec.toplevel, "/nix/store/top");
    assert_eq!(specialisations.len(), 1);
    assert_eq!(specialisations[0].0, "big");
    assert_eq!(specialisations[0].1.kernel, "/nix/store/big/kernel");
    assert!(LegacyGeneration::from_boot_json(&link, b"[]").is_none());
}

#[test]
fn stub_parameters_need_both_targets_under_the_esp() {
    let ok = StubParameters::new("/stub", "/k", "/i", "/esp/EFI/nixos/k.efi", "/esp/EFI/nixos/i.efi", "/esp").unwrap();
    assert_eq!(ok.kernel_path_at_esp, "\\EFI\\nixos\\k.efi");
    assert_eq!(ok.initrd_path_at_esp, "\\EFI\\nixos\\i.efi");
    let outside = StubParameters::new("/stub", "/k", "/i", "/esp/EFI/nixos/k.efi", "/other/i.efi", "/esp");
    assert!(matches!(outside, Err(PeError::NotUnderEsp)));
    let prefix_only = StubParameters::new("/stub", "/k", "/i", "/esp2/k.efi", "/esp/i.efi", "/esp");
    assert!(matches!(prefix_only, Err(PeError::NotUnderEsp)));
}
