use lanzaboote::esp::Architecture;
use lanzaboote::generation::{
    BootSpec, BuildDate, ExtendedBootJson, Generation, GenerationLink, LanzabooteExtension,
};
use lanzaboote::install::{
    assemble_kernel_cmdline, bootable_generations, kernel_version, newer_systemd_boot,
    is_nixos_entry, nixos_ca_name, resolve_efi_path, select_links, should_install_systemd_boot,
    sort_links_by_version, stub_name, InstallError, Installer,
};
use lanzaboote::signature::KeyPair;
use lanzaboote::version::{SystemdVersion, VersionError};

fn spec_with_toplevel(toplevel: &str) -> ExtendedBootJson {
    ExtendedBootJson {
        bootspec: BootSpec {
            label: "LanzaOS".to_string(),
            kernel: "/nix/store/kkkk-linux-6.1.1/bzImage".to_string(),
            kernel_params: vec!["quiet".to_string()],
            init: "/nix/store/iiii-init".to_string(),
            initrd: Some("/nix/store/rrrr-initrd-linux-6.1.1/initrd".to_string()),
            initrd_secrets: None,
            system: "x86_64-linux".to_string(),
            toplevel: toplevel.to_string(),
        },
        lanzaboote_extension: LanzabooteExtension::default(),
    }
}

fn generation(version: u64, specialisation: Option<&str>) -> Generation {
    Generation {
        profile: "system".to_string(),
        is_default_profile: true,
        version,
        build_time: Some(BuildDate { year: 1970, month: 1, day: 1 }),
        specialisation_name: specialisation.map(|s| s.to_string()),
        spec: spec_with_toplevel("/nix/store/aaaa-nixos-system"),
    }
}

fn link(version: u64, path: &str) -> GenerationLink {
    GenerationLink {
        profile: "system".to_string(),
        is_default_profile: true,
        version,
        path: path.to_string(),
        link_time: None,
    }
}

#[test]
fn kernel_command_line_starts_with_init() {
    let cmdline = assemble_kernel_cmdline(
        "/nix/store/iiii-init",
        vec!["quiet".to_string(), "splash".to_string()],
    );
    assert_eq!(cmdline, vec!["init=/nix/store/iiii-init", "quiet", "splash"]);
    assert_eq!(assemble_kernel_cmdline("/init", vec![]), vec!["init=/init"]);
}

#[test]
fn kernel_version_is_read_from_directory_name() {
    assert_eq!(kernel_version("/nix/store/kkkk-linux-6.1.1/bzImage").unwrap(), "6.1.1");
    assert_eq!(kernel_version("/plain/bzImage").unwrap(), "plain");
    assert_eq!(kernel_version("bzImage"), Err(InstallError::NoKernelDirectory));
}

#[test]
fn content_addressed_names_use_base32_of_hash() {
    assert_eq!(nixos_ca_name("kernel-6.1.1", &[0xff, 0x00, 0x10]), "kernel-6.1.1-74aba.efi");
    assert_eq!(nixos_ca_name("initrd", b"foobar"), "initrd-mzxw6ytboi.efi");
    assert_eq!(nixos_ca_name("x", b""), "x-.efi");
}

#[test]
fn stub_name_hashes_toplevel_and_key() {
    let g = generation(7, None);
    assert_eq!(
        stub_name(&g, b"PUBKEY"),
        "nixos-generation-7-mkf7wkvknndbv35xsgtbvjwdgjueydr3oxkvi323tjs7okycbinq.efi"
    );
    let s = generation(7, Some("big"));
    assert_eq!(
        stub_name(&s, b"PUBKEY"),
        "nixos-generation-7-specialisation-big-mkf7wkvknndbv35xsgtbvjwdgjueydr3oxkvi323tjs7okycbinq.efi"
    );
    // Another key or another toplevel gives another name.
    assert_ne!(stub_name(&g, b"OTHERKEY"), stub_name(&g, b"PUBKEY"));
    let mut moved = generation(7, None);
    moved.spec = spec_with_toplevel("/nix/store/bbbb-nixos-system");
    assert_ne!(stub_name(&moved, b"PUBKEY"), stub_name(&g, b"PUBKEY"));
}

#[test]
fn efi_paths_resolve_under_the_esp() {
    assert_eq!(
        resolve_efi_path("/boot", b"\\EFI\\nixos\\kernel.efi").unwrap(),
        "/boot/EFI/nixos/kernel.efi"
    );
    assert_eq!(resolve_efi_path("/boot", b"\\\xff\xfe"), Err(InstallError::NotUtf8));
}

#[test]
fn systemd_boot_update_decision() {
    let v = |a: u32, b: i32, c: u32| -> Result<SystemdVersion, VersionError> {
        Ok(SystemdVersion { major: a, minor: b, patch: c })
    };
    assert_eq!(newer_systemd_boot(false, Err(VersionError::Malformed), Err(VersionError::Malformed)), Ok(true));
    assert_eq!(newer_systemd_boot(true, v(254, 0, 0), v(253, 0, 0)), Ok(true));
    assert_eq!(newer_systemd_boot(true, v(253, 0, 0), v(253, 0, 0)), Ok(false));
    assert_eq!(newer_systemd_boot(true, v(253, -1, 2), v(253, 0, 0)), Ok(false));
    assert_eq!(newer_systemd_boot(true, v(253, 0, 0), Err(VersionError::NoOsRelSection)), Ok(true));
    assert_eq!(
        newer_systemd_boot(true, Err(VersionError::NotUtf8), v(253, 0, 0)),
        Err(VersionError::NotUtf8)
    );
    assert!(should_install_systemd_boot(true, true));
    assert!(should_install_systemd_boot(false, false));
    assert!(!should_install_systemd_boot(false, true));
}

#[test]
fn links_are_sorted_stably_by_version() {
    let links = vec![link(3, "a"), link(1, "b"), link(3, "c"), link(2, "d")];
    let sorted = sort_links_by_version(links);
    let paths: Vec<&str> = sorted.iter().map(|l| l.path.as_str()).collect();
    assert_eq!(paths, vec!["b", "d", "a", "c"]);
}

#[test]
fn only_the_newest_links_are_selected() {
    let links = vec![link(3, "a"), link(1, "b"), link(5, "c"), link(2, "d")];
    let kept = select_links(links.clone(), 2);
    let versions: Vec<u64> = kept.iter().map(|l| l.version).collect();
    assert_eq!(versions, vec![3, 5]);
    let all = select_links(links.clone(), 0);
    let versions: Vec<u64> = all.iter().map(|l| l.version).collect();
    assert_eq!(versions, vec![1, 2, 3, 5]);
    let more = select_links(links, 10);
    assert_eq!(more.len(), 4);
}

#[test]
fn no_bootable_generation_is_an_error() {
    assert_eq!(bootable_generations(vec![]).unwrap_err(), InstallError::NoBootableGeneration);
    assert_eq!(bootable_generations(vec![generation(1, None)]).unwrap().len(), 1);
}

#[test]
fn broken_generations_disable_garbage_collection() {
    let mut installer = Installer::new(
        "/nix/store/ssss-stub/bin/lanzaboote_stub.efi".to_string(),
        Architecture::X86,
        "/nix/store/dddd-systemd".to_string(),
        "/nix/store/llll-loader.conf".to_string(),
        KeyPair::new("db.pem", "db.key"),
        0,
        "/boot",
        vec![],
    );
    assert!(installer.garbage_collection_enabled());
    installer.record_broken(12);
    installer.record_broken(3);
    installer.record_broken(12);
    assert!(!installer.garbage_collection_enabled());
    assert_eq!(
        installer.broken_generations_warning(),
        "Garbage collection is disabled because you have malformed NixOS generations that do\nnot contain a readable bootspec document.\n\nRemove the malformed generations to re-enable garbage collection with\n`nix-env --delete-generations 3 12`\n"
    );
    assert_eq!(
        installer.systemd_boot_source(),
        "/nix/store/dddd-systemd/lib/systemd/boot/efi/systemd-bootx64.efi"
    );
    assert_eq!(
        installer.stub_target(&generation(7, None), b"PUBKEY"),
        "/boot/EFI/Linux/nixos-generation-7-mkf7wkvknndbv35xsgtbvjwdgjueydr3oxkvi323tjs7okycbinq.efi"
    );
    assert_eq!(installer.nixos_ca_target("initrd", b"foobar"), "/boot/EFI/nixos/initrd-mzxw6ytboi.efi");
    assert_eq!(installer.configuration_limit(), 0);
}

#[test]
fn only_nixos_entries_are_collected_in_shared_directories() {
    assert!(is_nixos_entry("/boot/EFI/Linux/nixos-generation-1.efi"));
    assert!(!is_nixos_entry("/boot/EFI/Linux/ubuntu.efi"));
    assert!(!is_nixos_entry("/boot/EFI/Linux/nixos"));
    assert!(!is_nixos_entry("/"));
}

#[test]
fn garbage_is_what_no_generation_uses() {
    let mut installer = Installer::new(
        "/stub.efi".to_string(),
        Architecture::X86,
        "/systemd".to_string(),
        "/loader.conf".to_string(),
        KeyPair::new("db.pem", "db.key"),
        0,
        "/boot",
        vec![],
    );
    installer.add_gc_roots(&vec!["/boot/EFI/nixos/kernel-1.efi".to_string(), "/boot/EFI/Linux/nixos-generation-1.efi".to_string()]);
    let nixos = vec![
        "/boot/EFI/nixos".to_string(),
        "/boot/EFI/nixos/kernel-1.efi".to_string(),
        "/boot/EFI/nixos/kernel-0.efi".to_string(),
    ];
    let linux = vec![
        "/boot/EFI/Linux".to_string(),
        "/boot/EFI/Linux/nixos-generation-1.efi".to_string(),
        "/boot/EFI/Linux/nixos-generation-0.efi".to_string(),
        "/boot/EFI/Linux/ubuntu.efi".to_string(),
    ];
    assert_eq!(
        installer.garbage(&nixos, &linux),
        vec!["/boot/EFI/nixos/kernel-0.efi", "/boot/EFI/Linux/nixos-generation-0.efi"]
    );
    installer.record_broken(4);
    assert!(installer.garbage(&nixos, &linux).is_empty());
}

#[test]
fn installed_generations_are_kept_while_a_file_remains() {
    let mut installer = Installer::new(
        "/stub.efi".to_string(),
        Architecture::X86,
        "/systemd".to_string(),
        "/loader.conf".to_string(),
        KeyPair::new("db.pem", "db.key"),
        0,
        "/boot",
        vec![],
    );
    let stub = "/boot/EFI/Linux/nixos-generation-1.efi".to_string();
    let kernel = "/boot/EFI/nixos/kernel.efi".to_string();
    let initrd = "/boot/EFI/nixos/initrd.efi".to_string();
    assert_eq!(
        installer.register_installed(stub.clone(), kernel.clone(), initrd.clone(), false, false),
        Err(InstallError::MissingKernelAndInitrd)
    );
    let found = vec![stub.clone(), kernel.clone(), initrd.clone(), "/boot/EFI/nixos/other.efi".to_string()];
    assert_eq!(installer.garbage(&found, &vec![]), found);
    assert_eq!(installer.register_installed(stub.clone(), kernel.clone(), initrd.clone(), true, false), Ok(()));
    assert_eq!(installer.garbage(&found, &vec![]), vec!["/boot/EFI/nixos/other.efi"]);
}
