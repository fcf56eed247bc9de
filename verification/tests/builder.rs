use lanzaboote::builder::{BuildError, Builder, FileSource, GenerationArtifacts};
use lanzaboote::esp::{Architecture, EspGenerationPaths};
use lanzaboote::generation::{
    BootSpec, BuildDate, ExtendedBootJson, Generation, LanzabooteExtension,
};
use lanzaboote::os_release::OsRelease;
use lanzaboote::pe::{xen_config, xen_sections, PeError, StubParameters};
use lanzaboote::refind::RefindEspPaths;
use lanzaboote::systemd::{PcrlockPaths, SystemdEspPaths};

fn generation(version: u64, specialisation: Option<&str>) -> Generation {
    Generation {
        profile: "system".to_string(),
        is_default_profile: true,
        version,
        build_time: Some(BuildDate { year: 2024, month: 2, day: 29 }),
        specialisation_name: specialisation.map(String::from),
        spec: ExtendedBootJson {
            bootspec: BootSpec {
                label: "LanzaOS".to_string(),
                kernel: "/nix/store/kkkk-linux-6.1.1/bzImage".to_string(),
                kernel_params: vec!["quiet".to_string()],
                init: "/nix/store/iiii-init".to_string(),
                initrd: Some("/nix/store/rrrr-initrd/initrd".to_string()),
                initrd_secrets: None,
                system: "x86_64-linux".to_string(),
                toplevel: "/nix/store/aaaa-nixos-system".to_string(),
            },
            lanzaboote_extension: LanzabooteExtension::default(),
        },
    }
}

#[test]
fn artifacts_are_keyed_by_target() {
    let mut artifacts = GenerationArtifacts::new();
    artifacts.add_unsigned("/a", "/esp/x");
    artifacts.add_signed("/b", "/esp/x");
    artifacts.add_unsigned("/c", "/esp/y");
    assert_eq!(artifacts.source("/esp/x").unwrap().path(), "/b");
    assert!(matches!(artifacts.source("/esp/x"), Some(FileSource::SignedFile(_))));
    assert!(matches!(artifacts.source("/esp/y"), Some(FileSource::UnsignedFile(_))));
    assert!(artifacts.source("/esp/z").is_none());
}

#[test]
fn builder_records_the_files_of_a_generation() {
    let esp = SystemdEspPaths::new("/boot", "/boot", Architecture::X86);
    let g = generation(2, None);
    let builder = Builder::from_existing_artifacts(
        "/stub.efi".to_string(),
        g,
        "/boot".to_string(),
        &esp,
        Architecture::X86,
        "/nix/store/kkkk-linux-6.1.1/bzImage",
        Some("/nix/store/rrrr-initrd/initrd"),
    )
    .unwrap();
    let mut artifacts = GenerationArtifacts::new();
    assert!(matches!(builder.build_signed(&artifacts), Err(BuildError::MissingKernel)));
    builder.build_unsigned(&mut artifacts, "/tmp/initrd-with-secrets");
    assert_eq!(
        artifacts.source("/boot/EFI/nixos/kkkk-linux-6.1.1-bzImage.efi").unwrap().path(),
        "/nix/store/kkkk-linux-6.1.1/bzImage"
    );
    let inputs = builder.build_signed(&artifacts).unwrap();
    assert_eq!(inputs.kernel, "/nix/store/kkkk-linux-6.1.1/bzImage");
    assert_eq!(inputs.initrd, "/tmp/initrd-with-secrets");
    assert_eq!(inputs.kernel_cmdline, vec!["init=/nix/store/iiii-init", "quiet"]);
    assert_eq!(
        inputs.os_release,
        "ID=lanzaboote\nPRETTY_NAME=LanzaOS (Generation 2, 2024-02-29)\nVERSION_ID=Generation 2, 2024-02-29\n"
    );
    builder.add_stub(&mut artifacts, "/tmp/stub.efi");
    assert!(matches!(
        artifacts.source("/boot/EFI/Linux/nixos-generation-2.efi"),
        Some(FileSource::SignedFile(p)) if p == "/tmp/stub.efi"
    ));
}

#[test]
fn generation_descriptions() {
    let g = generation(9, Some("gaming"));
    assert_eq!(g.version_tag(), "9-gaming");
    assert_eq!(g.describe(), "Generation 9-gaming, 2024-02-29");
    assert_eq!(g.describe_profile(), "");
    let mut bad_date = generation(1, None);
    bad_date.build_time = Some(BuildDate { year: 2023, month: 2, day: 29 });
    assert_eq!(bad_date.describe(), "Generation 1, Unknown");
    let os = OsRelease::from_generation(&g).unwrap();
    assert_eq!(os.get("VERSION_ID").unwrap(), "Generation 9-gaming, 2024-02-29");
}

#[test]
fn generation_paths_list_their_files() {
    let esp = SystemdEspPaths::new("/boot", "/boot", Architecture::X86);
    let paths = EspGenerationPaths::new(
        &esp,
        &generation(1, Some("s")),
        Architecture::X86,
        "/nix/store/kkkk-linux-6.1.1/bzImage",
        Some("/nix/store/rrrr-initrd/initrd"),
    )
    .unwrap();
    assert_eq!(
        paths.to_iter(),
        vec![
            "/boot/EFI/nixos/kkkk-linux-6.1.1-bzImage.efi",
            "/boot/EFI/nixos/rrrr-initrd-initrd.efi",
            "/boot/EFI/Linux/nixos-generation-1-specialisation-s.efi"
        ]
    );
}

#[test]
fn stub_parameters_use_paths_relative_to_the_esp() {
    let p = StubParameters::new(
        "/stub.efi",
        "/nix/store/k/bzImage",
        "/tmp/initrd",
        "/boot/EFI/nixos/kernel.efi",
        "/boot/EFI/nixos/initrd.efi",
        "/boot",
    )
    .unwrap()
    .with_cmdline(&["init=/init".to_string()])
    .with_os_release_contents(b"ID=lanza\n");
    assert_eq!(p.kernel_path_at_esp, "\\EFI\\nixos\\kernel.efi");
    assert_eq!(p.initrd_path_at_esp, "\\EFI\\nixos\\initrd.efi");
    assert_eq!(p.kernel_cmdline, vec!["init=/init"]);
    assert_eq!(p.os_release_contents, b"ID=lanza\n");
    assert!(matches!(
        StubParameters::new("/s", "/k", "/i", "/elsewhere/kernel.efi", "/boot/i.efi", "/boot"),
        Err(PeError::NotUnderEsp)
    ));
}

#[test]
fn xen_stub_configuration() {
    let config = xen_config(&["dom0_mem=1G".to_string()], &["init=/init".to_string(), "quiet".to_string()]);
    assert_eq!(
        config,
        "[global]\ndefault=xen\n\n[xen]\nkernel=nope_this_is_uxi init=/init quiet\nramdisk=nope_this_is_uxi\noptions=dom0_mem=1G\n"
    );
    let sections = xen_sections("/tmp/cfg", "/nix/store/k/bzImage", "/nix/store/i/initrd").unwrap();
    let names: Vec<&str> = sections.iter().map(|s| s.name.as_str()).collect();
    assert_eq!(names, vec![".config", ".kernel", ".ramdisk"]);
    assert!(matches!(xen_sections("/tmp/cfg", "/nix/store/k/Image", "/i"), Err(PeError::NotBzImage)));
}

#[test]
fn other_esp_layouts() {
    let pcrlock = PcrlockPaths::new("/var/lib/pcrlock.d");
    assert_eq!(pcrlock.lanzaboote(), "/var/lib/pcrlock.d/635-lanzaboote.pcrlock.d");
    assert_eq!(
        pcrlock.bootloader_measurement("systemd-boot"),
        "/var/lib/pcrlock.d/630-bootloader.pcrlock.d/systemd-boot.pcrlock"
    );
    assert_eq!(
        pcrlock.lanzaboote_measurement("stub"),
        "/var/lib/pcrlock.d/635-lanzaboote.pcrlock.d/stub.pcrlock"
    );
    assert_eq!(pcrlock.iter(), vec!["/var/lib/pcrlock.d", "/var/lib/pcrlock.d/635-lanzaboote.pcrlock.d"]);
    let refind = RefindEspPaths::new("/efi", Architecture::AArch64);
    assert_eq!(refind.refind_config, "/efi/EFI/refind/refind.conf");
    assert_eq!(refind.efi_fallback, "/efi/EFI/BOOT/BOOTAA64.EFI");
}
