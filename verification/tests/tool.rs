use lanzaboote::cli::{
    route, Cli, Commands, ErrorKind, InstallCommand, Route, SignerChoice, SignerError,
    DEFAULT_LOG_LEVEL,
};
use lanzaboote::esp::{generation_path, nixos_path, Architecture, EspError, EspGenerationPaths};
use lanzaboote::extlinux::ExtlinuxEntry;
use lanzaboote::generation::{
    BootSpec, BuildDate, ExtendedBootJson, Generation, LanzabooteExtension,
};
use lanzaboote::pcr_signature::{
    combine_signed_policies, measure_args, systemd_measure_path, PcrSignatureConfigEntry,
};
use lanzaboote::signature::{
    response_length, EmptyKeyPair, KeyPair, LocalKeyPair, ResponseLengthError,
    VerificationResponse,
};
use lanzaboote::systemd::SystemdEspPaths;
use lanzaboote::pe::{align_to_4k, calculate_offsets, lanzaboote_sections, layout_fits, objcopy_args};
use lanzaboote::utils::{file_hash, needs_install, tmpname, TEMPFILE_RANDOM_LENGTH};

fn bootspec(system: &str) -> BootSpec {
    BootSpec {
        label: "LanzaOS".to_string(),
        kernel: "/nix/store/kkkk-linux-6.1.1/bzImage".to_string(),
        kernel_params: vec!["quiet".to_string(), "splash".to_string()],
        init: "/nix/store/iiii-init".to_string(),
        initrd: Some("/nix/store/rrrr-initrd-linux-6.1.1/initrd".to_string()),
        initrd_secrets: None,
        system: system.to_string(),
        toplevel: "/nix/store/aaaa-nixos-system".to_string(),
    }
}

fn generation(version: u64, system: &str) -> Generation {
    Generation {
        profile: "system".to_string(),
        is_default_profile: true,
        version,
        build_time: Some(BuildDate { year: 1970, month: 1, day: 1 }),
        specialisation_name: None,
        spec: ExtendedBootJson {
            bootspec: bootspec(system),
            lanzaboote_extension: LanzabooteExtension::default(),
        },
    }
}

fn install_command(public: Option<&str>, private: Option<&str>, url: Option<&str>) -> InstallCommand {
    InstallCommand {
        systemd: "/nix/store/dddd-systemd".to_string(),
        systemd_boot_loader_config: "/loader.conf".to_string(),
        public_key: public.map(String::from),
        private_key: private.map(String::from),
        remote_signing_server_url: url.map(String::from),
        configuration_limit: 1,
        esp: "/boot".to_string(),
        generations: vec![],
    }
}

#[test]
fn signer_is_chosen_from_the_keys_given() {
    assert_eq!(
        install_command(Some("db.pem"), Some("db.key"), Some("http://x")).signer(),
        Ok(SignerChoice::Local { public_key: "db.pem".to_string(), private_key: "db.key".to_string() })
    );
    assert_eq!(install_command(Some("db.pem"), None, None).signer(), Err(SignerError::MissingPrivateKey));
    assert_eq!(install_command(None, Some("db.key"), None).signer(), Err(SignerError::MissingPublicKey));
    assert_eq!(
        install_command(None, None, Some("http://signer")).signer(),
        Ok(SignerChoice::Remote { url: "http://signer".to_string() })
    );
    assert_eq!(install_command(None, None, None).signer(), Err(SignerError::NoSignatureMechanism));
}

#[test]
fn verbosity_counts_from_info() {
    let cli = Cli { quiet: false, verbose: 2, commands: Commands::Install(install_command(None, None, None)) };
    assert_eq!(cli.verbosity(), DEFAULT_LOG_LEVEL + 2);
    assert_eq!(DEFAULT_LOG_LEVEL, 2);
}

#[test]
fn signing_server_routes() {
    assert_eq!(route(true, "/sign-stub"), Route::SignStub);
    assert_eq!(route(true, "/sign-store-path"), Route::SignStorePath);
    assert_eq!(route(true, "/verify"), Route::Verify);
    assert_eq!(route(false, "/verify"), Route::Index);
    assert_eq!(route(true, "/"), Route::Index);
    assert_eq!(ErrorKind::BodyAlreadyOpened.message(), "body was already opened in request");
}

#[test]
fn response_lengths() {
    assert_eq!(response_length(Some("chunked"), None), Ok(None));
    assert_eq!(response_length(None, Some("42")), Ok(Some(42)));
    assert_eq!(response_length(Some("gzip"), Some("7")), Ok(Some(7)));
    assert_eq!(response_length(None, None), Err(ResponseLengthError::MissingContentLength));
    assert_eq!(response_length(None, Some("4x")), Err(ResponseLengthError::MalformedContentLength));
    assert_eq!(response_length(None, Some("")), Err(ResponseLengthError::MalformedContentLength));
}

#[test]
fn key_pairs_give_tool_arguments() {
    let kp = KeyPair::new("db.pem", "db.key");
    assert_eq!(
        kp.sign_args("in.efi", "out.efi"),
        vec!["--key", "db.key", "--cert", "db.pem", "in.efi", "--output", "out.efi"]
    );
    assert_eq!(kp.verify_args("out.efi"), vec!["--cert", "db.pem", "out.efi"]);
    let local = LocalKeyPair::new("p.pem", "p.key");
    assert_eq!(local.verify_args("a"), vec!["--cert", "p.pem", "a"]);
    assert_eq!(EmptyKeyPair.get_public_key(), b"unsigned".to_vec());
    assert!(EmptyKeyPair.verify(b"anything"));
    let r = VerificationResponse::from_verdict(false);
    assert!(!r.signed && !r.valid_according_secureboot_policy);
}

#[test]
fn temporary_names_are_alphanumeric() {
    let a = tmpname();
    assert_eq!(a.len(), TEMPFILE_RANDOM_LENGTH);
    assert!(a.chars().all(|c| c.is_ascii_alphanumeric()));
    assert!(needs_install(b"new", None));
    assert!(!needs_install(b"same", Some(b"same")));
    assert!(needs_install(b"new", Some(b"old")));
}

#[test]
fn architectures_and_their_files() {
    assert_eq!(Architecture::from_nixos_system("x86_64-linux"), Ok(Architecture::X86));
    assert_eq!(Architecture::from_nixos_system("aarch64-linux"), Ok(Architecture::AArch64));
    assert_eq!(Architecture::from_nixos_system("riscv64-linux"), Err(EspError::UnsupportedSystem));
    assert_eq!(Architecture::X86.systemd_filename(), "systemd-bootx64.efi");
    assert_eq!(Architecture::AArch64.efi_fallback_filename(), "BOOTAA64.EFI");
    assert_eq!(Architecture::AArch64.efi_representation(), "aa64");
}

#[test]
fn generation_paths_on_the_esp() {
    let esp = SystemdEspPaths::new("/boot", "/boot", Architecture::X86);
    let g = generation(3, "x86_64-linux");
    let paths = EspGenerationPaths::new(
        &esp,
        &g,
        Architecture::X86,
        "/nix/store/kkkk-linux-6.1.1/bzImage",
        Some("/nix/store/rrrr-initrd-linux-6.1.1/initrd"),
    )
    .unwrap();
    assert_eq!(paths.kernel, "/boot/EFI/nixos/kkkk-linux-6.1.1-bzImage.efi");
    assert_eq!(paths.initrd, "/boot/EFI/nixos/rrrr-initrd-linux-6.1.1-initrd.efi");
    assert_eq!(paths.lanzaboote_image, "/boot/EFI/Linux/nixos-generation-3.efi");
    assert!(matches!(
        EspGenerationPaths::new(&esp, &g, Architecture::X86, "/nix/store/k/bzImage", None),
        Err(EspError::MissingInitrd)
    ));
    let arm = generation(3, "mips-linux");
    assert!(matches!(
        EspGenerationPaths::new(&esp, &arm, Architecture::X86, "/nix/store/k/bzImage", Some("/i/initrd")),
        Err(EspError::UnsupportedSystem)
    ));
    assert_eq!(nixos_path("bzImage", "bzImage"), Err(EspError::MissingParentComponent));
    assert_eq!(generation_path(&g), "nixos-generation-3.efi");
}

#[test]
fn extlinux_entry_of_a_generation() {
    let entry = ExtlinuxEntry::from_generation(generation(4, "x86_64-linux"));
    assert_eq!(entry.label, "nixos-4");
    assert_eq!(entry.menu_label, "NixOS Generation 4, 1970-01-01");
    assert_eq!(entry.extra_kernel_params.as_deref(), Some("quiet splash"));
    assert_eq!(
        entry.to_string(),
        "LABEL nixos-4MENU LABEL NixOS Generation 4, 1970-01-01LINUX /nix/store/kkkk-linux-6.1.1/bzImageINITRD /nix/store/rrrr-initrd-linux-6.1.1/initrdAPPEND quiet splash"
    );
}

#[test]
fn systemd_measure_is_invoked_per_entry() {
    let entry = PcrSignatureConfigEntry {
        private_key: "pcr.key".to_string(),
        phases: vec!["enter-initrd".to_string()],
        banks: vec!["sha256".to_string(), "sha1".to_string()],
    };
    assert_eq!(
        measure_args(&entry, "c", "k", "i", "o"),
        vec![
            "sign", "--json=short", "--cmdline", "c", "--linux", "k", "--initrd", "i", "--osrel", "o",
            "--private-key", "pcr.key", "--phase", "enter-initrd", "--bank", "sha256", "--bank", "sha1"
        ]
    );
    assert_eq!(systemd_measure_path("/nix/store/s"), "/nix/store/s/lib/systemd/systemd-measure");
    assert!(combine_signed_policies(vec![]).is_none());
}

#[test]
fn file_hashes_are_sha256() {
    assert_eq!(
        file_hash(b"abc"),
        vec![
            0xba, 0x78, 0x16, 0xbf, 0x8f, 0x01, 0xcf, 0xea, 0x41, 0x41, 0x40, 0xde, 0x5d, 0xae, 0x22, 0x23,
            0xb0, 0x03, 0x61, 0xa3, 0x96, 0x17, 0x7a, 0x9c, 0xb4, 0x10, 0xff, 0x61, 0xf2, 0x00, 0x15, 0xad
        ]
    );
}

#[test]
fn section_layout_is_four_kib_aligned() {
    let mut sections = lanzaboote_sections("o", "c", "ip", "kp", "ih", "kh");
    let sizes = vec![10, 4096, 1, 0, 32, 32];
    assert!(layout_fits(0x1_4000_1234, &sizes));
    calculate_offsets(0x1_4000_1234, &mut sections, &sizes);
    let offsets: Vec<u64> = sections.iter().map(|s| s.offset).collect();
    assert_eq!(offsets, vec![0x1_4000_2000, 0x1_4000_3000, 0x1_4000_4000, 0x1_4000_5000, 0x1_4000_5000, 0x1_4000_6000]);
    assert_eq!(
        sections[0].to_objcopy(),
        vec!["--add-section", ".osrel=o", "--change-section-vma", ".osrel=0x140002000"]
    );
    let mut first = sections;
    first.truncate(1);
    let args = objcopy_args(&first, "stub.efi", "out.efi");
    assert_eq!(args, vec!["--add-section", ".osrel=o", "--change-section-vma", ".osrel=0x140002000", "stub.efi", "out.efi"]);
    assert!(!layout_fits(u64::MAX - 10, &vec![1]));
    assert!(layout_fits(u64::MAX, &vec![]));
    assert_eq!(align_to_4k(0), 0);
    assert_eq!(align_to_4k(1), 4096);
    assert_eq!(align_to_4k(4096), 4096);
}
