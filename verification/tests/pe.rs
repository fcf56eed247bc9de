use lanzaboote::pe::{align_to_4k, esp_relative_uefi_path, uefi_path, xen_config, PeError, Section};

#[test]
fn convert_to_valid_uefi_path_relative_to_esp() {
    let esp = "esp";
    let path = "esp/lanzaboote/is/great.txt";
    let converted_path = esp_relative_uefi_path(esp, path).unwrap();
    let expected_path = String::from("\\lanzaboote\\is\\great.txt");
    assert_eq!(converted_path, expected_path);
}

#[test]
fn convert_to_valid_uefi_path() {
    let path = "lanzaboote/is/great.txt";
    let converted_path = uefi_path(path);
    let expected_path = String::from("lanzaboote\\is\\great.txt");
    assert_eq!(converted_path, expected_path);
}

#[test]
fn path_outside_esp_is_refused() {
    assert_eq!(esp_relative_uefi_path("esp", "boot/kernel.efi"), Err(PeError::NotUnderEsp));
}

#[test]
fn sections_align_to_4k() {
    assert_eq!(align_to_4k(0), 0);
    assert_eq!(align_to_4k(1), 0x1000);
    assert_eq!(align_to_4k(0x1000), 0x1000);
    assert_eq!(align_to_4k(0x1001), 0x2000);
}

#[test]
fn objcopy_arguments_of_a_section() {
    let mut s = Section::new(".osrel", "/tmp/osrel");
    assert!(!s.resolved_offset());
    s.offset = 0x14000;
    assert!(s.resolved_offset());
    assert_eq!(
        s.to_objcopy(),
        vec!["--add-section", ".osrel=/tmp/osrel", "--change-section-vma", ".osrel=0x14000"]
    );
}

#[test]
fn xen_configuration_text() {
    let config = xen_config(&["console=com1".to_string()], &["init=/init".to_string(), "quiet".to_string()]);
    assert_eq!(
        config,
        "[global]\ndefault=xen\n\n[xen]\nkernel=nope_this_is_uxi init=/init quiet\nramdisk=nope_this_is_uxi\noptions=console=com1\n"
    );
}

#[test]
fn esp_relative_paths_compare_components() {
    assert_eq!(esp_relative_uefi_path("/boot", "/boot/EFI/nixos/k.efi").unwrap(), "\\EFI\\nixos\\k.efi");
    assert_eq!(esp_relative_uefi_path("/boot/", "/boot//EFI").unwrap(), "\\EFI");
    assert_eq!(esp_relative_uefi_path("./esp", "./esp/a").unwrap(), "\\a");
    assert!(esp_relative_uefi_path("/boot", "/bootx/k").is_err());
    assert!(esp_relative_uefi_path("boot", "/boot/k").is_err());
    assert!(esp_relative_uefi_path("esp", "./esp/a").is_err());
}
