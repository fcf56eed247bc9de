//! Files of the rEFInd installation: the architecture-specific binary name and the ESP layout.
use vstd::prelude::*;

use crate::esp::{Architecture, EspPaths};
use crate::paths::{join, spec_join};
use crate::text::{chars_to_string, push_str};

verus! {

/// Architecture-specific file names of rEFInd.
pub trait RefindArchitectureExt {
    /// The file name of the rEFInd binary.
    spec fn refind_file_name(&self) -> Seq<char>;

    fn refind_filename(&self) -> (r: String)
        ensures
            r@ == self.refind_file_name(),
    ;
}

impl RefindArchitectureExt for Architecture {
    open spec fn refind_file_name(&self) -> Seq<char> {
        "refind_"@ + self.spec_efi_representation() + ".efi"@
    }

    /// `refind_{arch}.efi`.
    fn refind_filename(&self) -> (r: String) {
        let mut v: Vec<char> = Vec::new();
        push_str(&mut v, "refind_");
        push_str(&mut v, self.efi_representation().as_str());
        push_str(&mut v, ".efi");
        chars_to_string(&v)
    }
}

/// The paths of the boot files that are not specific to a generation, for rEFInd.
pub struct RefindEspPaths {
    pub esp: String,
    pub efi: String,
    pub nixos: String,
    pub linux: String,
    pub efi_fallback_dir: String,
    pub efi_fallback: String,
    pub refind: String,
    pub refind_binary: String,
    pub refind_config: String,
}

impl RefindEspPaths {
    /// The layout for an ESP mounted at `esp`.
    pub fn new(esp: &str, architecture: Architecture) -> (r: Self)
        ensures
            r.esp@ == esp@,
            r.efi@ == spec_join(esp@, "EFI"@),
            r.nixos@ == spec_join(spec_join(esp@, "EFI"@), "nixos"@),
            r.linux@ == spec_join(spec_join(esp@, "EFI"@), "Linux"@),
            r.efi_fallback_dir@ == spec_join(spec_join(esp@, "EFI"@), "BOOT"@),
            r.efi_fallback@ == spec_join(
                spec_join(spec_join(esp@, "EFI"@), "BOOT"@),
                architecture.spec_efi_fallback_filename(),
            ),
            r.refind@ == spec_join(spec_join(esp@, "EFI"@), "refind"@),
            r.refind_binary@ == spec_join(
                spec_join(spec_join(esp@, "EFI"@), "refind"@),
                architecture.refind_file_name(),
            ),
            r.refind_config@ == spec_join(spec_join(spec_join(esp@, "EFI"@), "refind"@), "refind.conf"@),
    {
        let efi = join(esp, "EFI");
        let efi_nixos = join(efi.as_str(), "nixos");
        let efi_linux = join(efi.as_str(), "Linux");
        let efi_refind = join(efi.as_str(), "refind");
        let efi_efi_fallback_dir = join(efi.as_str(), "BOOT");
        let efi_fallback = join(
            efi_efi_fallback_dir.as_str(),
            architecture.efi_fallback_filename().as_str(),
        );
        let refind_binary = join(efi_refind.as_str(), architecture.refind_filename().as_str());
        let refind_config = join(efi_refind.as_str(), "refind.conf");
        RefindEspPaths {
            esp: esp.to_owned(),
            efi,
            nixos: efi_nixos,
            linux: efi_linux,
            efi_fallback_dir: efi_efi_fallback_dir,
            efi_fallback,
            refind: efi_refind,
            refind_binary,
            refind_config,
        }
    }
}

impl EspPaths for RefindEspPaths {
    open spec fn nixos_dir(&self) -> Seq<char> {
        self.nixos@
    }

    open spec fn linux_dir(&self) -> Seq<char> {
        self.linux@
    }

    open spec fn roots(&self) -> Seq<Seq<char>> {
        seq![
            self.esp@,
            self.efi@,
            self.nixos@,
            self.linux@,
            self.efi_fallback_dir@,
            self.efi_fallback@,
            self.refind@,
            self.refind_binary@,
            self.refind_config@,
        ]
    }

    fn nixos_path(&self) -> (r: &String) {
        &self.nixos
    }

    fn linux_path(&self) -> (r: &String) {
        &self.linux
    }

    fn iter(&self) -> (r: Vec<String>) {
        let r = vec![
            self.esp.clone(),
            self.efi.clone(),
            self.nixos.clone(),
            self.linux.clone(),
            self.efi_fallback_dir.clone(),
            self.efi_fallback.clone(),
            self.refind.clone(),
            self.refind_binary.clone(),
            self.refind_config.clone(),
        ];
        assert(r@.map_values(|s: String| s@) =~= self.roots());
        r
    }
}

} // verus!
