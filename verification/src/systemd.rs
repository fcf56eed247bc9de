//! Files of the systemd-boot installation: architecture-specific names, the ESP layout and
//! the systemd-pcrlock directories.
use vstd::prelude::*;

use crate::esp::{Architecture, EspPaths};
use crate::paths::{join, spec_join};
use crate::text::{chars_to_string, push_str};

verus! {

/// Architecture-specific file names of systemd-boot.
pub trait SystemdArchitectureExt {
    /// The file name of the systemd stub.
    spec fn stub_file_name(&self) -> Seq<char>;

    /// The file name of the systemd-boot binary.
    spec fn boot_file_name(&self) -> Seq<char>;

    fn systemd_stub_filename(&self) -> (r: String)
        ensures
            r@ == self.stub_file_name(),
    ;

    fn systemd_filename(&self) -> (r: String)
        ensures
            r@ == self.boot_file_name(),
    ;
}

impl SystemdArchitectureExt for Architecture {
    open spec fn stub_file_name(&self) -> Seq<char> {
        "linux"@ + self.spec_efi_representation() + ".efi.stub"@
    }

    open spec fn boot_file_name(&self) -> Seq<char> {
        "systemd-boot"@ + self.spec_efi_representation() + ".efi"@
    }

    /// `linux{arch}.efi.stub`.
    fn systemd_stub_filename(&self) -> (r: String) {
        let mut v: Vec<char> = Vec::new();
        push_str(&mut v, "linux");
        push_str(&mut v, self.efi_representation().as_str());
        push_str(&mut v, ".efi.stub");
        chars_to_string(&v)
    }

    /// `systemd-boot{arch}.efi`.
    fn systemd_filename(&self) -> (r: String) {
        let mut v: Vec<char> = Vec::new();
        push_str(&mut v, "systemd-boot");
        push_str(&mut v, self.efi_representation().as_str());
        push_str(&mut v, ".efi");
        chars_to_string(&v)
    }
}

/// The paths of the boot files that are not specific to a generation, for systemd-boot.
pub struct SystemdEspPaths {
    pub esp: String,
    pub efi: String,
    pub nixos: String,
    pub linux: String,
    pub efi_fallback_dir: String,
    pub efi_fallback: String,
    pub systemd: String,
    pub systemd_boot: String,
    pub loader: String,
    pub systemd_boot_loader_config: String,
}

impl SystemdEspPaths {
    /// The layout for an ESP mounted at `esp` and an XBOOTLDR (or the ESP again) at `boot`: the
    /// NixOS and Linux directories under `boot`, systemd-boot, the fallback loader and the
    /// loader configuration under `esp`.
    pub fn new(esp: &str, boot: &str, architecture: Architecture) -> (r: Self)
        ensures
            r.esp@ == esp@,
            r.efi@ == spec_join(esp@, "EFI"@),
            r.nixos@ == spec_join(spec_join(boot@, "EFI"@), "nixos"@),
            r.linux@ == spec_join(spec_join(boot@, "EFI"@), "Linux"@),
            r.efi_fallback_dir@ == spec_join(spec_join(esp@, "EFI"@), "BOOT"@),
            r.efi_fallback@ == spec_join(
                spec_join(spec_join(esp@, "EFI"@), "BOOT"@),
                architecture.spec_efi_fallback_filename(),
            ),
            r.systemd@ == spec_join(spec_join(esp@, "EFI"@), "systemd"@),
            r.systemd_boot@ == spec_join(
                spec_join(spec_join(esp@, "EFI"@), "systemd"@),
                architecture.spec_systemd_filename(),
            ),
            r.loader@ == spec_join(esp@, "loader"@),
            r.systemd_boot_loader_config@ == spec_join(spec_join(esp@, "loader"@), "loader.conf"@),
    {
        let esp_efi = join(esp, "EFI");
        let boot_efi = join(boot, "EFI");
        let boot_efi_nixos = join(boot_efi.as_str(), "nixos");
        let boot_efi_linux = join(boot_efi.as_str(), "Linux");
        let esp_efi_systemd = join(esp_efi.as_str(), "systemd");
        let esp_efi_efi_fallback_dir = join(esp_efi.as_str(), "BOOT");
        let loader = join(esp, "loader");
        let systemd_boot_loader_config = join(loader.as_str(), "loader.conf");
        let efi_fallback = join(
            esp_efi_efi_fallback_dir.as_str(),
            architecture.efi_fallback_filename().as_str(),
        );
        let systemd_boot = join(esp_efi_systemd.as_str(), architecture.systemd_filename().as_str());
        SystemdEspPaths {
            esp: esp.to_owned(),
            efi: esp_efi,
            nixos: boot_efi_nixos,
            linux: boot_efi_linux,
            efi_fallback_dir: esp_efi_efi_fallback_dir,
            efi_fallback,
            systemd: esp_efi_systemd,
            systemd_boot,
            loader,
            systemd_boot_loader_config,
        }
    }
}

impl EspPaths for SystemdEspPaths {
    open spec fn nixos_dir(&self) -> Seq<char> {
        self.nixos@
    }

    open spec fn linux_dir(&self) -> Seq<char> {
        self.linux@
    }

    open spec fn roots(&self) -> Seq<Seq<char>> {
        seq![
            self.esp@,
            self.efi@,
            self.nixos@,
            self.linux@,
            self.efi_fallback_dir@,
            self.efi_fallback@,
            self.systemd@,
            self.systemd_boot@,
            self.loader@,
            self.systemd_boot_loader_config@,
        ]
    }

    fn nixos_path(&self) -> (r: &String) {
        &self.nixos
    }

    fn linux_path(&self) -> (r: &String) {
        &self.linux
    }

    fn iter(&self) -> (r: Vec<String>) {
        let r = vec![
            self.esp.clone(),
            self.efi.clone(),
            self.nixos.clone(),
            self.linux.clone(),
            self.efi_fallback_dir.clone(),
            self.efi_fallback.clone(),
            self.systemd.clone(),
            self.systemd_boot.clone(),
            self.loader.clone(),
            self.systemd_boot_loader_config.clone(),
        ];
        assert(r@.map_values(|s: String| s@) =~= self.roots());
        r
    }
}

/// The directories of the systemd-pcrlock configuration that lanzaboote writes.
pub struct PcrlockPaths {
    /// The directory holding the `.pcrlock` configuration.
    pcrlock: String,
    lanzaboote: String,
    bootloader: String,
}

impl PcrlockPaths {
    /// The pcrlock directory.
    pub closed spec fn pcrlock_dir(&self) -> Seq<char> {
        self.pcrlock@
    }

    /// The directory of lanzaboote's measurements.
    pub closed spec fn lanzaboote_dir(&self) -> Seq<char> {
        self.lanzaboote@
    }

    /// The directory of the boot loader's measurements.
    pub closed spec fn bootloader_dir(&self) -> Seq<char> {
        self.bootloader@
    }

    /// The layout under the pcrlock directory `pcrlock`.
    pub fn new(pcrlock: &str) -> (r: Self)
        ensures
            r.pcrlock_dir() == pcrlock@,
            r.lanzaboote_dir() == spec_join(pcrlock@, "635-lanzaboote.pcrlock.d"@),
            r.bootloader_dir() == spec_join(pcrlock@, "630-bootloader.pcrlock.d"@),
    {
        PcrlockPaths {
            pcrlock: pcrlock.to_owned(),
            lanzaboote: join(pcrlock, "635-lanzaboote.pcrlock.d"),
            bootloader: join(pcrlock, "630-bootloader.pcrlock.d"),
        }
    }

    /// The directory of lanzaboote's measurements.
    pub fn lanzaboote(&self) -> (r: &String)
        ensures
            r@ == self.lanzaboote_dir(),
    {
        &self.lanzaboote
    }

    /// The path of the measurement file `{name}.pcrlock` of the boot loader.
    pub fn bootloader_measurement(&self, name: &str) -> (r: String)
        ensures
            r@ == spec_join(self.bootloader_dir(), name@ + ".pcrlock"@),
    {
        let mut v: Vec<char> = Vec::new();
        push_str(&mut v, name);
        push_str(&mut v, ".pcrlock");
        join(self.bootloader.as_str(), chars_to_string(&v).as_str())
    }

    /// The path of the measurement file `{name}.pcrlock` of lanzaboote.
    pub fn lanzaboote_measurement(&self, name: &str) -> (r: String)
        ensures
            r@ == spec_join(self.lanzaboote_dir(), name@ + ".pcrlock"@),
    {
        let mut v: Vec<char> = Vec::new();
        push_str(&mut v, name);
        push_str(&mut v, ".pcrlock");
        join(self.lanzaboote.as_str(), chars_to_string(&v).as_str())
    }

    /// The pcrlock paths, to keep their leading directories as garbage collection roots.
    pub fn iter(&self) -> (r: Vec<String>)
        ensures
            r@.map_values(|s: String| s@) == seq![self.pcrlock_dir(), self.lanzaboote_dir()],
    {
        let r = vec![self.pcrlock.clone(), self.lanzaboote.clone()];
        assert(r@.map_values(|s: String| s@) =~= seq![self.pcrlock_dir(), self.lanzaboote_dir()]);
        r
    }
}

} // verus!
