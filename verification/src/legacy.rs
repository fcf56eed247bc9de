//! The earlier installer for systemd-boot on x86-64 only: its generations, their
//! os-release, the fixed ESP layout, and its reading of generation link names.
use vstd::prelude::*;

use crate::boot_json::{lists_specialisations, parse_boot_json, parsed_boot_json};
use crate::builder::GenerationArtifacts;
use crate::gc::Roots;
use crate::generation::{
    build_date_text, date_or_unknown, day_of_unix_nanos, is_date_of_unix_nanos, link_date,
    representable_day, same_bootspec, BootSpec, BuildDate,
};
use crate::os_release::OsRelease as OsReleaseMap;
use crate::paths::{file_name, join, spec_file_name, spec_join, split_chars, split_on};
use crate::text::{chars_to_string, decimal, decimal_chars, parse_u64, push_chars, push_str, spec_parse_unsigned, str_chars};

verus! {

/// The boot specification of a generation.
#[derive(Debug, Clone)]
pub struct ExtendedBootJson {
    pub bootspec: BootSpec,
}

/// A system configuration, built from a generation link.
#[derive(Debug)]
pub struct Generation {
    /// Profile symlink index.
    pub version: u64,
    /// Build date.
    pub build_time: Option<BuildDate>,
    /// Top-level specialisation name.
    pub specialisation_name: Option<String>,
    /// Top-level boot specification.
    pub spec: ExtendedBootJson,
}

/// Why a link's version could not be read.
#[derive(Debug, Clone, Copy, PartialEq, Eq, Structural)]
pub enum LinkError {
    /// The second `-`-separated piece of the link's name is not a version.
    MalformedVersion,
}

/// The version of a link named `system-{version}-link`: the second `-`-separated piece of its
/// file name.
pub open spec fn spec_parse_version(path: Seq<char>) -> Option<u64> {
    match spec_file_name(path) {
        None => None,
        Some(name) => {
            let pieces = split_on(name, '-');
            if pieces.len() < 2 {
                None
            } else {
                match spec_parse_unsigned(pieces[1], u64::MAX as int) {
                    Some(n) => Some(n as u64),
                    None => None,
                }
            }
        },
    }
}

/// Parses the version number from a path of the form `system-{version}-link`.
pub fn parse_version(path: &str) -> (r: Result<u64, LinkError>)
    ensures
        match spec_parse_version(path@) {
            Some(v) => r == Ok::<u64, LinkError>(v),
            None => r == Err::<u64, LinkError>(LinkError::MalformedVersion),
        },
{
    let name = match file_name(path) {
        Some(n) => n,
        None => return Err(LinkError::MalformedVersion),
    };
    let pieces = split_chars(&str_chars(name.as_str()), '-');
    if pieces.len() < 2 {
        return Err(LinkError::MalformedVersion);
    }
    assert(pieces@.map_values(|v: Vec<char>| v@)[1] == pieces@[1]@);
    match parse_u64(pieces[1].as_slice()) {
        Some(v) => Ok(v),
        None => Err(LinkError::MalformedVersion),
    }
}

/// A link pointing to a generation; its name encodes the version.
#[derive(Debug)]
pub struct GenerationLink {
    pub version: u64,
    pub path: String,
    pub build_time: Option<BuildDate>,
}

impl GenerationLink {
    /// Reads the version from the link's path; `modified_secs` is the link's modification time
    /// in seconds since the Unix epoch, where it could be read, and gives its build date.
    pub fn from_path(path: &str, modified_secs: Option<i64>) -> (r: Result<Self, LinkError>)
        ensures
            match spec_parse_version(path@) {
                Some(v) => r matches Ok(l) && l.version == v && l.path@ == path@,
                None => r is Err,
            },
            r matches Ok(l) ==> (l.build_time is Some <==> (modified_secs matches Some(s)
                && representable_day(day_of_unix_nanos(s * 1_000_000_000)))),
            r matches Ok(l) ==> (l.build_time matches Some(b) ==> (modified_secs matches Some(s)
                && is_date_of_unix_nanos(b, s * 1_000_000_000))),
    {
        let version = parse_version(path)?;
        let nanos: Option<i128> = match modified_secs {
            Some(s) => Some(s as i128 * 1_000_000_000),
            None => None,
        };
        Ok(GenerationLink { version, path: path.to_owned(), build_time: link_date(nanos) })
    }
}

impl Generation {
    /// The generation a link points to, with the boot specification found there.
    pub fn from_link(link: &GenerationLink, bootspec: BootSpec) -> (r: Self)
        ensures
            r.version == link.version,
            r.build_time == link.build_time,
            r.specialisation_name is None,
            r.spec.bootspec == bootspec,
    {
        Generation {
            version: link.version,
            build_time: link.build_time,
            specialisation_name: None,
            spec: ExtendedBootJson { bootspec },
        }
    }

    /// The generation a link points to, read from the `boot.json` document `raw` found
    /// there, with the boot specifications of the specialisations that the document lists, by
    /// name; `None` where the document cannot be read as a boot specification.
    pub fn from_boot_json(link: &GenerationLink, raw: &[u8]) -> (r: Option<(Self, Vec<(String, BootSpec)>)>)
        ensures
            r is Some <==> parsed_boot_json(raw@) is Some,
            r matches Some((g, v)) ==> (parsed_boot_json(raw@) matches Some((mb, ms))
                && g.version == link.version && g.build_time == link.build_time
                && g.specialisation_name is None && g.spec.bootspec@ == mb && lists_specialisations(v@, ms)),
    {
        match parse_boot_json(raw) {
            Some((bootspec, specialisations)) => Some((Generation::from_link(link, bootspec), specialisations)),
            None => None,
        }
    }

    /// The generation of one of this generation's specialisations.
    pub fn specialise(&self, name: &String, bootspec: &BootSpec) -> (r: Result<Self, LinkError>)
        ensures
            r matches Ok(g) && g.version == self.version && g.build_time == self.build_time
                && g.specialisation_name == Some(*name) && same_bootspec(g.spec.bootspec, *bootspec),
    {
        Ok(Generation {
            version: self.version,
            build_time: self.build_time,
            specialisation_name: Some(name.clone()),
            spec: ExtendedBootJson { bootspec: bootspec.duplicate() },
        })
    }

    /// The specialisation's name, where this is one.
    pub fn is_specialised(&self) -> (r: Option<String>)
        ensures
            r == self.specialisation_name,
    {
        match &self.specialisation_name {
            Some(n) => Some(n.clone()),
            None => None,
        }
    }

    /// `Generation {version}, Built on {date}`.
    pub open spec fn spec_describe(&self) -> Seq<char> {
        "Generation "@ + decimal(self.version as nat) + ", Built on "@ + date_or_unknown(self.build_time)
    }

    /// Describes the generation in a single line, as NixOS's own systemd-boot builder does.
    pub fn describe(&self) -> (r: String)
        requires
            self.build_time matches Some(b) ==> -9999 <= b.year <= 9999,
        ensures
            r@ == self.spec_describe(),
    {
        let mut v: Vec<char> = Vec::new();
        push_str(&mut v, "Generation ");
        push_chars(&mut v, &decimal_chars(self.version));
        push_str(&mut v, ", Built on ");
        push_chars(&mut v, &build_date_text(self.build_time));
        chars_to_string(&v)
    }
}

/// An os-release file for the stub: its pairs in key order.
pub struct OsRelease(pub OsReleaseMap);

impl OsRelease {
    /// The os-release of a generation's stub: `ID` is `lanza` (systemd's `bootctl` needs an ID),
    /// `PRETTY_NAME` the label, `VERSION_ID` the description.
    pub fn from_generation(generation: &Generation) -> (r: Result<Self, ()>)
        requires
            generation.build_time matches Some(b) ==> -9999 <= b.year <= 9999,
        ensures
            r matches Ok(o) && o.0.wf() && o.0@ == map![
                "ID"@ => "lanza"@,
                "PRETTY_NAME"@ => generation.spec.bootspec.label@,
                "VERSION_ID"@ => generation.spec_describe(),
            ],
    {
        let mut map = OsReleaseMap::new();
        map.insert("ID".to_owned(), "lanza".to_owned());
        map.insert("PRETTY_NAME".to_owned(), generation.spec.bootspec.label.clone());
        map.insert("VERSION_ID".to_owned(), generation.describe());
        assert(map@ =~= map![
            "ID"@ => "lanza"@,
            "PRETTY_NAME"@ => generation.spec.bootspec.label@,
            "VERSION_ID"@ => generation.spec_describe(),
        ]);
        Ok(OsRelease(map))
    }

    /// The text of the file: one `key=value` line per key, in ascending key order.
    pub fn to_string(&self) -> (r: String)
        ensures
            r@ == crate::os_release::render(self.0.lines()),
    {
        self.0.to_string()
    }
}

/// The paths of the boot files that are not specific to a generation, on x86-64.
pub struct SystemdEspPaths {
    pub esp: String,
    pub efi: String,
    pub nixos: String,
    pub linux: String,
    pub efi_fallback_dir: String,
    pub efi_fallback: String,
    pub systemd: String,
    pub systemd_boot: String,
    pub loader: String,
    pub systemd_boot_loader_config: String,
}

impl SystemdEspPaths {
    /// The layout of the ESP mounted at `esp`.
    pub fn new(esp: &str) -> (r: Self)
        ensures
            r.esp@ == esp@,
            r.efi@ == spec_join(esp@, "EFI"@),
            r.nixos@ == spec_join(spec_join(esp@, "EFI"@), "nixos"@),
            r.linux@ == spec_join(spec_join(esp@, "EFI"@), "Linux"@),
            r.efi_fallback_dir@ == spec_join(spec_join(esp@, "EFI"@), "BOOT"@),
            r.efi_fallback@ == spec_join(spec_join(spec_join(esp@, "EFI"@), "BOOT"@), "BOOTX64.EFI"@),
            r.systemd@ == spec_join(spec_join(esp@, "EFI"@), "systemd"@),
            r.systemd_boot@ == spec_join(spec_join(spec_join(esp@, "EFI"@), "systemd"@), "systemd-bootx64.efi"@),
            r.loader@ == spec_join(esp@, "loader"@),
            r.systemd_boot_loader_config@ == spec_join(spec_join(esp@, "loader"@), "loader.conf"@),
    {
        let efi = join(esp, "EFI");
        let efi_nixos = join(efi.as_str(), "nixos");
        let efi_linux = join(efi.as_str(), "Linux");
        let efi_systemd = join(efi.as_str(), "systemd");
        let efi_efi_fallback_dir = join(efi.as_str(), "BOOT");
        let loader = join(esp, "loader");
        let systemd_boot_loader_config = join(loader.as_str(), "loader.conf");
        let efi_fallback = join(efi_efi_fallback_dir.as_str(), "BOOTX64.EFI");
        let systemd_boot = join(efi_systemd.as_str(), "systemd-bootx64.efi");
        SystemdEspPaths {
            esp: esp.to_owned(),
            efi,
            nixos: efi_nixos,
            linux: efi_linux,
            efi_fallback_dir: efi_efi_fallback_dir,
            efi_fallback,
            systemd: efi_systemd,
            systemd_boot,
            loader,
            systemd_boot_loader_config,
        }
    }

    /// The paths to keep as garbage collection roots.
    pub fn iter(&self) -> (r: Vec<String>)
        ensures
            r@.map_values(|s: String| s@) == seq![
                self.esp@,
                self.efi@,
                self.nixos@,
                self.linux@,
                self.efi_fallback_dir@,
                self.efi_fallback@,
                self.systemd@,
                self.systemd_boot@,
                self.loader@,
                self.systemd_boot_loader_config@,
            ],
    {
        let r = vec![
            self.esp.clone(),
            self.efi.clone(),
            self.nixos.clone(),
            self.linux.clone(),
            self.efi_fallback_dir.clone(),
            self.efi_fallback.clone(),
            self.systemd.clone(),
            self.systemd_boot.clone(),
            self.loader.clone(),
            self.systemd_boot_loader_config.clone(),
        ];
        assert(r@.map_values(|s: String| s@) =~= seq![
            self.esp@,
            self.efi@,
            self.nixos@,
            self.linux@,
            self.efi_fallback_dir@,
            self.efi_fallback@,
            self.systemd@,
            self.systemd_boot@,
            self.loader@,
            self.systemd_boot_loader_config@,
        ]);
        r
    }
}

/// The earlier installer: its inputs and the garbage collection roots gathered on the way.
pub struct Installer {
    pub broken_gens: Vec<u64>,
    pub gc_roots: Roots,
    pub lanzaboote_stub: String,
    pub systemd: String,
    pub systemd_boot_loader_config: String,
    pub key_pair: crate::signature::KeyPair,
    pub configuration_limit: usize,
    pub esp_paths: SystemdEspPaths,
    pub generation_links: Vec<String>,
}

impl Installer {
    /// An installation onto the ESP at `esp`; its fixed files are roots from the start.
    pub fn new(
        lanzaboote_stub: String,
        systemd: String,
        systemd_boot_loader_config: String,
        key_pair: crate::signature::KeyPair,
        configuration_limit: usize,
        esp: &str,
        generation_links: Vec<String>,
    ) -> (r: Self)
        ensures
            r.broken_gens@ == Seq::<u64>::empty(),
            r.esp_paths.esp@ == esp@,
            r.gc_roots@ == seq![
                r.esp_paths.esp@,
                r.esp_paths.efi@,
                r.esp_paths.nixos@,
                r.esp_paths.linux@,
                r.esp_paths.efi_fallback_dir@,
                r.esp_paths.efi_fallback@,
                r.esp_paths.systemd@,
                r.esp_paths.systemd_boot@,
                r.esp_paths.loader@,
                r.esp_paths.systemd_boot_loader_config@,
            ].to_set(),
            r.configuration_limit == configuration_limit,
    {
        let esp_paths = SystemdEspPaths::new(esp);
        let mut gc_roots = Roots::new();
        gc_roots.extend(&esp_paths.iter());
        let r = Installer {
            broken_gens: Vec::new(),
            gc_roots,
            lanzaboote_stub,
            systemd,
            systemd_boot_loader_config,
            key_pair,
            configuration_limit,
            esp_paths,
            generation_links,
        };
        assert(r.gc_roots@ =~= seq![
            r.esp_paths.esp@,
            r.esp_paths.efi@,
            r.esp_paths.nixos@,
            r.esp_paths.linux@,
            r.esp_paths.efi_fallback_dir@,
            r.esp_paths.efi_fallback@,
            r.esp_paths.systemd@,
            r.esp_paths.systemd_boot@,
            r.esp_paths.loader@,
            r.esp_paths.systemd_boot_loader_config@,
        ].to_set());
        r
    }

    /// The path of the x86-64 systemd-boot binary in the systemd package.
    pub fn systemd_boot_source(&self) -> (r: String)
        ensures
            r@ == spec_join(self.systemd@, "lib/systemd/boot/efi/systemd-bootx64.efi"@),
    {
        join(self.systemd.as_str(), "lib/systemd/boot/efi/systemd-bootx64.efi")
    }
}

} // verus!
