//! Paths on the EFI System Partition (ESP): architectures, generation files and the naming
//! of the files copied from the Nix store.
use vstd::prelude::*;

use crate::generation::{specialisation_suffix, Generation};
use crate::paths::{join_chars, parent_file_name, spec_join, spec_parent_file_name};
use crate::text::{chars_to_string, decimal, decimal_chars, push_chars, push_str, str_chars};

verus! {

/// Supported systems.
#[derive(Debug, Clone, Copy, PartialEq, Eq, Structural)]
pub enum Architecture {
    X86,
    AArch64,
}

/// Errors in computing ESP paths.
#[derive(Debug, Clone, Copy, PartialEq, Eq, Structural)]
pub enum EspError {
    /// The NixOS system double is not supported.
    UnsupportedSystem,
    /// A store path has no parent directory to name the file after.
    MissingParentComponent,
    /// The generation has no initrd.
    MissingInitrd,
}

pub open spec fn x86_64_linux() -> Seq<char> {
    seq!['x', '8', '6', '_', '6', '4', '-', 'l', 'i', 'n', 'u', 'x']
}

pub open spec fn aarch64_linux() -> Seq<char> {
    seq!['a', 'a', 'r', 'c', 'h', '6', '4', '-', 'l', 'i', 'n', 'u', 'x']
}

impl Architecture {
    pub open spec fn spec_from_nixos_system(s: Seq<char>) -> Result<Architecture, EspError> {
        if s == x86_64_linux() {
            Ok(Architecture::X86)
        } else if s == aarch64_linux() {
            Ok(Architecture::AArch64)
        } else {
            Err(EspError::UnsupportedSystem)
        }
    }

    pub open spec fn spec_efi_representation(self) -> Seq<char> {
        match self {
            Architecture::X86 => seq!['x', '6', '4'],
            Architecture::AArch64 => seq!['a', 'a', '6', '4'],
        }
    }

    pub open spec fn spec_systemd_filename(self) -> Seq<char> {
        match self {
            Architecture::X86 => seq![
                's', 'y', 's', 't', 'e', 'm', 'd', '-', 'b', 'o', 'o', 't', 'x', '6', '4', '.', 'e', 'f', 'i'
            ],
            Architecture::AArch64 => seq![
                's', 'y', 's', 't', 'e', 'm', 'd', '-', 'b', 'o', 'o', 't', 'a', 'a', '6', '4', '.', 'e', 'f', 'i'
            ],
        }
    }

    pub open spec fn spec_efi_fallback_filename(self) -> Seq<char> {
        match self {
            Architecture::X86 => seq!['B', 'O', 'O', 'T', 'X', '6', '4', '.', 'E', 'F', 'I'],
            Architecture::AArch64 => seq!['B', 'O', 'O', 'T', 'A', 'A', '6', '4', '.', 'E', 'F', 'I'],
        }
    }

    /// Converts from a NixOS system double to a supported system.
    pub fn from_nixos_system(system_double: &str) -> (r: Result<Self, EspError>)
        ensures
            r == Self::spec_from_nixos_system(system_double@),
    {
        let s = str_chars(system_double);
        let x86 = vec!['x', '8', '6', '_', '6', '4', '-', 'l', 'i', 'n', 'u', 'x'];
        let arm = vec!['a', 'a', 'r', 'c', 'h', '6', '4', '-', 'l', 'i', 'n', 'u', 'x'];
        assert(x86@ =~= x86_64_linux());
        assert(arm@ =~= aarch64_linux());
        if crate::strmap::chars_eq(&s, &x86) {
            Ok(Architecture::X86)
        } else if crate::strmap::chars_eq(&s, &arm) {
            Ok(Architecture::AArch64)
        } else {
            Err(EspError::UnsupportedSystem)
        }
    }

    /// The architecture as UEFI file names spell it: `x64` or `aa64`.
    pub fn efi_representation(&self) -> (r: String)
        ensures
            r@ == self.spec_efi_representation(),
    {
        let v = match self {
            Architecture::X86 => vec!['x', '6', '4'],
            Architecture::AArch64 => vec!['a', 'a', '6', '4'],
        };
        assert(v@ =~= self.spec_efi_representation());
        chars_to_string(&v)
    }

    /// The file name of the systemd-boot binary for this architecture.
    pub fn systemd_filename(&self) -> (r: String)
        ensures
            r@ == self.spec_systemd_filename(),
    {
        let v = match self {
            Architecture::X86 => vec![
                's', 'y', 's', 't', 'e', 'm', 'd', '-', 'b', 'o', 'o', 't', 'x', '6', '4', '.', 'e', 'f', 'i'
            ],
            Architecture::AArch64 => vec![
                's', 'y', 's', 't', 'e', 'm', 'd', '-', 'b', 'o', 'o', 't', 'a', 'a', '6', '4', '.', 'e', 'f', 'i'
            ],
        };
        assert(v@ =~= self.spec_systemd_filename());
        chars_to_string(&v)
    }

    /// The file name of the UEFI fallback boot loader for this architecture.
    pub fn efi_fallback_filename(&self) -> (r: String)
        ensures
            r@ == self.spec_efi_fallback_filename(),
    {
        let v = match self {
            Architecture::X86 => vec!['B', 'O', 'O', 'T', 'X', '6', '4', '.', 'E', 'F', 'I'],
            Architecture::AArch64 => vec!['B', 'O', 'O', 'T', 'A', 'A', '6', '4', '.', 'E', 'F', 'I'],
        };
        assert(v@ =~= self.spec_efi_fallback_filename());
        chars_to_string(&v)
    }
}

/// Generic ESP paths, specific to a boot loader.
pub trait EspPaths {
    /// The directory holding the NixOS EFI binaries.
    spec fn nixos_dir(&self) -> Seq<char>;

    /// The directory holding the Linux EFI binaries.
    spec fn linux_dir(&self) -> Seq<char>;

    /// The paths to keep as garbage collection roots.
    spec fn roots(&self) -> Seq<Seq<char>>;

    fn nixos_path(&self) -> (r: &String)
        ensures
            r@ == self.nixos_dir(),
    ;

    fn linux_path(&self) -> (r: &String)
        ensures
            r@ == self.linux_dir(),
    ;

    fn iter(&self) -> (r: Vec<String>)
        ensures
            r@.map_values(|s: String| s@) == self.roots(),
    ;
}

/// `.efi`.
pub open spec fn efi_ext() -> Seq<char> {
    seq!['.', 'e', 'f', 'i']
}

/// `{parent}-{name}.efi`, where `parent` is the name of the directory holding the store path.
pub open spec fn spec_nixos_path(resolved: Seq<char>, name: Seq<char>) -> Result<Seq<char>, EspError> {
    match spec_parent_file_name(resolved) {
        Some(parent) => Ok(parent + seq!['-'] + name + efi_ext()),
        None => Err(EspError::MissingParentComponent),
    }
}

/// The file name on the ESP for a file of the Nix store; `resolved` is the store path with
/// its symbolic link, if any, resolved.
pub fn nixos_path(resolved: &str, name: &str) -> (r: Result<String, EspError>)
    ensures
        r matches Ok(s) ==> spec_nixos_path(resolved@, name@) == Ok::<Seq<char>, EspError>(s@),
        r matches Err(e) ==> spec_nixos_path(resolved@, name@) == Err::<Seq<char>, EspError>(e),
{
    match parent_file_name(resolved) {
        Some(parent) => {
            let mut v = str_chars(parent.as_str());
            v.push('-');
            push_str(&mut v, name);
            let ext = vec!['.', 'e', 'f', 'i'];
            push_chars(&mut v, &ext);
            assert(v@ =~= parent@ + seq!['-'] + name@ + efi_ext());
            Ok(chars_to_string(&v))
        },
        None => Err(EspError::MissingParentComponent),
    }
}

/// `nixos-generation-{version}[-specialisation-{name}].efi`.
pub open spec fn spec_generation_path(g: Generation) -> Seq<char> {
    match g.specialisation_name {
        Some(n) => seq!['n', 'i', 'x', 'o', 's', '-', 'g', 'e', 'n', 'e', 'r', 'a', 't', 'i', 'o', 'n', '-']
            + decimal(g.version as nat) + seq![
            '-', 's', 'p', 'e', 'c', 'i', 'a', 'l', 'i', 's', 'a', 't', 'i', 'o', 'n', '-'
        ] + n@ + efi_ext(),
        None => seq!['n', 'i', 'x', 'o', 's', '-', 'g', 'e', 'n', 'e', 'r', 'a', 't', 'i', 'o', 'n', '-']
            + decimal(g.version as nat) + efi_ext(),
    }
}

/// The file name of the stub of a generation.
pub fn generation_path(generation: &Generation) -> (r: String)
    ensures
        r@ == spec_generation_path(*generation),
{
    let mut v = vec!['n', 'i', 'x', 'o', 's', '-', 'g', 'e', 'n', 'e', 'r', 'a', 't', 'i', 'o', 'n', '-'];
    let ghost start = v@;
    push_chars(&mut v, &decimal_chars(generation.version));
    match &generation.specialisation_name {
        Some(n) => {
            let sp = vec!['-', 's', 'p', 'e', 'c', 'i', 'a', 'l', 'i', 's', 'a', 't', 'i', 'o', 'n', '-'];
            push_chars(&mut v, &sp);
            push_str(&mut v, n.as_str());
        },
        None => {},
    }
    let ext = vec!['.', 'e', 'f', 'i'];
    push_chars(&mut v, &ext);
    assert(v@ =~= spec_generation_path(*generation));
    chars_to_string(&v)
}

/// Paths to the boot files of a specific generation.
pub struct EspGenerationPaths {
    pub kernel: String,
    pub initrd: String,
    pub lanzaboote_image: String,
}

pub open spec fn bz_image() -> Seq<char> {
    seq!['b', 'z', 'I', 'm', 'a', 'g', 'e']
}

pub open spec fn initrd_word() -> Seq<char> {
    seq!['i', 'n', 'i', 't', 'r', 'd']
}

/// The paths of a generation's kernel, initrd and stub on the ESP, or the first error: the
/// generation's system must be supported, the kernel and the initrd must have a parent
/// directory to be named after, and there must be an initrd.
pub open spec fn spec_esp_generation_paths(
    nixos_dir: Seq<char>,
    linux_dir: Seq<char>,
    generation: Generation,
    kernel_resolved: Seq<char>,
    initrd_resolved: Option<Seq<char>>,
) -> Result<(Seq<char>, Seq<char>, Seq<char>), EspError> {
    match Architecture::spec_from_nixos_system(generation.spec.bootspec.system@) {
        Err(e) => Err(e),
        Ok(_) => match spec_nixos_path(kernel_resolved, bz_image()) {
            Err(e) => Err(e),
            Ok(k) => match initrd_resolved {
                None => Err(EspError::MissingInitrd),
                Some(ir) => match spec_nixos_path(ir, initrd_word()) {
                    Err(e) => Err(e),
                    Ok(i) => Ok((
                        spec_join(nixos_dir, k),
                        spec_join(nixos_dir, i),
                        spec_join(linux_dir, spec_generation_path(generation)),
                    )),
                },
            },
        },
    }
}

impl EspGenerationPaths {
    /// The paths of a generation's kernel, initrd and stub on the ESP.
    ///
    /// `kernel_resolved` and `initrd_resolved` are the generation's kernel and initrd paths
    /// with their symbolic links resolved (or as they are, where they are no links).
    pub fn new<P: EspPaths>(
        esp_paths: &P,
        generation: &Generation,
        system: Architecture,
        kernel_resolved: &str,
        initrd_resolved: Option<&str>,
    ) -> (r: Result<Self, EspError>)
        requires
            Architecture::spec_from_nixos_system(generation.spec.bootspec.system@) matches Ok(a)
                ==> a == system,
        ensures
            match spec_esp_generation_paths(
                esp_paths.nixos_dir(),
                esp_paths.linux_dir(),
                *generation,
                kernel_resolved@,
                match initrd_resolved {
                    Some(i) => Some(i@),
                    None => None,
                },
            ) {
                Ok((k, i, l)) => r matches Ok(p) && p.kernel@ == k && p.initrd@ == i && p.lanzaboote_image@ == l,
                Err(e) => r matches Err(x) && x == e,
            },
    {
        let _bootspec_system = Architecture::from_nixos_system(
            generation.spec.bootspec.system.as_str(),
        )?;
        let bz = vec!['b', 'z', 'I', 'm', 'a', 'g', 'e'];
        assert(bz@ =~= bz_image());
        let k = nixos_path(kernel_resolved, chars_to_string(&bz).as_str())?;
        let initrd = match initrd_resolved {
            Some(i) => i,
            None => return Err(EspError::MissingInitrd),
        };
        let iw = vec!['i', 'n', 'i', 't', 'r', 'd'];
        assert(iw@ =~= initrd_word());
        let i = nixos_path(initrd, chars_to_string(&iw).as_str())?;
        let nixos = str_chars(esp_paths.nixos_path().as_str());
        let linux = str_chars(esp_paths.linux_path().as_str());
        let gp = generation_path(generation);
        Ok(EspGenerationPaths {
            kernel: chars_to_string(&join_chars(&nixos, &str_chars(k.as_str()))),
            initrd: chars_to_string(&join_chars(&nixos, &str_chars(i.as_str()))),
            lanzaboote_image: chars_to_string(&join_chars(&linux, &str_chars(gp.as_str()))),
        })
    }

    /// The paths to keep as garbage collection roots.
    pub fn to_iter(&self) -> (r: Vec<String>)
        ensures
            r@ == seq![self.kernel, self.initrd, self.lanzaboote_image],
    {
        let r = vec![self.kernel.clone(), self.initrd.clone(), self.lanzaboote_image.clone()];
        assert(r@ =~= seq![self.kernel, self.initrd, self.lanzaboote_image]);
        r
    }
}

/// ASCII lower-case letters made upper-case, as `str::to_uppercase` does for ASCII text.
pub open spec fn ascii_uppercase(s: Seq<char>) -> Seq<char> {
    s.map_values(|c: char| if 'a' <= c && c <= 'z' { ((c as u32) - 32) as char } else { c })
}

/// The EFI file names of an architecture are spelled from its EFI name: systemd-boot is
/// `systemd-boot{name}.efi` and the UEFI fallback loader is `BOOT{NAME}.EFI`.
pub proof fn law_efi_file_names(a: Architecture)
    ensures
        a.spec_systemd_filename() == seq!['s', 'y', 's', 't', 'e', 'm', 'd', '-', 'b', 'o', 'o', 't']
            + a.spec_efi_representation() + seq!['.', 'e', 'f', 'i'],
        a.spec_efi_fallback_filename() == seq!['B', 'O', 'O', 'T'] + ascii_uppercase(
            a.spec_efi_representation(),
        ) + seq!['.', 'E', 'F', 'I'],
{
    let r = a.spec_efi_representation();
    match a {
        Architecture::X86 => {
            assert(ascii_uppercase(r) =~= seq!['X', '6', '4']);
        },
        Architecture::AArch64 => {
            assert(ascii_uppercase(r) =~= seq!['A', 'A', '6', '4']);
        },
    }
    assert(a.spec_systemd_filename() =~= seq!['s', 'y', 's', 't', 'e', 'm', 'd', '-', 'b', 'o', 'o', 't']
        + r + seq!['.', 'e', 'f', 'i']);
    assert(a.spec_efi_fallback_filename() =~= seq!['B', 'O', 'O', 'T'] + ascii_uppercase(r) + seq![
        '.', 'E', 'F', 'I',
    ]);
}

/// Different architectures have different EFI names, so neither their systemd-boot binaries
/// nor their fallback loaders share a file name; `x86_64-linux` is `x64`, `aarch64-linux` is
/// `aa64`.
pub proof fn law_efi_names_distinct(a: Architecture, b: Architecture)
    requires
        a != b,
    ensures
        a.spec_efi_representation() != b.spec_efi_representation(),
        a.spec_systemd_filename() != b.spec_systemd_filename(),
        a.spec_efi_fallback_filename() != b.spec_efi_fallback_filename(),
        Architecture::spec_from_nixos_system(x86_64_linux()) matches Ok(x) && x.spec_efi_representation() == seq!['x', '6', '4'],
        Architecture::spec_from_nixos_system(aarch64_linux()) matches Ok(x) && x.spec_efi_representation() == seq!['a', 'a', '6', '4'],
{
    assert(x86_64_linux() != aarch64_linux()) by {
        assert(x86_64_linux().len() != aarch64_linux().len());
    }
    assert(a.spec_efi_representation().len() != b.spec_efi_representation().len());
    law_efi_file_names(a);
    law_efi_file_names(b);
    assert(a.spec_systemd_filename().len() != b.spec_systemd_filename().len());
    assert(a.spec_efi_fallback_filename().len() != b.spec_efi_fallback_filename().len());
}

} // verus!
