//! The decisions of installing generations for systemd-boot: which generations, under which
//! names, with which kernel command line, and when systemd-boot itself is replaced.
use vstd::prelude::*;
use vstd::string::StringSliceAdditionalSpecFns;
use vstd::utf8::{decode_utf8, encode_utf8, valid_utf8};

use crate::esp::Architecture;
use crate::gc::{garbage, Roots};
use crate::generation::{Generation, GenerationLink};
use crate::hash::{base32_unpadded, encode_base32, sha256, sha256_digest, stub_inputs_json, stub_inputs_to_json};
use crate::paths::{file_name, join, spec_file_name, spec_join, spec_parent_file_name, parent_file_name};
use crate::signature::KeyPair;
use crate::systemd::SystemdEspPaths;
use crate::text::{chars_to_string, decimal, decimal_chars, push_chars, push_str, rsplit_once_chars, spec_rsplit_once, str_chars, string_from_utf8, strings_view, utf8_text};
use crate::version::{SystemdVersion, VersionError};
use crate::version_order::{compare_versions, version_less};

verus! {

/// Why installing generations failed.
#[derive(Debug, Clone, Copy, PartialEq, Eq, Structural)]
pub enum InstallError {
    /// The kernel path has no parent directory name to read the version from.
    NoKernelDirectory,
    /// A path stored in a stub is not UTF-8.
    NotUtf8,
    /// No generation could be read, so installing would leave nothing to boot.
    NoBootableGeneration,
    /// Neither the kernel nor the initrd that an installed stub names is on the ESP any more.
    MissingKernelAndInitrd,
}

/// The kernel command line: `init=` with the init path, then the kernel parameters.
pub open spec fn spec_kernel_cmdline(init: Seq<char>, params: Seq<Seq<char>>) -> Seq<Seq<char>> {
    seq!["init="@ + init] + params
}

/// Assembles the kernel command line of a generation.
pub fn assemble_kernel_cmdline(init: &str, kernel_params: Vec<String>) -> (r: Vec<String>)
    ensures
        strings_view(r@) == spec_kernel_cmdline(init@, strings_view(kernel_params@)),
{
    let mut first: Vec<char> = Vec::new();
    push_str(&mut first, "init=");
    push_str(&mut first, init);
    let mut r: Vec<String> = Vec::new();
    r.push(chars_to_string(&first));
    let mut params = kernel_params;
    let ghost p = strings_view(params@);
    r.append(&mut params);
    assert(strings_view(r@) =~= spec_kernel_cmdline(init@, p));
    r
}

/// The kernel version that names the installed kernel and initrd: the last `-`-separated piece
/// of the name of the kernel's directory (`/nix/store/...-linux-6.1.1/bzImage` gives `6.1.1`).
pub open spec fn spec_kernel_version(kernel: Seq<char>) -> Option<Seq<char>> {
    match spec_parent_file_name(kernel) {
        None => None,
        Some(dir) => match spec_rsplit_once(dir, '-') {
            Some(parts) => Some(parts.1),
            None => Some(dir),
        },
    }
}

/// The version of the kernel at `kernel`, read from its directory name.
pub fn kernel_version(kernel: &str) -> (r: Result<String, InstallError>)
    ensures
        match spec_kernel_version(kernel@) {
            Some(v) => r matches Ok(s) && s@ == v,
            None => r == Err::<String, InstallError>(InstallError::NoKernelDirectory),
        },
{
    match parent_file_name(kernel) {
        None => Err(InstallError::NoKernelDirectory),
        Some(dir) => {
            let dc = str_chars(dir.as_str());
            match rsplit_once_chars(&dc, '-') {
                Some((_, v)) => Ok(chars_to_string(&v)),
                None => Ok(chars_to_string(&dc)),
            }
        },
    }
}

/// The name of a content-addressed file on the ESP: `{label}-{base32 of its hash}.efi`.
pub open spec fn spec_nixos_ca_name(label: Seq<char>, hash: Seq<u8>) -> Seq<char> {
    label + "-"@ + base32_unpadded(hash) + ".efi"@
}

/// Files with different contents get different names: the name of a content-addressed file
/// determines its hash, so an installed file is never replaced by one with another hash.
pub proof fn law_ca_name_determines_hash(label: Seq<char>, h1: Seq<u8>, h2: Seq<u8>)
    requires
        spec_nixos_ca_name(label, h1) == spec_nixos_ca_name(label, h2),
    ensures
        h1 == h2,
{
    reveal_strlit("-");
    reveal_strlit(".efi");
    let b1 = base32_unpadded(h1);
    let b2 = base32_unpadded(h2);
    let n1 = spec_nixos_ca_name(label, h1);
    let n2 = spec_nixos_ca_name(label, h2);
    if h1.len() < h2.len() {
        crate::hash::lemma_base32_len(h1, h2);
        assert(n1.len() < n2.len());
    } else if h2.len() < h1.len() {
        crate::hash::lemma_base32_len(h2, h1);
        assert(n2.len() < n1.len());
    } else {
        let start: int = label.len() as int + 1;
        assert(n1 == label + "-"@ + b1 + ".efi"@);
        assert(n1.subrange(start, start + b1.len()) =~= b1);
        assert(n2.subrange(start, start + b2.len()) =~= b2);
        crate::hash::law_base32_injective(h1, h2);
    }
}

/// The name under which a file with that hash is installed in `EFI/nixos`.
pub fn nixos_ca_name(label: &str, hash: &[u8]) -> (r: String)
    requires
        hash@.len() * 8 <= usize::MAX,
    ensures
        r@ == spec_nixos_ca_name(label@, hash@),
{
    let mut v: Vec<char> = Vec::new();
    push_str(&mut v, label);
    push_str(&mut v, "-");
    push_str(&mut v, encode_base32(hash).as_str());
    push_str(&mut v, ".efi");
    chars_to_string(&v)
}

/// The name of a generation's stub: its version, its specialisation if any, and a hash of its
/// top-level path and the public key, so that a reused generation number or a rotated key
/// gives a new name.
pub open spec fn spec_stub_name(g: Generation, public_key: Seq<u8>) -> Seq<char> {
    let hash = base32_unpadded(sha256_digest(
        encode_utf8(stub_inputs_json(encode_utf8(g.spec.bootspec.toplevel@), public_key)),
    ));
    match g.specialisation_name {
        Some(n) => "nixos-generation-"@ + decimal(g.version as nat) + "-specialisation-"@ + n@ + "-"@ + hash + ".efi"@,
        None => "nixos-generation-"@ + decimal(g.version as nat) + "-"@ + hash + ".efi"@,
    }
}

/// The file name of the stub of a generation signed with `public_key` (the key's bytes).
pub fn stub_name(generation: &Generation, public_key: &[u8]) -> (r: String)
    ensures
        r@ == spec_stub_name(*generation, public_key@),
{
    let json = stub_inputs_to_json(generation.spec.bootspec.toplevel.as_str().as_bytes(), public_key);
    let digest = sha256(json.as_str().as_bytes());
    let hash = encode_base32(digest.as_slice());
    let mut v: Vec<char> = Vec::new();
    push_str(&mut v, "nixos-generation-");
    push_chars(&mut v, &decimal_chars(generation.version));
    match &generation.specialisation_name {
        Some(n) => {
            push_str(&mut v, "-specialisation-");
            push_str(&mut v, n.as_str());
        },
        None => {},
    }
    push_str(&mut v, "-");
    push_str(&mut v, hash.as_str());
    push_str(&mut v, ".efi");
    chars_to_string(&v)
}

/// A path stored in a stub (`\EFI\nixos\...`) as a path under the mounted ESP: the text
/// after the leading separator, with backslashes as slashes, joined to `esp`.
pub open spec fn spec_resolve_efi_path(esp: Seq<char>, efi_path: Seq<u8>) -> Option<Seq<char>> {
    match utf8_text(efi_path.drop_first()) {
        None => None,
        Some(t) => Some(spec_join(esp, t.map_values(|c: char| if c == '\\' { '/' } else { c }))),
    }
}

/// Translates a path stored in a stub to a path on the mounted ESP.
pub fn resolve_efi_path(esp: &str, efi_path: &[u8]) -> (r: Result<String, InstallError>)
    requires
        efi_path@.len() >= 1,
    ensures
        match spec_resolve_efi_path(esp@, efi_path@) {
            Some(p) => r matches Ok(s) && s@ == p,
            None => r == Err::<String, InstallError>(InstallError::NotUtf8),
        },
{
    let rest = crate::pe::copy_range(efi_path, 1, efi_path.len());
    assert(rest@ =~= efi_path@.drop_first());
    let text = match string_from_utf8(rest) {
        Some(t) => t,
        None => return Err(InstallError::NotUtf8),
    };
    proof {
        vstd::utf8::encode_utf8_decode_utf8(text@);
    }
    let tc = str_chars(text.as_str());
    let mut out: Vec<char> = Vec::new();
    let mut i: usize = 0;
    while i < tc.len()
        invariant
            0 <= i <= tc@.len(),
            out@ == tc@.take(i as int).map_values(|c: char| if c == '\\' { '/' } else { c }),
        decreases tc@.len() - i,
    {
        let c = tc[i];
        out.push(if c == '\\' { '/' } else { c });
        i = i + 1;
        assert(out@ =~= tc@.take(i as int).map_values(|c: char| if c == '\\' { '/' } else { c }));
    }
    assert(tc@.take(i as int) =~= tc@);
    Ok(join(esp, chars_to_string(&out).as_str()))
}

/// Whether a newer systemd-boot is available: where nothing is installed yet, where the
/// installed binary's version cannot be read, or where the available one is of a higher
/// version. The available binary's version must be readable.
pub open spec fn spec_newer_systemd_boot(installed: bool, from: Result<(u32, i32, u32), VersionError>, to: Result<(u32, i32, u32), VersionError>) -> Result<bool, VersionError> {
    if !installed {
        Ok(true)
    } else {
        match from {
            Err(e) => Err(e),
            Ok(f) => match to {
                Err(_) => Ok(true),
                Ok(t) => Ok(version_less(t, f)),
            },
        }
    }
}

/// Decides whether systemd-boot is to be updated, from whether it is installed and the
/// versions read from the available (`from_version`) and the installed (`to_version`) binary.
pub fn newer_systemd_boot(
    installed: bool,
    from_version: Result<SystemdVersion, VersionError>,
    to_version: Result<SystemdVersion, VersionError>,
) -> (r: Result<bool, VersionError>)
    ensures
        r == spec_newer_systemd_boot(
            installed,
            crate::version::version_result(from_version),
            crate::version::version_result(to_version),
        ),
{
    if !installed {
        return Ok(true);
    }
    let from = match from_version {
        Err(e) => return Err(e),
        Ok(v) => v,
    };
    let to = match to_version {
        Err(_) => return Ok(true),
        Ok(v) => v,
    };
    Ok(from > to)
}

/// Whether a systemd-boot binary is (re)installed: where a newer one is available or the
/// installed one is not signed.
pub fn should_install_systemd_boot(newer_available: bool, signed: bool) -> (r: bool)
    ensures
        r == (newer_available || !signed),
{
    newer_available || !signed
}

/// Where a link of version `v` goes in links sorted by version: after every link of a version
/// not above it, so that links of equal version keep their order.
pub open spec fn version_position(s: Seq<u64>, v: u64) -> int
    decreases s.len(),
{
    if s.len() == 0 {
        0
    } else if v < s.last() {
        version_position(s.drop_last(), v)
    } else {
        s.len() as int
    }
}

/// The versions of some links.
pub open spec fn link_versions(links: Seq<GenerationLink>) -> Seq<u64> {
    links.map_values(|l: GenerationLink| l.version)
}

/// The links sorted by version, stably (insertion sort).
pub open spec fn sorted_by_version(links: Seq<GenerationLink>) -> Seq<GenerationLink>
    decreases links.len(),
{
    if links.len() == 0 {
        Seq::empty()
    } else {
        let s = sorted_by_version(links.drop_last());
        s.insert(version_position(link_versions(s), links.last().version), links.last())
    }
}

/// The links to install: sorted by version, and of those only the last
/// `configuration_limit`, the newest; all of them where the limit is 0.
pub open spec fn spec_select_links(links: Seq<GenerationLink>, configuration_limit: usize) -> Seq<GenerationLink> {
    let s = sorted_by_version(links);
    if configuration_limit > 0 && configuration_limit < s.len() {
        s.skip(s.len() - configuration_limit)
    } else {
        s
    }
}

proof fn lemma_sorted_by_version_len(links: Seq<GenerationLink>)
    ensures
        sorted_by_version(links).len() == links.len(),
        sorted_by_version(links).to_multiset() == links.to_multiset(),
        forall|i: int, j: int| 0 <= i < j < sorted_by_version(links).len() ==> (#[trigger] sorted_by_version(links)[i]).version
            <= (#[trigger] sorted_by_version(links)[j]).version,
    decreases links.len(),
{
    broadcast use vstd::seq_lib::group_to_multiset_ensures;
    if links.len() > 0 {
        let p = links.drop_last();
        lemma_sorted_by_version_len(p);
        let s = sorted_by_version(p);
        let x = links.last();
        let vs = link_versions(s);
        assert forall|i: int, j: int| 0 <= i < j < vs.len() implies vs[i] <= vs[j] by {
            assert(vs[i] == s[i].version && vs[j] == s[j].version);
        }
        lemma_version_position(vs, x.version);
        let pos = version_position(vs, x.version);
        let t = s.insert(pos, x);
        assert forall|i: int, j: int| 0 <= i < j < t.len() implies (#[trigger] t[i]).version <= (#[trigger] t[j]).version by {
            if j < pos {
                assert(t[i] == s[i] && t[j] == s[j]);
            } else if j == pos {
                assert(t[i] == s[i] && vs[i] == s[i].version);
            } else if i < pos {
                assert(t[i] == s[i] && t[j] == s[j - 1]);
            } else if i == pos {
                assert(t[j] == s[j - 1] && vs[j - 1] == s[j - 1].version);
            } else {
                assert(t[i] == s[i - 1] && t[j] == s[j - 1]);
            }
        }
        assert(t.remove(pos) =~= s);
        assert(t[pos] == x);
        assert(t.to_multiset().remove(x) =~= s.to_multiset());
        assert(t.contains(x));
        assert(t.to_multiset() =~= s.to_multiset().insert(x));
        assert(p.push(x) =~= links);
    }
}

proof fn lemma_version_position(s: Seq<u64>, v: u64)
    requires
        forall|i: int, j: int| 0 <= i < j < s.len() ==> s[i] <= s[j],
    ensures
        0 <= version_position(s, v) <= s.len(),
        forall|k: int| 0 <= k < version_position(s, v) ==> s[k] <= v,
        forall|k: int| version_position(s, v) <= k < s.len() ==> v < s[k],
    decreases s.len(),
{
    if s.len() > 0 {
        let p = s.drop_last();
        lemma_version_position(p, v);
        if v < s.last() {
            assert forall|k: int| 0 <= k < version_position(s, v) implies s[k] <= v by {
                assert(p[k] == s[k]);
            }
            assert forall|k: int| version_position(s, v) <= k < s.len() implies v < s[k] by {
                if k < s.len() - 1 {
                    assert(p[k] == s[k]);
                }
            }
        } else {
            assert forall|k: int| 0 <= k < s.len() implies s[k] <= v by {
                assert(s[k] <= s[s.len() - 1]);
            }
        }
    }
}

/// Sorts links by version, stably.
pub fn sort_links_by_version(links: Vec<GenerationLink>) -> (r: Vec<GenerationLink>)
    ensures
        r@ == sorted_by_version(links@),
{
    let ghost all = links@;
    let mut rest = links;
    let mut out: Vec<GenerationLink> = Vec::new();
    let ghost mut k: int = 0;
    assert(all.take(0) =~= Seq::<GenerationLink>::empty());
    while rest.len() > 0
        invariant
            0 <= k <= all.len(),
            rest@ == all.skip(k),
            out@ == sorted_by_version(all.take(k)),
        decreases rest@.len(),
    {
        let x = rest.remove(0);
        proof {
            assert(all.take(k + 1).drop_last() =~= all.take(k));
            assert(all.take(k + 1).last() == x);
            assert(rest@ =~= all.skip(k + 1));
            lemma_sorted_by_version_len(all.take(k));
        }
        // the position after the last link of a version not above x's
        let mut pos = out.len();
        let ghost vs = link_versions(out@);
        assert(vs.take(pos as int) =~= vs);
        while pos > 0 && x.version < out[pos - 1].version
            invariant
                0 <= pos <= out@.len(),
                vs == link_versions(out@),
                version_position(vs, x.version) == version_position(vs.take(pos as int), x.version),
            decreases pos,
        {
            assert(vs.take(pos as int).drop_last() =~= vs.take(pos - 1));
            pos = pos - 1;
        }
        proof {
            if pos > 0 {
                assert(vs.take(pos as int).last() == out@[pos - 1].version);
            }
        }
        out.insert(pos, x);
        proof {
            k = k + 1;
        }
    }
    assert(all.take(k) =~= all);
    out
}

/// The links to install, sorted by version: the newest `configuration_limit` of them, or all
/// of them where the limit is 0.
pub fn select_links(links: Vec<GenerationLink>, configuration_limit: usize) -> (r: Vec<GenerationLink>)
    ensures
        r@ == spec_select_links(links@, configuration_limit),
{
    let mut sorted = sort_links_by_version(links);
    if configuration_limit > 0 && configuration_limit < sorted.len() {
        let start = sorted.len() - configuration_limit;
        let kept = sorted.split_off(start);
        assert(kept@ =~= sorted_by_version(links@).skip(start as int));
        kept
    } else {
        sorted
    }
}

/// The links installed are in ascending version order, come from the given links, number the
/// limit (where it is set and there are that many), and are the newest: a link left out has
/// no higher version than any link kept.
pub proof fn law_select_links(links: Seq<GenerationLink>, configuration_limit: usize)
    ensures
        ({
            let r = spec_select_links(links, configuration_limit);
            &&& forall|i: int, j: int| 0 <= i < j < r.len() ==> (#[trigger] r[i]).version <= (#[trigger] r[j]).version
            &&& forall|x: GenerationLink| r.contains(x) ==> links.contains(x)
            &&& configuration_limit == 0 ==> r.to_multiset() == links.to_multiset()
            &&& r.len() == (if configuration_limit > 0 && configuration_limit < links.len() {
                configuration_limit as int
            } else {
                links.len() as int
            })
            &&& forall|i: int, j: int| 0 <= i < sorted_by_version(links).len() - r.len() && 0 <= j < r.len()
                ==> (#[trigger] sorted_by_version(links)[i]).version <= (#[trigger] r[j]).version
        }),
{
    broadcast use vstd::seq_lib::group_to_multiset_ensures;
    lemma_sorted_by_version_len(links);
    let s = sorted_by_version(links);
    let r = spec_select_links(links, configuration_limit);
    assert forall|x: GenerationLink| s.contains(x) implies links.contains(x) by {
        assert(s.to_multiset().count(x) > 0);
    }
    if configuration_limit > 0 && configuration_limit < s.len() {
        let d = s.len() - configuration_limit;
        assert forall|i: int, j: int| 0 <= i < j < r.len() implies (#[trigger] r[i]).version <= (#[trigger] r[j]).version by {
            assert(r[i] == s[i + d] && r[j] == s[j + d]);
        }
        assert forall|x: GenerationLink| r.contains(x) implies links.contains(x) by {
            let k = choose|k: int| 0 <= k < r.len() && r[k] == x;
            assert(s[k + d] == x);
            assert(s.contains(x));
        }
        assert forall|i: int, j: int| 0 <= i < s.len() - r.len() && 0 <= j < r.len() implies (#[trigger] s[i]).version <= (#[trigger] r[j]).version by {
            assert(r[j] == s[j + d]);
        }
    }
}

/// A file name that NixOS owns in a directory it may share: it starts with `nixos-`.
pub open spec fn spec_is_nixos_entry(path: Seq<char>) -> bool {
    match spec_file_name(path) {
        Some(n) => n.len() >= 6 && n.subrange(0, 6) == "nixos-"@,
        None => false,
    }
}

/// Whether garbage collection may consider a path found under `EFI/Linux`: that directory may
/// be shared with other distributions, so only files whose name starts with `nixos-` are.
pub fn is_nixos_entry(path: &str) -> (r: bool)
    ensures
        r == spec_is_nixos_entry(path@),
{
    let prefix = str_chars("nixos-");
    proof {
        reveal_strlit("nixos-");
    }
    assert(prefix@.len() == 6);
    match file_name(path) {
        None => false,
        Some(n) => {
            let nc = str_chars(n.as_str());
            if nc.len() < 6 {
                return false;
            }
            let mut i: usize = 0;
            while i < 6
                invariant
                    0 <= i <= 6,
                    nc@.len() >= 6,
                    prefix@ == "nixos-"@,
                    prefix@.len() == 6,
                    spec_file_name(path@) == Some(nc@),
                    forall|j: int| 0 <= j < i ==> nc@[j] == prefix@[j],
                decreases 6 - i,
            {
                if nc[i] != prefix[i] {
                    assert(nc@.subrange(0, 6)[i as int] != "nixos-"@[i as int]);
                    assert(nc@.subrange(0, 6) != "nixos-"@);
                    return false;
                }
                i = i + 1;
            }
            assert(nc@.subrange(0, 6) =~= "nixos-"@);
            true
        },
    }
}

/// Versions in strictly ascending order (hence distinct).
pub open spec fn strictly_ascending(s: Seq<u64>) -> bool {
    forall|i: int, j: int| 0 <= i < j < s.len() ==> s[i] < s[j]
}

/// The text of the warning that garbage collection is off, for the versions of the
/// generations that could not be read.
pub open spec fn spec_broken_warning(versions: Seq<u64>) -> Seq<char> {
    "Garbage collection is disabled because you have malformed NixOS generations that do\nnot contain a readable bootspec document.\n\nRemove the malformed generations to re-enable garbage collection with\n`nix-env --delete-generations "@
        + crate::text::joined(versions.map_values(|v: u64| decimal(v as nat)), " "@) + "`\n"@
}

/// The installation of generations for systemd-boot: its inputs, the garbage collection roots
/// gathered on the way, and the generations that could not be read.
pub struct Installer {
    broken_gens: Vec<u64>,
    gc_roots: Roots,
    lanzaboote_stub: String,
    systemd: String,
    systemd_boot_loader_config: String,
    key_pair: KeyPair,
    configuration_limit: usize,
    esp_paths: SystemdEspPaths,
    generation_links: Vec<String>,
    arch: Architecture,
}

impl Installer {
    /// The versions of the generations that could not be read, ascending.
    pub closed spec fn broken(&self) -> Seq<u64> {
        self.broken_gens@
    }

    /// The garbage collection roots so far.
    pub closed spec fn roots(&self) -> Set<Seq<char>> {
        self.gc_roots@
    }

    /// The ESP layout.
    pub closed spec fn esp_layout(&self) -> SystemdEspPaths {
        self.esp_paths
    }

    /// The systemd package.
    pub closed spec fn systemd_path(&self) -> Seq<char> {
        self.systemd@
    }

    /// The architecture installed for.
    pub closed spec fn architecture(&self) -> Architecture {
        self.arch
    }

    /// The number of newest generations to install (0 for all).
    pub closed spec fn limit(&self) -> usize {
        self.configuration_limit
    }

    pub closed spec fn wf(&self) -> bool {
        strictly_ascending(self.broken_gens@)
    }

    /// An installation onto the ESP at `esp` (which also holds the generations' files); the
    /// fixed files of the ESP are garbage collection roots from the start.
    pub fn new(
        lanzaboote_stub: String,
        arch: Architecture,
        systemd: String,
        systemd_boot_loader_config: String,
        key_pair: KeyPair,
        configuration_limit: usize,
        esp: &str,
        generation_links: Vec<String>,
    ) -> (r: Self)
        ensures
            r.wf(),
            r.broken() == Seq::<u64>::empty(),
            r.systemd_path() == systemd@,
            r.architecture() == arch,
            r.limit() == configuration_limit,
            r.esp_layout().esp@ == esp@,
            r.esp_layout().nixos@ == spec_join(spec_join(esp@, "EFI"@), "nixos"@),
            r.esp_layout().linux@ == spec_join(spec_join(esp@, "EFI"@), "Linux"@),
            r.roots() == crate::esp::EspPaths::roots(&r.esp_layout()).to_set(),
    {
        let esp_paths = SystemdEspPaths::new(esp, esp, arch);
        let mut gc_roots = Roots::new();
        let it = crate::esp::EspPaths::iter(&esp_paths);
        gc_roots.extend(&it);
        let r = Installer {
            broken_gens: Vec::new(),
            gc_roots,
            lanzaboote_stub,
            systemd,
            systemd_boot_loader_config,
            key_pair,
            configuration_limit,
            esp_paths,
            generation_links,
            arch,
        };
        assert(r.roots() =~= crate::esp::EspPaths::roots(&r.esp_layout()).to_set());
        r
    }

    /// Notes a generation that could not be read; garbage collection stays off while there is
    /// one.
    pub fn record_broken(&mut self, version: u64)
        requires
            old(self).wf(),
        ensures
            final(self).wf(),
            final(self).broken().to_set() == old(self).broken().to_set().insert(version),
            final(self).roots() == old(self).roots(),
    {
        let mut pos: usize = 0;
        while pos < self.broken_gens.len() && self.broken_gens[pos] < version
            invariant
                0 <= pos <= self.broken_gens@.len(),
                strictly_ascending(self.broken_gens@),
                forall|k: int| 0 <= k < pos ==> self.broken_gens@[k] < version,
            decreases self.broken_gens@.len() - pos,
        {
            pos = pos + 1;
        }
        if pos < self.broken_gens.len() && self.broken_gens[pos] == version {
            return;
        }
        let ghost before = self.broken_gens@;
        self.broken_gens.insert(pos, version);
        assert forall|i: int, j: int| 0 <= i < j < self.broken_gens@.len() implies self.broken_gens@[i] < self.broken_gens@[j] by {
            let t = self.broken_gens@;
            if j < pos {
                assert(t[i] == before[i] && t[j] == before[j]);
            } else if j == pos {
                assert(t[i] == before[i]);
            } else if i < pos {
                assert(t[i] == before[i] && t[j] == before[j - 1]);
            } else if i == pos {
                assert(t[j] == before[j - 1]);
                assert(before[pos as int] > version);
                assert(before[pos as int] <= before[j - 1]);
            } else {
                assert(t[i] == before[i - 1] && t[j] == before[j - 1]);
            }
        }
        assert(self.broken_gens@.to_set() =~= before.to_set().insert(version)) by {
            let t = self.broken_gens@;
            assert forall|x: u64| t.to_set().contains(x) <==> before.to_set().insert(version).contains(x) by {
                if t.contains(x) {
                    let k = choose|k: int| 0 <= k < t.len() && t[k] == x;
                    if k < pos {
                        assert(before[k] == x);
                    } else if k > pos {
                        assert(before[k - 1] == x);
                    }
                }
                if before.contains(x) {
                    let k = choose|k: int| 0 <= k < before.len() && before[k] == x;
                    if k < pos {
                        assert(t[k] == x);
                    } else {
                        assert(t[k + 1] == x);
                    }
                }
                if x == version {
                    assert(t[pos as int] == x);
                }
            }
        }
    }

    /// Whether garbage collection may run: only where every generation could be read.
    pub fn garbage_collection_enabled(&self) -> (r: bool)
        ensures
            r == (self.broken().len() == 0),
    {
        self.broken_gens.len() == 0
    }

    /// The warning that garbage collection is off, naming the generations to remove.
    pub fn broken_generations_warning(&self) -> (r: String)
        ensures
            r@ == spec_broken_warning(self.broken()),
    {
        let mut words: Vec<String> = Vec::new();
        let mut i: usize = 0;
        while i < self.broken_gens.len()
            invariant
                0 <= i <= self.broken_gens@.len(),
                strings_view(words@) == self.broken_gens@.take(i as int).map_values(|v: u64| decimal(v as nat)),
            decreases self.broken_gens@.len() - i,
        {
            let ghost before = words@;
            let w = chars_to_string(&decimal_chars(self.broken_gens[i]));
            words.push(w);
            assert(strings_view(words@) =~= strings_view(before).push(decimal(self.broken_gens@[i as int] as nat)));
            assert(self.broken_gens@.take(i + 1) =~= self.broken_gens@.take(i as int).push(self.broken_gens@[i as int]));
            i = i + 1;
            assert(strings_view(words@) =~= self.broken_gens@.take(i as int).map_values(|v: u64| decimal(v as nat)));
        }
        assert(self.broken_gens@.take(i as int) =~= self.broken_gens@);
        let list = crate::text::join_strings(words.as_slice(), " ");
        let mut v: Vec<char> = Vec::new();
        push_str(&mut v, "Garbage collection is disabled because you have malformed NixOS generations that do\nnot contain a readable bootspec document.\n\nRemove the malformed generations to re-enable garbage collection with\n`nix-env --delete-generations ");
        push_str(&mut v, list.as_str());
        push_str(&mut v, "`\n");
        chars_to_string(&v)
    }

    /// Adds paths to the garbage collection roots.
    pub fn add_gc_roots(&mut self, paths: &Vec<String>)
        ensures
            final(self).roots() == old(self).roots() + paths@.map_values(|s: String| s@).to_set(),
            final(self).broken() == old(self).broken(),
            old(self).wf() ==> final(self).wf(),
    {
        self.gc_roots.extend(paths);
    }

    /// The files to delete among the paths found under `EFI/nixos` and under `EFI/Linux` (in
    /// the order found): nothing while a generation could not be read; otherwise every path
    /// under `EFI/nixos` that is no root, since that directory belongs to NixOS alone, then
    /// every path under `EFI/Linux` that is no root and is NixOS's (`is_nixos_entry`), since that
    /// one may be shared with other distributions.
    pub fn garbage(&self, nixos_entries: &Vec<String>, linux_entries: &Vec<String>) -> (r: Vec<String>)
        ensures
            strings_view(r@) == (if self.broken().len() == 0 {
                garbage(self.roots(), strings_view(nixos_entries@), Seq::new(nixos_entries@.len(), |i: int| true))
                    + garbage(
                    self.roots(),
                    strings_view(linux_entries@),
                    strings_view(linux_entries@).map_values(|p: Seq<char>| spec_is_nixos_entry(p)),
                )
            } else {
                Seq::empty()
            }),
    {
        if self.broken_gens.len() > 0 {
            let r: Vec<String> = Vec::new();
            assert(strings_view(r@) =~= Seq::<Seq<char>>::empty());
            return r;
        }
        let mut r = self.gc_roots.collect_garbage(nixos_entries);
        let mut considered: Vec<bool> = Vec::new();
        let mut i: usize = 0;
        while i < linux_entries.len()
            invariant
                0 <= i <= linux_entries@.len(),
                considered@ == strings_view(linux_entries@).take(i as int).map_values(|p: Seq<char>| spec_is_nixos_entry(p)),
            decreases linux_entries@.len() - i,
        {
            considered.push(is_nixos_entry(linux_entries[i].as_str()));
            i = i + 1;
            assert(considered@ =~= strings_view(linux_entries@).take(i as int).map_values(|p: Seq<char>| spec_is_nixos_entry(p)));
        }
        assert(strings_view(linux_entries@).take(i as int) =~= strings_view(linux_entries@));
        let mut linux = self.gc_roots.collect_garbage_with_filter(linux_entries, &considered);
        let ghost a = strings_view(r@);
        let ghost b = strings_view(linux@);
        r.append(&mut linux);
        assert(strings_view(r@) =~= a + b);
        r
    }

    /// Keeps an installed generation: its stub at `stub_target` and the kernel and initrd that
    /// the stub names become roots. Where neither of these two is on the ESP any more (given by
    /// `kernel_exists` and `initrd_exists`), nothing is kept and the generation is to be
    /// installed anew.
    pub fn register_installed(
        &mut self,
        stub_target: String,
        kernel_path: String,
        initrd_path: String,
        kernel_exists: bool,
        initrd_exists: bool,
    ) -> (r: Result<(), InstallError>)
        ensures
            r is Err <==> (!kernel_exists && !initrd_exists),
            r is Err ==> r == Err::<(), InstallError>(InstallError::MissingKernelAndInitrd)
                && final(self).roots() == old(self).roots(),
            r is Ok ==> final(self).roots() == old(self).roots() + set![stub_target@, kernel_path@, initrd_path@],
            final(self).broken() == old(self).broken(),
            old(self).wf() ==> final(self).wf(),
    {
        if !kernel_exists && !initrd_exists {
            return Err(InstallError::MissingKernelAndInitrd);
        }
        let ghost (s, k, i) = (stub_target@, kernel_path@, initrd_path@);
        let paths = vec![stub_target, kernel_path, initrd_path];
        assert(paths@.map_values(|p: String| p@).to_set() =~= set![s, k, i]) by {
            assert(paths@.map_values(|p: String| p@) =~= seq![s, k, i]);
            assert forall|x: Seq<char>| seq![s, k, i].to_set().contains(x) <==> set![s, k, i].contains(x) by {
                if x == s {
                    assert(seq![s, k, i][0] == x);
                }
                if x == k {
                    assert(seq![s, k, i][1] == x);
                }
                if x == i {
                    assert(seq![s, k, i][2] == x);
                }
            }
        }
        self.add_gc_roots(&paths);
        Ok(())
    }

    /// The path of the systemd-boot binary in the systemd package.
    pub fn systemd_boot_source(&self) -> (r: String)
        ensures
            r@ == spec_join(spec_join(self.systemd_path(), "lib/systemd/boot/efi"@), self.architecture().spec_systemd_filename()),
    {
        let efi = join(self.systemd.as_str(), "lib/systemd/boot/efi");
        join(efi.as_str(), self.arch.systemd_filename().as_str())
    }

    /// Where the stub of a generation goes: `EFI/Linux` under its name.
    pub fn stub_target(&self, generation: &Generation, public_key: &[u8]) -> (r: String)
        ensures
            r@ == spec_join(self.esp_layout().linux@, spec_stub_name(*generation, public_key@)),
    {
        join(self.esp_paths.linux.as_str(), stub_name(generation, public_key).as_str())
    }

    /// Where a content-addressed file goes: `EFI/nixos` under its label and hash.
    pub fn nixos_ca_target(&self, label: &str, hash: &[u8]) -> (r: String)
        requires
            hash@.len() * 8 <= usize::MAX,
        ensures
            r@ == spec_join(self.esp_layout().nixos@, spec_nixos_ca_name(label@, hash@)),
    {
        join(self.esp_paths.nixos.as_str(), nixos_ca_name(label, hash).as_str())
    }

    /// The number of newest generations to install (0 for all).
    pub fn configuration_limit(&self) -> (r: usize)
        ensures
            r == self.limit(),
    {
        self.configuration_limit
    }
}

/// The generations that could be read, or the error that leaves the boot entries alone where
/// there are none: installing nothing would remove every entry.
pub fn bootable_generations(generations: Vec<Generation>) -> (r: Result<Vec<Generation>, InstallError>)
    ensures
        generations@.len() == 0 ==> r == Err::<Vec<Generation>, InstallError>(InstallError::NoBootableGeneration),
        generations@.len() > 0 ==> (r matches Ok(g) && g@ == generations@),
{
    if generations.len() == 0 {
        Err(InstallError::NoBootableGeneration)
    } else {
        Ok(generations)
    }
}

/// Over an installed systemd-boot, the available one is installed exactly when its version is
/// higher: by major number, then minor number, then patch number.
pub proof fn law_newer_systemd_boot_by_version(from: SystemdVersion, to: SystemdVersion)
    ensures
        spec_newer_systemd_boot(
            true,
            crate::version::version_result(Ok(from)),
            crate::version::version_result(Ok(to)),
        ) == Ok::<bool, VersionError>(
            to.major < from.major || (to.major == from.major && (to.minor < from.minor || (
            to.minor == from.minor && to.patch < from.patch))),
        ),
{
}

/// systemd-boot is installed where none is yet, and where the installed one's version cannot
/// be read; an available binary whose version cannot be read is an error where one is
/// installed.
pub proof fn law_newer_systemd_boot_unread(
    from: Result<(u32, i32, u32), VersionError>,
    to: Result<(u32, i32, u32), VersionError>,
)
    ensures
        spec_newer_systemd_boot(false, from, to) == Ok::<bool, VersionError>(true),
        from is Ok && to is Err ==> spec_newer_systemd_boot(true, from, to) == Ok::<bool, VersionError>(true),
        from matches Err(e) ==> spec_newer_systemd_boot(true, from, to) == Err::<bool, VersionError>(e),
{
}

} // verus!
