//! Reading a generation's `boot.json`: the boot specification, its specialisations and the
//! sort key of the lanzaboote extension.
use vstd::prelude::*;

use std::path::Path;

use bootspec::v1::{BootSpecV1, GenerationV1};
use bootspec::BootJson;

use crate::generation::{opt_chars, BootSpec, BootSpecModel, ExtendedBootJson, Generation, GenerationLink, LanzabooteExtension};
use crate::text::strings_view;

verus! {

/// What the `bootspec` crate reads, with `serde_json`, from a `boot.json` document, where it
/// reads it: the generation's boot specification and those of its specialisations, by name.
pub uninterp spec fn parsed_boot_json(raw: Seq<u8>) -> Option<(BootSpecModel, Map<Seq<char>, BootSpecModel>)>;

/// The string that `serde_json` finds in the JSON document `raw` by following the object
/// members named `keys` from its root, where the document parses and a string is there.
pub uninterp spec fn json_string_at(raw: Seq<u8>, keys: Seq<Seq<char>>) -> Option<Seq<char>>;

/// The specialisations handed out are exactly those of the document, each once.
pub open spec fn lists_specialisations(v: Seq<(String, BootSpec)>, m: Map<Seq<char>, BootSpecModel>) -> bool {
    &&& forall|i: int| 0 <= i < v.len() ==> #[trigger] m.contains_key(v[i].0@) && m[v[i].0@] == v[i].1@
    &&& forall|i: int, j: int| 0 <= i < j < v.len() ==> v[i].0@ != v[j].0@
    &&& forall|n: Seq<char>| #[trigger] m.contains_key(n) ==> exists|i: int| 0 <= i < v.len() && v[i].0@ == n
}

/// Parses a `boot.json` document.
///
/// Trusted: calls `serde_json::from_slice` into `bootspec::BootJson` and converts its generation
/// into the current `bootspec::BootSpec` with `try_into`. The contract claims that the result
/// is `None` exactly where the name says so, and that otherwise it holds the named boot
/// specifications. Paths are written as text without loss, as they were read from JSON
/// strings. The order in which the specialisations come out is that of a `HashMap` walk and
/// is left unsaid; each comes once.
#[verifier::external_body]
pub(crate) fn parse_boot_json(raw: &[u8]) -> (r: Option<(BootSpec, Vec<(String, BootSpec)>)>)
    ensures
        r is Some <==> parsed_boot_json(raw@) is Some,
        r matches Some((b, v)) ==> (parsed_boot_json(raw@) matches Some((mb, ms)) && b@ == mb
            && lists_specialisations(v@, ms)),
{
    let json: BootJson = serde_json::from_slice(raw).ok()?;
    let g = GenerationV1::try_from(json.generation).ok()?;
    let t = |p: &Path| p.display().to_string();
    let spec = |b: BootSpecV1| BootSpec {
        label: b.label, kernel: t(&b.kernel), kernel_params: b.kernel_params, init: t(&b.init),
        initrd: b.initrd.as_deref().map(t), initrd_secrets: b.initrd_secrets.as_deref().map(t),
        system: b.system, toplevel: t(&b.toplevel.0),
    };
    let s = g.specialisations.into_iter().map(|(n, x)| (n.0, spec(x.generation.bootspec)));
    Some((spec(g.bootspec), s.collect()))
}

/// The string at `keys` in the JSON document `raw`.
///
/// Trusted: calls `serde_json::from_slice` into a `serde_json::Value` and follows the members
/// named `keys` with `Value::get`, then takes the string there with `Value::as_str`. The
/// contract claims that the result is the named one.
#[verifier::external_body]
fn json_string(raw: &[u8], keys: &[String]) -> (r: Option<String>)
    ensures
        opt_chars(r) == json_string_at(raw@, strings_view(keys@)),
{
    let json: serde_json::Value = serde_json::from_slice(raw).ok()?;
    Some(keys.iter().try_fold(&json, |v, k| v.get(k.as_str()))?.as_str()?.to_owned())
}

/// The name of the lanzaboote extension.
pub open spec fn lanzaboote_extension_name() -> Seq<char> {
    "org.nix-community.lanzaboote"@
}

/// The member of a boot specification that holds its specialisations.
pub open spec fn specialisations_member() -> Seq<char> {
    "org.nixos.specialisation.v1"@
}

/// Where the sort key of the lanzaboote extension lies in a `boot.json` document: at the top
/// for the generation itself, under the specialisation's name for a specialisation.
pub open spec fn sort_key_path(name: Option<Seq<char>>) -> Seq<Seq<char>> {
    match name {
        None => seq![lanzaboote_extension_name(), "sort_key"@],
        Some(n) => seq![specialisations_member(), n, lanzaboote_extension_name(), "sort_key"@],
    }
}

/// The sort key of a generation: that of its lanzaboote extension, `lanzaboote` by default.
pub open spec fn sort_key_or_default(k: Option<Seq<char>>) -> Seq<char> {
    match k {
        Some(s) => s,
        None => seq!['l', 'a', 'n', 'z', 'a', 'b', 'o', 'o', 't', 'e'],
    }
}

/// The sort key of the generation (or of its specialisation `name`) in the document `raw`.
pub open spec fn sort_key_in(raw: Seq<u8>, name: Option<Seq<char>>) -> Seq<char> {
    sort_key_or_default(json_string_at(raw, sort_key_path(name)))
}

/// The lanzaboote extension of the generation (or of its specialisation `name`) in `raw`.
fn extension_in(raw: &[u8], name: Option<&String>) -> (r: LanzabooteExtension)
    ensures
        r.sort_key@ == sort_key_in(raw@, match name { Some(n) => Some(n@), None => None }),
{
    let mut keys: Vec<String> = Vec::new();
    proof {
        reveal_strlit("org.nixos.specialisation.v1");
        reveal_strlit("org.nix-community.lanzaboote");
        reveal_strlit("sort_key");
    }
    match name {
        Some(n) => {
            keys.push("org.nixos.specialisation.v1".to_owned());
            keys.push(n.clone());
        },
        None => {},
    }
    keys.push("org.nix-community.lanzaboote".to_owned());
    keys.push("sort_key".to_owned());
    assert(strings_view(keys@) =~= sort_key_path(match name { Some(n) => Some(n@), None => None }));
    match json_string(raw, keys.as_slice()) {
        Some(sort_key) => LanzabooteExtension { sort_key },
        None => LanzabooteExtension::default(),
    }
}

/// `g` is the generation of `link` (or of its specialisation `name`) with the boot
/// specification `b` and the sort key `sort_key`.
pub open spec fn generation_of(
    g: Generation,
    link: GenerationLink,
    name: Option<Seq<char>>,
    b: BootSpecModel,
    sort_key: Seq<char>,
) -> bool {
    &&& g.profile == link.profile
    &&& g.is_default_profile == link.is_default_profile
    &&& g.version == link.version
    &&& g.build_time == link.link_time
    &&& opt_chars(g.specialisation_name) == name
    &&& g.spec.bootspec@ == b
    &&& g.spec.lanzaboote_extension.sort_key@ == sort_key
}

/// The name of a specialisation's generation.
pub open spec fn specialisation_of(g: Generation) -> Seq<char> {
    match g.specialisation_name {
        Some(n) => n@,
        None => Seq::empty(),
    }
}

/// The specialisations built from the document `raw` are exactly those it lists, each once.
pub open spec fn specialised_generations(
    s: Seq<Generation>,
    link: GenerationLink,
    m: Map<Seq<char>, BootSpecModel>,
    raw: Seq<u8>,
) -> bool {
    &&& forall|i: int|
        0 <= i < s.len() ==> {
            let n = specialisation_of(#[trigger] s[i]);
            &&& s[i].specialisation_name is Some
            &&& m.contains_key(n)
            &&& generation_of(s[i], link, Some(n), m[n], sort_key_in(raw, Some(n)))
        }
    &&& forall|i: int, j: int|
        0 <= i < j < s.len() ==> opt_chars(s[i].specialisation_name) != opt_chars(
            s[j].specialisation_name,
        )
    &&& forall|n: Seq<char>|
        #[trigger] m.contains_key(n) ==> exists|i: int|
            0 <= i < s.len() && opt_chars(s[i].specialisation_name) == Some(n)
}

impl Generation {
    /// The generation that a link points to, and its specialisations, read from the
    /// `boot.json` document `raw` found there; `None` where the document cannot be read as a
    /// boot specification.
    pub fn from_boot_json(link: &GenerationLink, raw: &[u8]) -> (r: Option<(Generation, Vec<Generation>)>)
        ensures
            r is Some <==> parsed_boot_json(raw@) is Some,
            r matches Some((g, s)) ==> (parsed_boot_json(raw@) matches Some((mb, ms))
                && generation_of(g, *link, None, mb, sort_key_in(raw@, None))
                && specialised_generations(s@, *link, ms, raw@)),
    {
        let (bootspec, specialisations) = match parse_boot_json(raw) {
            Some(d) => d,
            None => return None,
        };
        let ghost ms = parsed_boot_json(raw@).unwrap().1;
        let top = Generation::from_link(link, ExtendedBootJson { bootspec, lanzaboote_extension: extension_in(raw, None) });
        let mut out: Vec<Generation> = Vec::new();
        let mut i: usize = 0;
        while i < specialisations.len()
            invariant
                i <= specialisations.len(),
                out.len() == i,
                lists_specialisations(specialisations@, ms),
                forall|j: int|
                    0 <= j < i ==> (#[trigger] out@[j]).specialisation_name == Some(specialisations@[j].0)
                        && generation_of(
                        out@[j],
                        *link,
                        Some(specialisations@[j].0@),
                        specialisations@[j].1@,
                        sort_key_in(raw@, Some(specialisations@[j].0@)),
                    ),
            decreases specialisations.len() - i,
        {
            let entry = &specialisations[i];
            let extension = extension_in(raw, Some(&entry.0));
            let g = Generation::from_specialisation(link, entry.0.clone(), ExtendedBootJson {
                bootspec: entry.1.duplicate(),
                lanzaboote_extension: extension,
            });
            out.push(g);
            i += 1;
        }
        proof {
            assert forall|n: Seq<char>| #[trigger] ms.contains_key(n) implies exists|j: int|
                0 <= j < out@.len() && opt_chars(out@[j].specialisation_name) == Some(n) by {
                let j = choose|j: int| 0 <= j < specialisations@.len() && specialisations@[j].0@ == n;
                assert(out@[j].specialisation_name == Some(specialisations@[j].0));
            }
            assert forall|a: int, b: int| 0 <= a < b < out@.len() implies opt_chars(
                out@[a].specialisation_name,
            ) != opt_chars(out@[b].specialisation_name) by {
                assert(out@[a].specialisation_name == Some(specialisations@[a].0));
                assert(out@[b].specialisation_name == Some(specialisations@[b].0));
            }
            assert forall|j: int| 0 <= j < out@.len() implies {
                let n = specialisation_of(#[trigger] out@[j]);
                &&& out@[j].specialisation_name is Some
                &&& ms.contains_key(n)
                &&& generation_of(out@[j], *link, Some(n), ms[n], sort_key_in(raw@, Some(n)))
            } by {
                assert(out@[j].specialisation_name == Some(specialisations@[j].0));
                assert(ms.contains_key(specialisations@[j].0@));
            }
        }
        Some((top, out))
    }
}

} // verus!
