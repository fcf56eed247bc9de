//! The order of systemd versions: by major, then minor, then patch component.
use core::cmp::Ordering;
use vstd::prelude::*;
use vstd::std_specs::cmp::PartialOrdSpecImpl;

use crate::legacy_version::SystemdVersion as LegacySystemdVersion;
use crate::version::SystemdVersion;

verus! {

/// Whether version triple `a` comes before `b`: by major, then minor, then patch component.
pub open spec fn version_less(a: (u32, i32, u32), b: (u32, i32, u32)) -> bool {
    ||| a.0 < b.0
    ||| a.0 == b.0 && a.1 < b.1
    ||| a.0 == b.0 && a.1 == b.1 && a.2 < b.2
}

/// Three-way comparison of two version triples.
pub open spec fn compare_versions(a: (u32, i32, u32), b: (u32, i32, u32)) -> Ordering {
    if version_less(a, b) {
        Ordering::Less
    } else if a == b {
        Ordering::Equal
    } else {
        Ordering::Greater
    }
}

impl PartialOrd for SystemdVersion {
    fn partial_cmp(&self, other: &Self) -> (r: Option<Ordering>) {
        if self.major != other.major {
            if self.major < other.major { Some(Ordering::Less) } else { Some(Ordering::Greater) }
        } else if self.minor != other.minor {
            if self.minor < other.minor { Some(Ordering::Less) } else { Some(Ordering::Greater) }
        } else if self.patch < other.patch {
            Some(Ordering::Less)
        } else if self.patch == other.patch {
            Some(Ordering::Equal)
        } else {
            Some(Ordering::Greater)
        }
    }
}

impl PartialOrdSpecImpl for SystemdVersion {
    open spec fn obeys_partial_cmp_spec() -> bool {
        true
    }

    open spec fn partial_cmp_spec(&self, other: &Self) -> Option<Ordering> {
        Some(compare_versions(self@, other@))
    }
}

/// Whether version pair `a` comes before `b`: by major, then minor number.
pub open spec fn legacy_version_less(a: (u32, u32), b: (u32, u32)) -> bool {
    a.0 < b.0 || (a.0 == b.0 && a.1 < b.1)
}

/// Three-way comparison of two version pairs.
pub open spec fn compare_legacy_versions(a: (u32, u32), b: (u32, u32)) -> Ordering {
    if legacy_version_less(a, b) {
        Ordering::Less
    } else if a == b {
        Ordering::Equal
    } else {
        Ordering::Greater
    }
}

impl PartialOrd for LegacySystemdVersion {
    fn partial_cmp(&self, other: &Self) -> (r: Option<Ordering>) {
        if self.0 != other.0 {
            if self.0 < other.0 { Some(Ordering::Less) } else { Some(Ordering::Greater) }
        } else if self.1 < other.1 {
            Some(Ordering::Less)
        } else if self.1 == other.1 {
            Some(Ordering::Equal)
        } else {
            Some(Ordering::Greater)
        }
    }
}

impl PartialOrdSpecImpl for LegacySystemdVersion {
    open spec fn obeys_partial_cmp_spec() -> bool {
        true
    }

    open spec fn partial_cmp_spec(&self, other: &Self) -> Option<Ordering> {
        Some(compare_legacy_versions(self@, other@))
    }
}

/// A release candidate of a major version (`major-rcN`, taken as `major.-1.N`) comes before
/// every release of that major version, whatever its minor and patch components.
pub proof fn law_release_candidate_precedes_release(major: u32, rc: u32, minor: i32, patch: u32)
    requires
        minor >= 0,
    ensures
        compare_versions((major, -1i32, rc), (major, minor, patch)) == Ordering::Less,
        compare_versions((major, minor, patch), (major, -1i32, rc)) == Ordering::Greater,
{
}

/// Versions are totally ordered: of two versions exactly one comes first, unless they are
/// the same, and comparing them the other way round gives the opposite answer.
pub proof fn law_version_order_total(a: (u32, i32, u32), b: (u32, i32, u32))
    ensures
        a == b <==> compare_versions(a, b) == Ordering::Equal,
        compare_versions(a, b) == Ordering::Less <==> compare_versions(b, a) == Ordering::Greater,
        !(version_less(a, b) && version_less(b, a)),
{
}

/// The version order is transitive.
pub proof fn law_version_order_transitive(a: (u32, i32, u32), b: (u32, i32, u32), c: (u32, i32, u32))
    requires
        version_less(a, b),
        version_less(b, c),
    ensures
        version_less(a, c),
{
}

/// The order of legacy versions is total and transitive in the same way.
pub proof fn law_legacy_version_order(a: (u32, u32), b: (u32, u32), c: (u32, u32))
    ensures
        a == b <==> compare_legacy_versions(a, b) == Ordering::Equal,
        compare_legacy_versions(a, b) == Ordering::Less <==> compare_legacy_versions(b, a)
            == Ordering::Greater,
        legacy_version_less(a, b) && legacy_version_less(b, c) ==> legacy_version_less(a, c),
{
}

} // verus!
