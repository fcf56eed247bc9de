//! NixOS generations: the names of generation links and the descriptions shown to users.
use vstd::prelude::*;

use crate::paths::{
    file_name, is_component, is_dot, lemma_path_names_append, parent_file_name, path_names, spec_file_name,
    spec_parent_file_name,
};
use crate::text::{
    chars_to_string, decimal, decimal_chars, digit_char, parse_u64, push_chars, push_str,
    rsplit_once_chars, spec_parse_unsigned, spec_rsplit_once, spec_strip_suffix, str_chars,
    strip_suffix_chars, is_digit, lemma_decimal_digits, lemma_rsplit_at,
};

verus! {

/// Why a generation link name could not be read.
#[derive(Debug, Clone, Copy, PartialEq, Eq, Structural)]
pub enum GenerationError {
    /// The path has no final component.
    MissingFileName,
    /// The name does not end in `-link`.
    MissingLinkSuffix,
    /// No non-empty profile name precedes the version.
    MalformedProfile,
    /// No version number precedes `-link`.
    MalformedVersion,
}

pub open spec fn link_suffix() -> Seq<char> {
    seq!['-', 'l', 'i', 'n', 'k']
}

/// The profile of a link named `{profile}-{version}-link`.
pub open spec fn spec_parse_profile(path: Seq<char>) -> Result<Seq<char>, GenerationError> {
    match spec_file_name(path) {
        None => Err(GenerationError::MissingFileName),
        Some(name) => match spec_strip_suffix(name, link_suffix()) {
            None => Err(GenerationError::MissingLinkSuffix),
            Some(pv) => match spec_rsplit_once(pv, '-') {
                Some((profile, _)) if profile.len() > 0 => Ok(profile),
                _ => Err(GenerationError::MalformedProfile),
            },
        },
    }
}

/// The version of a link named `{profile}-{version}-link`.
pub open spec fn spec_parse_version(path: Seq<char>) -> Result<u64, GenerationError> {
    match spec_file_name(path) {
        None => Err(GenerationError::MissingFileName),
        Some(name) => match spec_strip_suffix(name, link_suffix()) {
            None => Err(GenerationError::MissingLinkSuffix),
            Some(pv) => match spec_rsplit_once(pv, '-') {
                Some((_, v)) => match spec_parse_unsigned(v, u64::MAX as int) {
                    Some(n) => Ok(n as u64),
                    None => Err(GenerationError::MalformedVersion),
                },
                None => Err(GenerationError::MalformedVersion),
            },
        },
    }
}

/// A link that sits in a `system-profiles` directory is not of the default profile.
pub open spec fn spec_is_default_profile(path: Seq<char>) -> bool {
    spec_parent_file_name(path) != Some(seq!['s', 'y', 's', 't', 'e', 'm', '-', 'p', 'r', 'o', 'f', 'i', 'l', 'e', 's'])
}

fn link_suffix_chars() -> (r: Vec<char>)
    ensures
        r@ == link_suffix(),
{
    let r = vec!['-', 'l', 'i', 'n', 'k'];
    assert(r@ =~= link_suffix());
    r
}

/// The file name of a link without its `-link` suffix.
fn profile_and_version(path: &str) -> (r: Result<Vec<char>, GenerationError>)
    ensures
        r matches Ok(v) ==> spec_file_name(path@) matches Some(name) && spec_strip_suffix(
            name,
            link_suffix(),
        ) == Some(v@),
        r matches Err(e) ==> (spec_file_name(path@) is None && e == GenerationError::MissingFileName)
            || (spec_file_name(path@) matches Some(name) && spec_strip_suffix(
            name,
            link_suffix(),
        ) is None && e == GenerationError::MissingLinkSuffix),
{
    let name = match file_name(path) {
        Some(n) => n,
        None => return Err(GenerationError::MissingFileName),
    };
    let nc = str_chars(name.as_str());
    match strip_suffix_chars(&nc, &link_suffix_chars()) {
        Some(v) => Ok(v),
        None => Err(GenerationError::MissingLinkSuffix),
    }
}

/// Parses the profile name from a path of the form `{profile}-{version}-link`.
pub fn parse_profile(path: &str) -> (r: Result<String, GenerationError>)
    ensures
        r matches Ok(s) ==> spec_parse_profile(path@) == Ok::<Seq<char>, GenerationError>(s@),
        r matches Err(e) ==> spec_parse_profile(path@) == Err::<Seq<char>, GenerationError>(e),
{
    let pv = profile_and_version(path)?;
    match rsplit_once_chars(&pv, '-') {
        Some((profile, _)) => {
            if profile.len() > 0 {
                Ok(chars_to_string(&profile))
            } else {
                Err(GenerationError::MalformedProfile)
            }
        },
        None => Err(GenerationError::MalformedProfile),
    }
}

/// Parses the version number from a path of the form `{profile}-{version}-link`.
pub fn parse_version(path: &str) -> (r: Result<u64, GenerationError>)
    ensures
        r matches Ok(v) ==> spec_parse_version(path@) == Ok::<u64, GenerationError>(v),
        r matches Err(e) ==> spec_parse_version(path@) == Err::<u64, GenerationError>(e),
{
    let pv = profile_and_version(path)?;
    match rsplit_once_chars(&pv, '-') {
        Some((_, version)) => match parse_u64(version.as_slice()) {
            Some(n) => Ok(n),
            None => Err(GenerationError::MalformedVersion),
        },
        None => Err(GenerationError::MalformedVersion),
    }
}

/// Whether a generation link belongs to the default profile, i.e. does not sit in a
/// directory named `system-profiles`.
pub fn parse_is_default_profile(path: &str) -> (r: bool)
    ensures
        r == spec_is_default_profile(path@),
{
    match parent_file_name(path) {
        None => true,
        Some(name) => {
            let nc = str_chars(name.as_str());
            let sp = vec!['s', 'y', 's', 't', 'e', 'm', '-', 'p', 'r', 'o', 'f', 'i', 'l', 'e', 's'];
            let ghost target = seq!['s', 'y', 's', 't', 'e', 'm', '-', 'p', 'r', 'o', 'f', 'i', 'l', 'e', 's'];
            assert(sp@ =~= target);
            !crate::strmap::chars_eq(&nc, &sp)
        },
    }
}

/// A calendar date.
#[derive(Debug, Clone, Copy, PartialEq, Eq, Structural)]
pub struct BuildDate {
    pub year: i32,
    pub month: u8,
    pub day: u8,
}

/// `n` in `width` decimal digits, with leading zeros.
pub open spec fn zero_padded(n: nat, width: nat) -> Seq<char>
    decreases width,
{
    if width == 0 {
        Seq::empty()
    } else {
        zero_padded(n / 10, (width - 1) as nat).push(digit_char(n % 10))
    }
}

/// A date as the `time` crate displays it for a year of at most four digits: `YYYY-MM-DD`,
/// with a `-` before a negative year.
pub open spec fn date_text(year: i32, month: u8, day: u8) -> Seq<char> {
    let y: int = year as int;
    (if y < 0 { seq!['-'] } else { Seq::empty() }) + zero_padded((if y < 0 { -y } else { y }) as nat, 4)
        + seq!['-'] + zero_padded(month as nat, 2) + seq!['-'] + zero_padded(day as nat, 2)
}

pub open spec fn is_leap_year(y: int) -> bool {
    (y % 4 == 0 && y % 100 != 0) || y % 400 == 0
}

pub open spec fn days_in_month(y: int, m: int) -> int {
    if m == 2 {
        if is_leap_year(y) {
            29
        } else {
            28
        }
    } else if m == 4 || m == 6 || m == 9 || m == 11 {
        30
    } else {
        31
    }
}

/// Formats a date as the `time` crate displays it (`YYYY-MM-DD`).
///
/// Trusted: calls `time::Date::from_calendar_date` and the crate's `Display` for `Date`. The
/// contract claims what the crate's source shows: a month outside 1..=12 or a day outside the
/// month gives no date, a valid date with a year of at most four digits gives one, written as
/// `date_text` says. Whether years beyond four digits are accepted, and how they are written,
/// depends on a feature of the crate and is left unsaid.
#[verifier::external_body]
fn format_date(year: i32, month: u8, day: u8) -> (r: Option<String>)
    ensures
        (-9999 <= year <= 9999) ==> (r matches Some(s) ==> s@ == date_text(year, month, day)),
        (month < 1 || month > 12 || day < 1 || day > days_in_month(year as int, month as int))
            ==> r is None,
        (-9999 <= year <= 9999 && 1 <= month <= 12 && 1 <= day <= days_in_month(
            year as int,
            month as int,
        )) ==> r is Some,
{
    let m = time::Month::try_from(month).ok()?;
    time::Date::from_calendar_date(year, m, day).ok().map(|d| d.to_string())
}

/// How a date of a generation reads: the date itself, or `Unknown` where it is missing or
/// not a valid date.
pub open spec fn date_or_unknown(d: Option<BuildDate>) -> Seq<char> {
    match d {
        Some(b) if valid_display_date(b) => date_text(b.year, b.month, b.day),
        _ => seq!['U', 'n', 'k', 'n', 'o', 'w', 'n'],
    }
}

pub open spec fn valid_display_date(b: BuildDate) -> bool {
    -9999 <= b.year <= 9999 && 1 <= b.month <= 12 && 1 <= b.day <= days_in_month(
        b.year as int,
        b.month as int,
    )
}

fn unknown_chars() -> (r: Vec<char>)
    ensures
        r@ == seq!['U', 'n', 'k', 'n', 'o', 'w', 'n'],
{
    let r = vec!['U', 'n', 'k', 'n', 'o', 'w', 'n'];
    assert(r@ =~= seq!['U', 'n', 'k', 'n', 'o', 'w', 'n']);
    r
}

/// The date of a build as text, or `Unknown`.
pub fn build_date_text(d: Option<BuildDate>) -> (r: Vec<char>)
    requires
        d matches Some(b) ==> -9999 <= b.year <= 9999,
    ensures
        r@ == date_or_unknown(d),
{
    match d {
        Some(b) => match format_date(b.year, b.month, b.day) {
            Some(s) => str_chars(s.as_str()),
            None => unknown_chars(),
        },
        None => unknown_chars(),
    }
}

/// Nanoseconds in a day.
pub open spec fn nanos_per_day() -> int {
    86_400_000_000_000
}

/// The number of days from 1970-01-01 to a date of the proleptic Gregorian calendar
/// (negative before it).
pub open spec fn days_from_civil(year: int, month: int, day: int) -> int {
    let y = if month <= 2 { year - 1 } else { year };
    let shifted_month = if month > 2 { month - 3 } else { month + 9 };
    365 * y + y / 4 - y / 100 + y / 400 + (153 * shifted_month + 2) / 5 + day - 1 - 719468
}

/// The day, counted from 1970-01-01, of an instant given in nanoseconds since then.
pub open spec fn day_of_unix_nanos(nanos: int) -> int {
    nanos / nanos_per_day()
}

/// Days that the `time` crate can represent: from -9999-01-01 to 9999-12-31.
pub open spec fn representable_day(day: int) -> bool {
    days_from_civil(-9999, 1, 1) <= day <= days_from_civil(9999, 12, 31)
}

/// `b` is the calendar date of the instant `nanos` nanoseconds after 1970-01-01 00:00 UTC.
pub open spec fn is_date_of_unix_nanos(b: BuildDate, nanos: int) -> bool {
    valid_display_date(b) && days_from_civil(b.year as int, b.month as int, b.day as int)
        == day_of_unix_nanos(nanos)
}

/// The UTC calendar date of an instant given in nanoseconds since the Unix epoch.
///
/// Trusted: calls `time::OffsetDateTime::from_unix_timestamp_nanos` and takes the date of the
/// result. The contract claims what the crate's source shows for the crate as it is built here
/// (without its `large-dates` feature): the call succeeds exactly when the instant's second
/// lies between -9999-01-01 00:00:00 and 9999-12-31 23:59:59 UTC, that is, when its day is
/// representable, and the date is then the one whose day number is the floor of the instant
/// divided by a day.
#[verifier::external_body]
fn date_of_unix_nanos(nanos: i128) -> (r: Option<BuildDate>)
    ensures
        r is Some <==> representable_day(day_of_unix_nanos(nanos as int)),
        r matches Some(b) ==> is_date_of_unix_nanos(b, nanos as int),
{
    let date = time::OffsetDateTime::from_unix_timestamp_nanos(nanos).ok()?.date();
    Some(BuildDate { year: date.year(), month: u8::from(date.month()), day: date.day() })
}

/// The date of a generation link from its modification time in nanoseconds since the Unix
/// epoch, where that could be read and the date can be represented.
pub(crate) fn link_date(modified_nanos: Option<i128>) -> (r: Option<BuildDate>)
    ensures
        r is Some <==> (modified_nanos matches Some(n) && representable_day(
            day_of_unix_nanos(n as int),
        )),
        r matches Some(b) ==> (modified_nanos matches Some(n) && is_date_of_unix_nanos(b, n as int)),
{
    match modified_nanos {
        Some(n) => date_of_unix_nanos(n),
        None => None,
    }
}

/// What the installer reads of a generation's boot specification.
#[derive(Debug, Clone)]
pub struct BootSpec {
    /// Label of the system, e.g. `NixOS 23.05`.
    pub label: String,
    /// Path to the kernel image.
    pub kernel: String,
    /// Kernel command line parameters.
    pub kernel_params: Vec<String>,
    /// Path to the init program.
    pub init: String,
    /// Path to the initrd, if there is one.
    pub initrd: Option<String>,
    /// Script that appends secrets to the initrd, if there is one.
    pub initrd_secrets: Option<String>,
    /// The NixOS system double, e.g. `x86_64-linux`.
    pub system: String,
    /// The top-level store path of the generation.
    pub toplevel: String,
}

/// Two boot specifications say the same.
pub open spec fn same_bootspec(a: BootSpec, b: BootSpec) -> bool {
    &&& a.label == b.label
    &&& a.kernel == b.kernel
    &&& a.kernel_params@ == b.kernel_params@
    &&& a.init == b.init
    &&& a.initrd == b.initrd
    &&& a.initrd_secrets == b.initrd_secrets
    &&& a.system == b.system
    &&& a.toplevel == b.toplevel
}

/// The text of an optional string.
pub open spec fn opt_chars(o: Option<String>) -> Option<Seq<char>> {
    match o {
        Some(s) => Some(s@),
        None => None,
    }
}

/// A boot specification as plain values.
pub struct BootSpecModel {
    pub label: Seq<char>,
    pub kernel: Seq<char>,
    pub kernel_params: Seq<Seq<char>>,
    pub init: Seq<char>,
    pub initrd: Option<Seq<char>>,
    pub initrd_secrets: Option<Seq<char>>,
    pub system: Seq<char>,
    pub toplevel: Seq<char>,
}

impl View for BootSpec {
    type V = BootSpecModel;

    open spec fn view(&self) -> BootSpecModel {
        BootSpecModel {
            label: self.label@,
            kernel: self.kernel@,
            kernel_params: crate::text::strings_view(self.kernel_params@),
            init: self.init@,
            initrd: opt_chars(self.initrd),
            initrd_secrets: opt_chars(self.initrd_secrets),
            system: self.system@,
            toplevel: self.toplevel@,
        }
    }
}

fn copy_opt(o: &Option<String>) -> (r: Option<String>)
    ensures
        r == *o,
{
    match o {
        Some(s) => Some(s.clone()),
        None => None,
    }
}

impl BootSpec {
    /// A copy of the boot specification.
    pub fn duplicate(&self) -> (r: Self)
        ensures
            same_bootspec(r, *self),
    {
        BootSpec {
            label: self.label.clone(),
            kernel: self.kernel.clone(),
            kernel_params: crate::pe::strings_to_vec(self.kernel_params.as_slice()),
            init: self.init.clone(),
            initrd: copy_opt(&self.initrd),
            initrd_secrets: copy_opt(&self.initrd_secrets),
            system: self.system.clone(),
            toplevel: self.toplevel.clone(),
        }
    }
}

/// The extension of the boot specification that this project reads.
#[derive(Debug, Clone)]
pub struct LanzabooteExtension {
    pub sort_key: String,
}

impl LanzabooteExtension {
    /// The default sort key, `lanzaboote`.
    pub fn default() -> (r: Self)
        ensures
            r.sort_key@ == seq!['l', 'a', 'n', 'z', 'a', 'b', 'o', 'o', 't', 'e'],
    {
        let v = vec!['l', 'a', 'n', 'z', 'a', 'b', 'o', 'o', 't', 'e'];
        assert(v@ =~= seq!['l', 'a', 'n', 'z', 'a', 'b', 'o', 'o', 't', 'e']);
        LanzabooteExtension { sort_key: chars_to_string(&v) }
    }
}

/// A boot specification with its extension.
#[derive(Debug, Clone)]
pub struct ExtendedBootJson {
    pub bootspec: BootSpec,
    pub lanzaboote_extension: LanzabooteExtension,
}

/// A system configuration, built from a generation link and its boot specification.
#[derive(Debug, Clone)]
pub struct Generation {
    /// Profile symlink name.
    pub profile: String,
    /// Whether this generation comes from the default profile.
    pub is_default_profile: bool,
    /// Profile symlink index.
    pub version: u64,
    /// Build time of the generation.
    pub build_time: Option<BuildDate>,
    /// Top-level specialisation name.
    pub specialisation_name: Option<String>,
    /// The extended boot specification.
    pub spec: ExtendedBootJson,
}

/// `-{name}` for a specialisation, empty otherwise.
pub open spec fn specialisation_suffix(s: Option<String>) -> Seq<char> {
    match s {
        Some(n) => seq!['-'] + n@,
        None => Seq::empty(),
    }
}

pub open spec fn generation_word() -> Seq<char> {
    seq!['G', 'e', 'n', 'e', 'r', 'a', 't', 'i', 'o', 'n', ' ']
}

impl Generation {
    /// `Generation {version}{-specialisation}, {date}`.
    pub open spec fn spec_describe(&self) -> Seq<char> {
        generation_word() + decimal(self.version as nat) + specialisation_suffix(
            self.specialisation_name,
        ) + seq![',', ' '] + date_or_unknown(self.build_time)
    }

    /// Empty for the default profile, ` [{profile}]` otherwise.
    pub open spec fn spec_describe_profile(&self) -> Seq<char> {
        if self.is_default_profile {
            Seq::empty()
        } else {
            seq![' ', '['] + self.profile@ + seq![']']
        }
    }

    /// `{version}{-specialisation}`.
    pub open spec fn spec_version_tag(&self) -> Seq<char> {
        decimal(self.version as nat) + specialisation_suffix(self.specialisation_name)
    }

    /// The build date can be displayed if it is valid.
    pub open spec fn wf(&self) -> bool {
        self.build_time matches Some(b) ==> -9999 <= b.year <= 9999
    }

    fn describe_specialisation(&self) -> (r: Vec<char>)
        ensures
            r@ == specialisation_suffix(self.specialisation_name),
    {
        let mut r: Vec<char> = Vec::new();
        match &self.specialisation_name {
            Some(name) => {
                r.push('-');
                push_str(&mut r, name.as_str());
            },
            None => {},
        }
        r
    }

    /// Describes the generation's profile for humans.
    pub fn describe_profile(&self) -> (r: String)
        ensures
            r@ == self.spec_describe_profile(),
    {
        let mut r: Vec<char> = Vec::new();
        if !self.is_default_profile {
            r.push(' ');
            r.push('[');
            push_str(&mut r, self.profile.as_str());
            r.push(']');
            assert(r@ =~= self.spec_describe_profile());
        }
        chars_to_string(&r)
    }

    /// Describes the generation in a single line for humans.
    pub fn describe(&self) -> (r: String)
        requires
            self.wf(),
        ensures
            r@ == self.spec_describe(),
    {
        let mut r = vec!['G', 'e', 'n', 'e', 'r', 'a', 't', 'i', 'o', 'n', ' '];
        assert(r@ =~= generation_word());
        push_chars(&mut r, &decimal_chars(self.version));
        push_chars(&mut r, &self.describe_specialisation());
        r.push(',');
        r.push(' ');
        push_chars(&mut r, &build_date_text(self.build_time));
        assert(r@ =~= self.spec_describe());
        chars_to_string(&r)
    }

    /// A unique short identifier: the version and the specialisation.
    pub fn version_tag(&self) -> (r: String)
        ensures
            r@ == self.spec_version_tag(),
    {
        let mut r = decimal_chars(self.version);
        push_chars(&mut r, &self.describe_specialisation());
        chars_to_string(&r)
    }
}

/// A link pointing to a generation; its name encodes the profile and the version.
#[derive(Debug, Clone)]
pub struct GenerationLink {
    pub profile: String,
    pub is_default_profile: bool,
    pub version: u64,
    pub path: String,
    pub link_time: Option<BuildDate>,
}

impl GenerationLink {
    /// Reads the profile and version from the link's path; `modified_nanos` is the link's
    /// modification time in nanoseconds since the Unix epoch, where it could be read, and
    /// gives the link's date.
    pub fn from_path(path: &str, modified_nanos: Option<i128>) -> (r: Result<Self, GenerationError>)
        ensures
            r matches Ok(l) ==> spec_parse_profile(path@) == Ok::<Seq<char>, GenerationError>(
                l.profile@,
            ) && spec_parse_version(path@) == Ok::<u64, GenerationError>(l.version)
                && l.is_default_profile == spec_is_default_profile(path@) && l.path@ == path@,
            r matches Ok(l) ==> (l.link_time is Some <==> (modified_nanos matches Some(n)
                && representable_day(day_of_unix_nanos(n as int)))),
            r matches Ok(l) ==> (l.link_time matches Some(b) ==> (modified_nanos matches Some(n)
                && is_date_of_unix_nanos(b, n as int))),
            spec_parse_profile(path@) is Ok && spec_parse_version(path@) is Ok ==> r is Ok,
            r matches Err(e) ==> spec_parse_profile(path@) == Err::<Seq<char>, GenerationError>(e)
                || (spec_parse_profile(path@) is Ok && spec_parse_version(path@) == Err::<
                u64,
                GenerationError,
            >(e)),
    {
        let profile = parse_profile(path)?;
        let version = parse_version(path)?;
        Ok(GenerationLink {
            profile,
            is_default_profile: parse_is_default_profile(path),
            version,
            path: chars_to_string(&str_chars(path)),
            link_time: link_date(modified_nanos),
        })
    }
}

impl Generation {
    /// The generation that a link points to, with the boot specification found there.
    pub fn from_link(link: &GenerationLink, spec: ExtendedBootJson) -> (r: Self)
        ensures
            r.profile == link.profile,
            r.is_default_profile == link.is_default_profile,
            r.version == link.version,
            r.build_time == link.link_time,
            r.specialisation_name is None,
            r.spec == spec,
    {
        Generation {
            profile: link.profile.clone(),
            is_default_profile: link.is_default_profile,
            version: link.version,
            build_time: link.link_time,
            specialisation_name: None,
            spec,
        }
    }

    /// The generation of a specialisation of this link.
    pub fn from_specialisation(link: &GenerationLink, name: String, spec: ExtendedBootJson) -> (r:
        Self)
        ensures
            r.profile == link.profile,
            r.is_default_profile == link.is_default_profile,
            r.version == link.version,
            r.build_time == link.link_time,
            r.specialisation_name == Some(name),
            r.spec == spec,
    {
        Generation {
            profile: link.profile.clone(),
            is_default_profile: link.is_default_profile,
            version: link.version,
            build_time: link.link_time,
            specialisation_name: Some(name),
            spec,
        }
    }
}

/// A link named `{profile}-{version}-link` gives back its version and its profile, whatever
/// dashes the profile holds: the version is the number after the last dash.
pub proof fn law_link_name_round_trip(dir: Seq<char>, profile: Seq<char>, version: u64)
    requires
        profile.len() > 0,
        forall|i: int| 0 <= i < profile.len() ==> profile[i] != '/',
    ensures
        ({
            let path = dir + seq!['/'] + profile + seq!['-'] + decimal(version as nat) + seq!['-', 'l', 'i', 'n', 'k'];
            &&& spec_parse_version(path) == Ok::<u64, GenerationError>(version)
            &&& spec_parse_profile(path) == Ok::<Seq<char>, GenerationError>(profile)
        }),
{
    let digits = decimal(version as nat);
    lemma_decimal_digits(version as nat);
    let pv = profile + seq!['-'] + digits;
    let name = pv + seq!['-', 'l', 'i', 'n', 'k'];
    assert forall|i: int| 0 <= i < name.len() implies name[i] != '/' by {
        if i < profile.len() {
            assert(name[i] == profile[i]);
        } else if profile.len() < i < pv.len() {
            assert(name[i] == digits[i - profile.len() - 1]);
            assert(is_digit(digits[i - profile.len() - 1]));
        }
    }
    assert(!is_dot(name));
    lemma_path_names_append(dir, name);
    assert(dir + seq!['/'] + profile + seq!['-'] + digits + seq!['-', 'l', 'i', 'n', 'k'] =~= dir + seq!['/'] + name);
    assert(spec_file_name(dir + seq!['/'] + name) == Some(name));
    assert(name.skip(name.len() - 5) =~= seq!['-', 'l', 'i', 'n', 'k']);
    assert(name.take(name.len() - 5) =~= pv);
    assert(spec_strip_suffix(name, link_suffix()) == Some(pv));
    assert forall|j: int| profile.len() < j < pv.len() implies pv[j] != '-' by {
        assert(pv[j] == digits[j - profile.len() - 1]);
        assert(is_digit(digits[j - profile.len() - 1]));
    }
    lemma_rsplit_at(pv, '-', profile.len() as int);
    assert(pv.take(profile.len() as int) =~= profile);
    assert(pv.subrange(profile.len() as int + 1, pv.len() as int) =~= digits);
    assert(is_digit(digits[0]));
}

/// A link is of the default profile exactly when the directory it sits in is not named
/// `system-profiles`.
pub proof fn law_default_profile_by_directory(root: Seq<char>, dir: Seq<char>, name: Seq<char>)
    requires
        is_component(dir),
        is_component(name),
    ensures
        spec_is_default_profile(root + seq!['/'] + dir + seq!['/'] + name) == (dir != seq![
            's', 'y', 's', 't', 'e', 'm', '-', 'p', 'r', 'o', 'f', 'i', 'l', 'e', 's',
        ]),
{
    lemma_path_names_append(root, dir);
    lemma_path_names_append(root + seq!['/'] + dir, name);
    let ns = path_names(root).push(dir).push(name);
    assert(ns[ns.len() - 2] == dir);
}

} // verus!
