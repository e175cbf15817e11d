use vstd::prelude::*;
use std::cmp::Ordering;
use vstd::string::*;

use crate::decimal::{decimal, parse_u64, parse_u64_spec, push_decimal};
use crate::fields::{chars_of, field, field_start, find_char, has_field, lemma_find_from_bounds, remove_char, without_char};

verus! {

/// A version of the form `[v]MAJOR.MINOR.PATCH[_BUILD[_PRE]]`.
///
/// Equality and order look at `(major, minor, patch)` alone: two versions
/// that differ only in `pre` or `build` are equal.
#[derive(Debug, Clone)]
pub struct DwVersion {
    pub has_prefix: bool,
    pub major: u64,
    pub minor: u64,
    pub patch: u64,
    pub pre: Option<String>,
    pub build: Option<u64>,
}

/// The value a `DwVersion` stands for, with its label as characters.
pub struct VersionView {
    pub has_prefix: bool,
    pub major: u64,
    pub minor: u64,
    pub patch: u64,
    pub pre: Option<Seq<char>>,
    pub build: Option<u64>,
}

impl View for DwVersion {
    type V = VersionView;

    open spec fn view(&self) -> VersionView {
        VersionView {
            has_prefix: self.has_prefix,
            major: self.major,
            minor: self.minor,
            patch: self.patch,
            pre: match self.pre {
                Some(p) => Some(p@),
                None => None,
            },
            build: self.build,
        }
    }
}

/// A number of the numeric core: what `u64::from_str` reads, or 0 where it fails.
pub open spec fn lenient_u64(s: Seq<char>) -> u64 {
    match parse_u64_spec(s) {
        Some(n) => n,
        None => 0,
    }
}

/// The text before the first `_`.
pub open spec fn core_of(s: Seq<char>) -> Seq<char> {
    field(s, '_', 0)
}

/// What the numeric core says, with neither build nor label.
pub open spec fn core_version(core: Seq<char>) -> VersionView {
    let head = field(core, '.', 0);
    VersionView {
        has_prefix: head.contains('v'),
        major: lenient_u64(remove_char(head, 'v')),
        minor: if has_field(core, '.', 1) {
            lenient_u64(field(core, '.', 1))
        } else {
            0
        },
        patch: if has_field(core, '.', 2) {
            lenient_u64(field(core, '.', 2))
        } else {
            0
        },
        pre: None,
        build: None,
    }
}

/// The version that `s` denotes, or `None` where its build segment is not a number.
///
/// The text is cut at each `_`: the first piece is the numeric core, the
/// second the build number, the third the label; later pieces are ignored.
/// The core is cut at each `.` into major, minor and patch; a missing or
/// unreadable one counts as 0, and every `v` in the major piece is dropped
/// and marks the prefix. A build with no label after it leaves the label
/// unset.
pub open spec fn parse_spec(s: Seq<char>) -> Option<VersionView> {
    let base = core_version(core_of(s));
    if !has_field(s, '_', 1) {
        Some(base)
    } else {
        match parse_u64_spec(field(s, '_', 1)) {
            None => None,
            Some(b) => Some(
                VersionView {
                    build: Some(b),
                    pre: if has_field(s, '_', 2) {
                        Some(field(s, '_', 2))
                    } else {
                        None
                    },
                    ..base
                },
            ),
        }
    }
}

/// The text of a version: `v` when prefixed, `MAJOR.MINOR.PATCH`, then `_BUILD`
/// when a build is set and `_PRE` when a label is set, in that order.
pub open spec fn render(v: VersionView) -> Seq<char> {
    (if v.has_prefix {
        seq!['v']
    } else {
        Seq::empty()
    }) + decimal(v.major as nat) + seq!['.'] + decimal(v.minor as nat) + seq!['.'] + decimal(
        v.patch as nat,
    ) + match v.build {
        Some(b) => seq!['_'] + decimal(b as nat),
        None => Seq::empty(),
    } + match v.pre {
        Some(p) => seq!['_'] + p,
        None => Seq::empty(),
    }
}

/// The order of versions: by major, then minor, then patch; label and
/// build play no part.
pub open spec fn compare(a: VersionView, b: VersionView) -> Ordering {
    if a.major != b.major {
        if a.major < b.major {
            Ordering::Less
        } else {
            Ordering::Greater
        }
    } else if a.minor != b.minor {
        if a.minor < b.minor {
            Ordering::Less
        } else {
            Ordering::Greater
        }
    } else if a.patch != b.patch {
        if a.patch < b.patch {
            Ordering::Less
        } else {
            Ordering::Greater
        }
    } else {
        Ordering::Equal
    }
}

/// Whether two versions agree on major, minor and patch.
pub open spec fn same_number(a: VersionView, b: VersionView) -> bool {
    a.major == b.major && a.minor == b.minor && a.patch == b.patch
}

pub open spec fn bump_major(v: VersionView) -> VersionView {
    VersionView { major: (v.major + 1) as u64, ..v }
}

pub open spec fn bump_minor(v: VersionView) -> VersionView {
    VersionView { minor: (v.minor + 1) as u64, ..v }
}

pub open spec fn bump_patch(v: VersionView) -> VersionView {
    VersionView { patch: (v.patch + 1) as u64, ..v }
}

/// The build number that the date `year`-`month`-`day` gives when written
/// as `YYYYMMDD` and read back as a number.
pub open spec fn date_build(year: nat, month: nat, day: nat) -> nat {
    year * 10000 + month * 100 + day
}

/// The shape that a version handed in by hand must have: an optional `v`,
/// three dot-separated numbers and an optional run of word characters.
pub const VERSION_PATTERN: &'static str = r"^v?\d+\.\d+\.\d+(\w*)?$";

/// Whether the regular expression `pattern` matches somewhere in `haystack`,
/// as the `regex` crate decides it.
pub uninterp spec fn regex_matches(pattern: Seq<char>, haystack: Seq<char>) -> bool;

/// Relies on `regex::Regex::new` and `regex::Regex::is_match`: whether the
/// pattern matches the text. The one pattern admitted is known to compile.
#[verifier::external_body]
fn regex_is_match(pattern: &str, haystack: &str) -> (r: bool)
    requires
        pattern@ == VERSION_PATTERN@,
    ensures
        r == regex_matches(pattern@, haystack@),
{
    regex::Regex::new(pattern).unwrap().is_match(haystack)
}

/// Relies on `std::time::SystemTime::now` and `SystemTime::duration_since`:
/// whole seconds since 1970-01-01 UTC by the system clock, `None` when the
/// clock is set before then.
#[verifier::external_body]
fn seconds_since_epoch() -> (r: Option<u64>) {
    match std::time::SystemTime::now().duration_since(std::time::UNIX_EPOCH) {
        Ok(d) => Some(d.as_secs()),
        Err(_) => None,
    }
}

/// Relies on `chrono::DateTime::from_timestamp` and `chrono::Datelike`: the
/// UTC date of a Unix time as year, month (1 to 12) and day (1 to 31);
/// `None` where chrono cannot represent it.
#[verifier::external_body]
fn utc_date(secs: i64) -> (r: Option<(i32, u32, u32)>)
    ensures
        match r {
            Some(date) => 1 <= date.1 <= 12 && 1 <= date.2 <= 31,
            None => true,
        },
{
    match chrono::DateTime::from_timestamp(secs, 0) {
        Some(t) => Some(
            (chrono::Datelike::year(&t), chrono::Datelike::month(&t), chrono::Datelike::day(&t)),
        ),
        None => None,
    }
}

fn or_zero(r: Option<u64>) -> (n: u64)
    ensures
        n == match r {
            Some(v) => v,
            None => 0u64,
        },
{
    match r {
        Some(v) => v,
        None => 0,
    }
}

impl DwVersion {
    /// Reads a version; `None` where a build segment is present and is not a
    /// 64-bit unsigned number.
    pub fn parse(param_version: &str) -> (r: Option<DwVersion>)
        ensures
            r is Some <==> parse_spec(param_version@) is Some,
            r is Some ==> parse_spec(param_version@) == Some(r->0@),
    {
        let s = chars_of(param_version);
        let n = s.len();
        let ghost t = s@;
        assert(t.subrange(0, n as int) =~= t);
        let e0 = find_char(&s, '_', 0, n);
        let ghost core = t.subrange(0, e0 as int);
        assert(core == core_of(t)) by {
            assert(field_start(t, '_', 0) == 0);
        }
        let d0 = find_char(&s, '.', 0, e0);
        proof {
            lemma_find_from_bounds(core, '.', 0);
            assert(field_start(core, '.', 0) == 0);
            assert(field(core, '.', 0) =~= t.subrange(0, d0 as int));
            assert(field_start(core, '.', 1) == d0 + 1);
        }
        let (head, has_prefix) = without_char(&s, 'v', 0, d0);
        assert(head@.subrange(0, head.len() as int) =~= head@);
        let major = or_zero(parse_u64(&head, 0, head.len()));
        let mut minor: u64 = 0;
        let mut patch: u64 = 0;
        if d0 < e0 {
            let d1 = find_char(&s, '.', d0 + 1, e0);
            proof {
                assert(core.subrange(0, e0 as int) =~= core);
                assert(field(core, '.', 1) =~= t.subrange(d0 + 1, d1 as int));
                assert(field_start(core, '.', 2) == d1 + 1);
            }
            minor = or_zero(parse_u64(&s, d0 + 1, d1));
            if d1 < e0 {
                let d2 = find_char(&s, '.', d1 + 1, e0);
                assert(field(core, '.', 2) =~= t.subrange(d1 + 1, d2 as int));
                patch = or_zero(parse_u64(&s, d1 + 1, d2));
            }
        } else {
            assert(field_start(core, '.', 2) == d0 + 1);
        }
        let ghost base = core_version(core);
        assert(has_prefix == base.has_prefix);
        assert(major == base.major);
        assert(minor == base.minor);
        assert(patch == base.patch);
        proof {
            lemma_find_from_bounds(t, '_', 0);
            assert(field_start(t, '_', 1) == e0 + 1);
        }
        if e0 == n {
            return Some(
                DwVersion { has_prefix, major, minor, patch, pre: None, build: None },
            );
        }
        let e1 = find_char(&s, '_', e0 + 1, n);
        assert(field(t, '_', 1) =~= t.subrange(e0 + 1, e1 as int));
        assert(field_start(t, '_', 2) == e1 + 1);
        match parse_u64(&s, e0 + 1, e1) {
            None => None,
            Some(b) => {
                let mut pre: Option<String> = None;
                if e1 < n {
                    let e2 = find_char(&s, '_', e1 + 1, n);
                    assert(field(t, '_', 2) =~= t.subrange(e1 + 1, e2 as int));
                    pre = Some(param_version.substring_char(e1 + 1, e2).to_owned());
                }
                Some(DwVersion { has_prefix, major, minor, patch, pre, build: Some(b) })
            },
        }
    }

    /// Whether `version` has the shape of [`VERSION_PATTERN`].
    pub fn is_valid_version(version: &str) -> (r: bool)
        ensures
            r == regex_matches(VERSION_PATTERN@, version@),
    {
        regex_is_match(VERSION_PATTERN, version)
    }

    /// Reads a version handed in by hand: `None` where it does not have the
    /// shape of [`VERSION_PATTERN`] or cannot be read.
    pub fn from(param_version: &str) -> (r: Option<DwVersion>)
        ensures
            r is Some <==> regex_matches(VERSION_PATTERN@, param_version@) && parse_spec(
                param_version@,
            ) is Some,
            r is Some ==> parse_spec(param_version@) == Some(r->0@),
    {
        if !DwVersion::is_valid_version(param_version) {
            return None;
        }
        DwVersion::parse(param_version)
    }

    /// The next major version; minor, patch, label and build are kept.
    pub fn plus_major(&self) -> (r: DwVersion)
        requires
            self.major < u64::MAX,
        ensures
            r@ == bump_major(self@),
    {
        DwVersion {
            has_prefix: self.has_prefix,
            major: self.major + 1,
            minor: self.minor,
            patch: self.patch,
            pre: self.pre.clone(),
            build: self.build,
        }
    }

    /// The next minor version; major, patch, label and build are kept.
    pub fn plus_minor(&self) -> (r: DwVersion)
        requires
            self.minor < u64::MAX,
        ensures
            r@ == bump_minor(self@),
    {
        DwVersion {
            has_prefix: self.has_prefix,
            major: self.major,
            minor: self.minor + 1,
            patch: self.patch,
            pre: self.pre.clone(),
            build: self.build,
        }
    }

    /// The next patch version; major, minor, label and build are kept.
    /// `self` is left as it was.
    pub fn plus_patch(&mut self) -> (r: DwVersion)
        requires
            old(self).patch < u64::MAX,
        ensures
            r@ == bump_patch(old(self)@),
            final(self)@ == old(self)@,
    {
        DwVersion {
            has_prefix: self.has_prefix,
            major: self.major,
            minor: self.minor,
            patch: self.patch + 1,
            pre: self.pre.clone(),
            build: self.build,
        }
    }

    /// Sets the label.
    pub fn set_pre(&mut self, pre: String)
        ensures
            final(self)@ == (VersionView { pre: Some(pre@), ..old(self)@ }),
    {
        self.pre = Some(pre);
    }

    /// Sets the build number.
    pub fn set_build(&mut self, build: u64)
        ensures
            final(self)@ == (VersionView { build: Some(build), ..old(self)@ }),
    {
        self.build = Some(build);
    }

    /// Sets the build number to today's UTC date, written `YYYYMMDD`, and
    /// tells whether it did: where the clock gives no date from 1970 on,
    /// `self` is left as it was.
    pub fn auto_set_build(&mut self) -> (r: bool)
        ensures
            !r ==> final(self)@ == old(self)@,
            r ==> final(self)@ == (VersionView { build: final(self).build, ..old(self)@ }),
            r ==> final(self).build is Some,
            r ==> 1 <= (final(self).build->0 / 100) % 100 <= 12,
            r ==> 1 <= final(self).build->0 % 100 <= 31,
    {
        let secs = match seconds_since_epoch() {
            Some(secs) => secs,
            None => return false,
        };
        if secs > i64::MAX as u64 {
            return false;
        }
        let (year, month, day) = match utc_date(secs as i64) {
            Some(date) => date,
            None => return false,
        };
        if year < 0 {
            return false;
        }
        let b = DwVersion::build_from_date(year as u32, month, day);
        assert(b == (year as u32) * 10000 + month * 100 + day);
        assert(b / 100 == (year as u32) * 100 + month) by (nonlinear_arith)
            requires
                b == (year as u32) * 10000 + month * 100 + day,
                1 <= day <= 31,
        ;
        self.build = Some(b);
        true
    }

    /// The build number for the date `year`-`month`-`day` written as
    /// `YYYYMMDD` and read as a number.
    pub fn build_from_date(year: u32, month: u32, day: u32) -> (r: u64)
        requires
            1 <= month <= 12,
            1 <= day <= 31,
        ensures
            r == date_build(year as nat, month as nat, day as nat),
    {
        (year as u64) * 10000 + (month as u64) * 100 + (day as u64)
    }

    /// The version `v1.0.0`, with neither label nor build.
    pub fn default() -> (r: DwVersion)
        ensures
            r@ == (VersionView {
                has_prefix: true,
                major: 1,
                minor: 0,
                patch: 0,
                pre: None,
                build: None,
            }),
    {
        DwVersion { has_prefix: true, major: 1, minor: 0, patch: 0, pre: None, build: None }
    }

    /// The text of this version.
    pub fn to_string(&self) -> (r: String)
        ensures
            r@ == render(self@),
    {
        let mut version = String::new();
        proof {
            reveal_strlit("v");
            reveal_strlit(".");
            reveal_strlit("_");
        }
        let ghost prefix = if self.has_prefix {
            seq!['v']
        } else {
            Seq::<char>::empty()
        };
        if self.has_prefix {
            version.append("v");
        }
        assert(version@ =~= prefix);
        push_decimal(&mut version, self.major);
        version.append(".");
        push_decimal(&mut version, self.minor);
        version.append(".");
        push_decimal(&mut version, self.patch);
        let ghost numbers = version@;
        match self.build {
            Some(b) => {
                version.append("_");
                push_decimal(&mut version, b);
            },
            None => {},
        }
        let ghost with_build = version@;
        match &self.pre {
            Some(p) => {
                version.append("_");
                version.append(p.as_str());
            },
            None => {},
        }
        assert(version@ =~= render(self@));
        version
    }

    /// Compares by major, then minor, then patch; label and build are not
    /// looked at.
    pub fn cmp(&self, other: &Self) -> (r: Ordering)
        ensures
            r == compare(self@, other@),
    {
        if self.major != other.major {
            return if self.major < other.major {
                Ordering::Less
            } else {
                Ordering::Greater
            };
        }
        if self.minor != other.minor {
            return if self.minor < other.minor {
                Ordering::Less
            } else {
                Ordering::Greater
            };
        }
        if self.patch != other.patch {
            return if self.patch < other.patch {
                Ordering::Less
            } else {
                Ordering::Greater
            };
        }
        Ordering::Equal
    }
}

impl PartialEq for DwVersion {
    fn eq(&self, other: &DwVersion) -> (r: bool) {
        self.major == other.major && self.minor == other.minor && self.patch == other.patch
    }
}

impl vstd::std_specs::cmp::PartialEqSpecImpl for DwVersion {
    open spec fn obeys_eq_spec() -> bool {
        true
    }

    open spec fn eq_spec(&self, other: &DwVersion) -> bool {
        same_number(self@, other@)
    }
}

impl Eq for DwVersion {

}

impl PartialOrd for DwVersion {
    fn partial_cmp(&self, other: &DwVersion) -> (r: Option<Ordering>) {
        Some(self.cmp(other))
    }
}

impl vstd::std_specs::cmp::PartialOrdSpecImpl for DwVersion {
    open spec fn obeys_partial_cmp_spec() -> bool {
        true
    }

    open spec fn partial_cmp_spec(&self, other: &DwVersion) -> Option<Ordering> {
        Some(compare(self@, other@))
    }
}

} // verus!
