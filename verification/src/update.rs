//! Whether a newer release of the hub has been published.

use vstd::prelude::*;
use crate::text::{decimal, digits_value, is_digit, push_decimal, push_char, trim_start_char, trim_start_matches};

verus! {

#[verifier::external_type_specification]
#[verifier::external_body]
pub struct ExSemverError(semver::Error);

/// A semantic version, as `semver::Version` reads it.
#[derive(Debug, Clone)]
pub struct SemVer {
    pub major: u64,
    pub minor: u64,
    pub patch: u64,
    /// Pre-release identifiers (empty where there are none).
    pub pre: String,
    /// Build metadata (empty where there is none).
    pub build: String,
}

/// A version as plain values: major, minor, patch, pre-release, build.
pub type VersionParts = (u64, u64, u64, Seq<char>, Seq<char>);

impl View for SemVer {
    type V = VersionParts;

    open spec fn view(&self) -> VersionParts {
        (self.major, self.minor, self.patch, self.pre@, self.build@)
    }
}

/// What `semver::Version::parse` reads from `text`, where it accepts it.
pub uninterp spec fn parsed_version(text: Seq<char>) -> Option<VersionParts>;

/// Whether `semver::Version`'s order puts `a` after `b`.
pub uninterp spec fn version_greater(a: VersionParts, b: VersionParts) -> bool;

/// Whether `(a.0, a.1, a.2)` comes after `(b.0, b.1, b.2)`, compared in turn.
pub open spec fn core_greater(a: VersionParts, b: VersionParts) -> bool {
    a.0 > b.0 || (a.0 == b.0 && (a.1 > b.1 || (a.1 == b.1 && a.2 > b.2)))
}

/// Whether `c` may stand in a pre-release identifier: an ASCII letter or
/// digit, or `-`.
pub open spec fn pre_char(c: char) -> bool {
    ('0' <= c && c <= '9') || ('A' <= c && c <= 'Z') || ('a' <= c && c <= 'z') || c == '-'
}

/// Whether `d` is a non-empty run of ASCII digits.
pub open spec fn all_digits(d: Seq<char>) -> bool {
    d.len() > 0 && forall|k: int| 0 <= k < d.len() ==> is_digit(#[trigger] d[k])
}

/// Whether `d` is one pre-release identifier semver accepts: non-empty,
/// made of `pre_char`s, and, where it is numeric, without a leading zero.
pub open spec fn pre_identifier(d: Seq<char>) -> bool {
    &&& d.len() > 0
    &&& forall|k: int| 0 <= k < d.len() ==> pre_char(#[trigger] d[k])
    &&& !(all_digits(d) && d.len() > 1 && d[0] == '0')
}

/// Whether `seg` followed by `s` is a `.`-separated run of accepted
/// identifiers.
pub open spec fn pre_identifiers(s: Seq<char>, seg: Seq<char>) -> bool
    decreases s.len(),
{
    if s.len() == 0 {
        pre_identifier(seg)
    } else if s[0] == '.' {
        pre_identifier(seg) && pre_identifiers(s.drop_first(), Seq::empty())
    } else {
        pre_identifiers(s.drop_first(), seg.push(s[0]))
    }
}

/// Whether `semver::Prerelease::new` accepts `s`: the empty text, or
/// `.`-separated accepted identifiers.
pub open spec fn pre_valid(s: Seq<char>) -> bool {
    s.len() == 0 || pre_identifiers(s, Seq::empty())
}

/// Whether, with the same identifiers before them, pre-release `a` ends in a
/// numeric identifier of greater value than the one `b` ends in.
pub open spec fn numeric_pre_above(a: Seq<char>, b: Seq<char>) -> bool {
    exists|p: Seq<char>, d1: Seq<char>, d2: Seq<char>|
        #![trigger p + d1, p + d2]
        a == p + d1 && b == p + d2 && (p.len() == 0 || p.last() == '.') && all_digits(d1)
            && all_digits(d2) && digits_value(d1) > digits_value(d2)
}

/// `semver::Version::parse`, with the fields of the parsed version read
/// out as plain values. The outcome is named; as the parser shows, the
/// pre-release it reads is one `semver::Prerelease::new` accepts.
#[verifier::external_body]
fn parse_semver(text: &str) -> (r: Result<SemVer, semver::Error>)
    ensures
        match r {
            Ok(v) => parsed_version(text@) == Some(v@) && pre_valid(v.pre@),
            Err(_) => parsed_version(text@) is None,
        },
{
    match semver::Version::parse(text) {
        Ok(v) => Ok(SemVer {
            major: v.major,
            minor: v.minor,
            patch: v.patch,
            pre: v.pre.as_str().to_owned(),
            build: v.build.as_str().to_owned(),
        }),
        Err(e) => Err(e),
    }
}

/// `>` on `semver::Version` (its derived order: major, minor, patch, then
/// pre-release, then build metadata). The pre-release and build texts go back
/// through `semver::Prerelease::new` and `semver::BuildMetadata::new`; a text
/// that these refuse counts as empty. The result is named; as the derived order shows,
/// the first of major, minor and patch that differs decides, and a version is
/// never greater than an equal one.
#[verifier::external_body]
fn version_gt(a: &SemVer, b: &SemVer) -> (r: bool)
    ensures
        r == version_greater(a@, b@),
        (a.major, a.minor, a.patch) != (b.major, b.minor, b.patch) ==> r == core_greater(a@, b@),
        a@ == b@ ==> !r,
        (a.major, a.minor, a.patch) == (b.major, b.minor, b.patch) && a.pre@.len() == 0
            && b.pre@.len() > 0 && pre_valid(b.pre@) ==> r,
        (a.major, a.minor, a.patch) == (b.major, b.minor, b.patch) && a.pre@.len() > 0
            && b.pre@.len() == 0 && pre_valid(a.pre@) ==> !r,
        (a.major, a.minor, a.patch) == (b.major, b.minor, b.patch) && pre_valid(a.pre@)
            && pre_valid(b.pre@) && numeric_pre_above(a.pre@, b.pre@) ==> r,
{
    let pre = |t: &str| semver::Prerelease::new(t).unwrap_or_default();
    let build = |t: &str| semver::BuildMetadata::new(t).unwrap_or_default();
    let x = semver::Version { major: a.major, minor: a.minor, patch: a.patch, pre: pre(&a.pre), build: build(&a.build) };
    let y = semver::Version { major: b.major, minor: b.minor, patch: b.patch, pre: pre(&b.pre), build: build(&b.build) };
    x > y
}

/// How `semver::Version` displays `v`: `major.minor.patch`, then `-pre`
/// where there is a pre-release, then `+build` where there is build metadata.
pub open spec fn version_text(v: VersionParts) -> Seq<char> {
    decimal(v.0 as nat) + seq!['.'] + decimal(v.1 as nat) + seq!['.'] + decimal(v.2 as nat) + (
    if v.3.len() > 0 {
        seq!['-'] + v.3
    } else {
        Seq::empty()
    }) + (if v.4.len() > 0 {
        seq!['+'] + v.4
    } else {
        Seq::empty()
    })
}

impl SemVer {
    /// Reads a version as `semver::Version::parse` does.
    pub fn parse(text: &str) -> (r: Result<SemVer, semver::Error>)
        ensures
            match r {
                Ok(v) => parsed_version(text@) == Some(v@) && pre_valid(v.pre@),
                Err(_) => parsed_version(text@) is None,
            },
    {
        parse_semver(text)
    }

    /// The version as `semver::Version` displays it.
    pub fn text(&self) -> (r: String)
        ensures
            r@ == version_text(self@),
    {
        let mut out = String::new();
        push_decimal(&mut out, self.major);
        push_char(&mut out, '.');
        push_decimal(&mut out, self.minor);
        push_char(&mut out, '.');
        push_decimal(&mut out, self.patch);
        if self.pre.as_str().unicode_len() > 0 {
            push_char(&mut out, '-');
            out.append(self.pre.as_str());
        }
        if self.build.as_str().unicode_len() > 0 {
            push_char(&mut out, '+');
            out.append(self.build.as_str());
        }
        assert(out@ =~= version_text(self@));
        out
    }
}

/// A newer release, as shown to the user.
#[derive(Debug, Clone)]
pub struct UpdateInfo {
    /// The release's version, as `semver` displays it.
    pub version: String,
    /// The release's web page.
    pub url: String,
}

/// Why no answer could be given.
#[derive(Debug)]
pub enum UpdateError {
    /// The release tag, less its leading `v`s, is not a version.
    UnparseableTag { tag: String, cause: semver::Error },
}

/// What the check answers for a release tagged `tag` at `url`, the running
/// version being `current`.
pub open spec fn release_outcome(
    tag: Seq<char>,
    url: Seq<char>,
    current: VersionParts,
    r: Result<Option<UpdateInfo>, UpdateError>,
) -> bool {
    match parsed_version(trim_start_char(tag, 'v')) {
        None => r matches Err(UpdateError::UnparseableTag { tag: t, .. }) && t@ == tag,
        Some(latest) => if version_greater(latest, current) {
            r matches Ok(Some(info)) && info.version@ == version_text(latest) && info.url@ == url
        } else {
            r matches Ok(None)
        },
    }
}

/// Compares the latest published release, tagged `tag_name` (such as
/// `v1.2.0`) with its page at `html_url`, against the running version
/// `current`: the release where it is newer, `None` where it is not.
pub fn newer_release(tag_name: &str, html_url: &str, current: &SemVer) -> (r: Result<
    Option<UpdateInfo>,
    UpdateError,
>)
    ensures
        release_outcome(tag_name@, html_url@, current@, r),
        parsed_version(trim_start_char(tag_name@, 'v')) == Some(current@) ==> r matches Ok(None),
        match parsed_version(trim_start_char(tag_name@, 'v')) {
            Some(latest) => (latest.0, latest.1, latest.2) != (current.major, current.minor, current.patch)
                ==> (r is Ok && (r->Ok_0 is Some <==> core_greater(latest, current@))),
            None => true,
        },
        match parsed_version(trim_start_char(tag_name@, 'v')) {
            Some(latest) => (latest.0, latest.1, latest.2) == (current.major, current.minor, current.patch)
                && pre_valid(current.pre@) && ((latest.3.len() == 0 && current.pre@.len() > 0)
                || numeric_pre_above(latest.3, current.pre@)) ==> r matches Ok(Some(_)),
            None => true,
        },
{
    let bare = trim_start_matches(tag_name, 'v');
    match parse_semver(bare) {
        Err(cause) => Err(UpdateError::UnparseableTag { tag: tag_name.to_owned(), cause }),
        Ok(latest) => {
            if version_gt(&latest, current) {
                Ok(Some(UpdateInfo { version: latest.text(), url: html_url.to_owned() }))
            } else {
                Ok(None)
            }
        },
    }
}

} // verus!
