//! Versions and version requirements, as the `semver` crate reads and compares them.

use vstd::prelude::*;

verus! {

/// A version taken apart.
#[derive(Debug, Clone)]
pub struct Version {
    pub major: u64,
    pub minor: u64,
    pub patch: u64,
    pub pre: String,
    pub build: String,
}

/// The view of a [`Version`].
pub struct VersionView {
    pub major: u64,
    pub minor: u64,
    pub patch: u64,
    pub pre: Seq<char>,
    pub build: Seq<char>,
}

impl DeepView for Version {
    type V = VersionView;

    open spec fn deep_view(&self) -> VersionView {
        VersionView {
            major: self.major,
            minor: self.minor,
            patch: self.patch,
            pre: self.pre@,
            build: self.build@,
        }
    }
}

/// The release that a version belongs to: without pre-release and build metadata.
pub open spec fn release_of(v: VersionView) -> VersionView {
    VersionView { pre: Seq::empty(), build: Seq::empty(), ..v }
}

/// What `semver::Version::parse` makes of a text.
pub uninterp spec fn version_parsed(text: Seq<char>) -> Option<VersionView>;

/// Whether `semver::VersionReq::parse` accepts a text.
pub uninterp spec fn requirement_parses(text: Seq<char>) -> bool;

/// Whether the requirement that a text stands for allows a version, by `semver::VersionReq::matches`.
pub uninterp spec fn requirement_allows(req: Seq<char>, v: VersionView) -> bool;

/// `semver::Version::parse`, its result taken apart; `None` where it fails.
#[verifier::external_body]
fn parse_parts(text: &str) -> (r: Option<Version>)
    ensures
        r.deep_view() == version_parsed(text@),
{
    semver::Version::parse(text).ok().map(|v| Version {
        major: v.major,
        minor: v.minor,
        patch: v.patch,
        pre: v.pre.as_str().to_owned(),
        build: v.build.as_str().to_owned(),
    })
}

/// Whether `semver::VersionReq::parse` succeeds. It does on `*`.
#[verifier::external_body]
fn parses_as_requirement(text: &str) -> (r: bool)
    ensures
        r == requirement_parses(text@),
        text@ == "*"@ ==> r,
{
    semver::VersionReq::parse(text).is_ok()
}

/// `semver::VersionReq::matches`, on the requirement and the version that the arguments stand for.
/// A requirement that does not parse matches nothing. `*` holds no comparator, so it matches every
/// version without a pre-release part.
#[verifier::external_body]
fn requirement_matches(req: &str, v: &Version) -> (r: bool)
    ensures
        r == requirement_allows(req@, v.deep_view()),
        req@ == "*"@ && v.pre@.len() == 0 ==> r,
{
    let pre = semver::Prerelease::new(&v.pre).unwrap_or(semver::Prerelease::EMPTY);
    let build = semver::BuildMetadata::new(&v.build).unwrap_or(semver::BuildMetadata::EMPTY);
    let version = semver::Version { major: v.major, minor: v.minor, patch: v.patch, pre, build };
    semver::VersionReq::parse(req).map(|r| r.matches(&version)).unwrap_or(false)
}

impl Version {
    pub fn parse(text: &str) -> (r: Option<Version>)
        ensures
            r.deep_view() == version_parsed(text@),
    {
        parse_parts(text)
    }

    /// The version without pre-release and build metadata.
    pub fn release(&self) -> (r: Version)
        ensures
            r.deep_view() == release_of(self.deep_view()),
    {
        Version {
            major: self.major,
            minor: self.minor,
            patch: self.patch,
            pre: String::new(),
            build: String::new(),
        }
    }
}

/// A version requirement, held as the text that it was read from.
#[derive(Debug, Clone)]
pub struct VersionReq {
    pub text: String,
}

impl DeepView for VersionReq {
    type V = Seq<char>;

    open spec fn deep_view(&self) -> Seq<char> {
        self.text@
    }
}

impl VersionReq {
    pub fn parse(text: &str) -> (r: Option<VersionReq>)
        ensures
            r.deep_view() == if requirement_parses(text@) {
                Some(text@)
            } else {
                None::<Seq<char>>
            },
    {
        if parses_as_requirement(text) {
            Some(VersionReq { text: text.to_owned() })
        } else {
            None
        }
    }

    /// The requirement that every release meets.
    pub fn star() -> (r: VersionReq)
        ensures
            r.deep_view() == "*"@,
    {
        VersionReq { text: "*".to_owned() }
    }

    pub fn matches(&self, v: &Version) -> (r: bool)
        ensures
            r == requirement_allows(self.deep_view(), v.deep_view()),
            self.deep_view() == "*"@ && v.pre@.len() == 0 ==> r,
    {
        requirement_matches(&self.text, v)
    }
}

/// The release of a version has its three numbers, and neither pre-release nor build metadata.
pub proof fn lemma_release(v: VersionView)
    ensures
        release_of(v).major == v.major,
        release_of(v).minor == v.minor,
        release_of(v).patch == v.patch,
        release_of(v).pre.len() == 0,
        release_of(v).build.len() == 0,
{
}

} // verus!
