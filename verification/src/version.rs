//! Host version compatibility.
//!
//! The checker runs as a renderer of a host book builder, which hands over
//! its own version string; the checker only supports hosts whose version
//! satisfies a fixed semantic-version range, and an incompatible or
//! unparseable version must abort the run before any analysis.

use vstd::prelude::*;
use vstd::string::StringSliceAdditionalSpecFns;

verus! {

/// The semantic-version range of host versions this checker supports.
pub const COMPATIBLE_HOST_VERSIONS: &'static str = "^0.4.0";

/// What the semantic-version library says of a requirement and a version:
/// `None` when either fails to parse (a non-UTF-8 byte string parses as
/// nothing), otherwise whether the version satisfies the requirement.  Both
/// parsing and matching are pure, so the verdict is a function of the two
/// byte strings alone.
pub uninterp spec fn semver_verdict(req: Seq<u8>, version: Seq<u8>) -> Option<bool>;

/// Relies on `semver::VersionReq::parse`, `semver::Version::parse` and
/// `semver::VersionReq::matches`: whether `version` names a semantic version
/// that satisfies the range `req`, a pure function of the two strings.
#[verifier::external_body]
fn semver_matches(req: &[u8], version: &[u8]) -> (r: Option<bool>)
    ensures
        r == semver_verdict(req@, version@),
{
    let (req_text, ver_text) = match (core::str::from_utf8(req), core::str::from_utf8(version)) {
        (Ok(r), Ok(v)) => (r, v),
        _ => return None,
    };
    match (semver::VersionReq::parse(req_text), semver::Version::parse(ver_text)) {
        (Ok(r), Ok(v)) => Some(r.matches(&v)),
        _ => None,
    }
}

/// How a host version stands to the supported range.
#[derive(Clone, Copy, PartialEq, Eq, Structural, Debug)]
pub enum VersionStatus {
    /// The version parses and satisfies the supported range.
    Compatible,
    /// The version parses but falls outside the supported range.
    Incompatible,
    /// The version does not parse as a semantic version.
    Invalid,
}

/// The status that a given verdict of the semantic-version library means.
pub open spec fn status_of_verdict(verdict: Option<bool>) -> VersionStatus {
    match verdict {
        Some(true) => VersionStatus::Compatible,
        Some(false) => VersionStatus::Incompatible,
        None => VersionStatus::Invalid,
    }
}

/// Reads a verdict of the semantic-version library as a status.
pub fn classify_verdict(verdict: Option<bool>) -> (r: VersionStatus)
    ensures
        r == status_of_verdict(verdict),
{
    match verdict {
        Some(true) => VersionStatus::Compatible,
        Some(false) => VersionStatus::Incompatible,
        None => VersionStatus::Invalid,
    }
}

/// Checks a host version string against the supported range.
pub fn check_host_version(version: &[u8]) -> (r: VersionStatus)
    ensures
        r == status_of_verdict(
            semver_verdict(COMPATIBLE_HOST_VERSIONS.spec_bytes(), version@),
        ),
{
    let verdict = semver_matches(COMPATIBLE_HOST_VERSIONS.as_bytes(), version);
    classify_verdict(verdict)
}

} // verus!
