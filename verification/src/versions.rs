use vstd::prelude::*;
use crate::capabilities::CapabilitiesResponse;
use crate::error::{Error, Fault};

verus! {

/// The message with which `semver::VersionReq::parse` refuses a text, or
/// none when the text parses.
pub uninterp spec fn requirement_error(text: Seq<char>) -> Option<Seq<char>>;

/// The message with which `semver::Version::parse` refuses a text, or none
/// when the text parses.
pub uninterp spec fn version_error(text: Seq<char>) -> Option<Seq<char>>;

/// Whether the version requirement that a text parses to matches the
/// version that another text parses to.
pub uninterp spec fn requirement_matches(requirement: Seq<char>, version: Seq<char>) -> bool;

/// `semver::VersionReq::parse`: none when the text parses as a version
/// requirement, else the message of the error, which depends on the text
/// alone.
#[verifier::external_body]
fn check_requirement(text: &str) -> (r: Option<String>)
    ensures
        match r {
            None => requirement_error(text@) is None,
            Some(m) => requirement_error(text@) == Some(m@),
        },
{
    match semver::VersionReq::parse(text) {
        Ok(_) => None,
        Err(e) => Some(e.to_string()),
    }
}

/// `semver::Version::parse`: none when the text parses as a version, else
/// the message of the error, which depends on the text alone.
#[verifier::external_body]
pub(crate) fn check_version(text: &str) -> (r: Option<String>)
    ensures
        match r {
            None => version_error(text@) is None,
            Some(m) => version_error(text@) == Some(m@),
        },
{
    match semver::Version::parse(text) {
        Ok(_) => None,
        Err(e) => Some(e.to_string()),
    }
}

/// `semver::VersionReq::matches`, on the requirement and the version that
/// two texts parse to.
#[verifier::external_body]
fn matches_requirement(requirement: &str, version: &str) -> (b: bool)
    requires
        requirement_error(requirement@) is None,
        version_error(version@) is None,
    ensures
        b == requirement_matches(requirement@, version@),
{
    match (semver::VersionReq::parse(requirement), semver::Version::parse(version)) {
        (Ok(r), Ok(v)) => r.matches(&v),
        _ => false,
    }
}

/// Whether the caret comparator on the version that one text parses to
/// matches the version that another text parses to; false where the second
/// text is no version.
pub uninterp spec fn caret_match(wanted: Seq<char>, implemented: Seq<char>) -> bool;

/// `semver::Comparator::matches` for the comparator `^major.minor.patch-pre`
/// built from the version that `wanted` parses to, on the version that
/// `implemented` parses to; false where `implemented` does not parse. A
/// version matches the caret comparator on itself.
#[verifier::external_body]
pub(crate) fn caret_matches(wanted: &str, implemented: &str) -> (b: bool)
    requires
        version_error(wanted@) is None,
    ensures
        b == caret_match(wanted@, implemented@),
        wanted@ == implemented@ ==> b,
{
    let w = semver::Version::parse(wanted).unwrap();
    let comparator = semver::Comparator {
        op: semver::Op::Caret,
        major: w.major,
        minor: Some(w.minor),
        patch: Some(w.patch),
        pre: w.pre,
    };
    semver::Version::parse(implemented).map_or(false, |v| comparator.matches(&v))
}

/// `format!("^{version}")`: the caret requirement on a version.
fn caret(version: &str) -> (r: String)
    ensures
        r@ == seq!['^'] + version@,
{
    proof {
        reveal_strlit("^");
    }
    let mut r = String::from_str("^");
    r.append(version);
    r
}

/// The requirement that the specification at a version puts on the version
/// a connector claims.
pub open spec fn compatible_requirement(spec_version: Seq<char>) -> Seq<char> {
    seq!['^'] + spec_version
}

/// The fault of the version a connector claims, against the version of the
/// specification.
pub open spec fn capabilities_fault(claimed: Seq<char>, spec_version: Seq<char>) -> Option<Fault> {
    let req = compatible_requirement(spec_version);
    match requirement_error(req) {
        Some(m) => Some(Fault::SemverError(m)),
        None => match version_error(claimed) {
            Some(m) => Some(Fault::SemverError(m)),
            None => if requirement_matches(req, claimed) {
                None
            } else {
                Some(Fault::IncompatibleSpecification(claimed, req))
            },
        },
    }
}

/// Checks that the version a connector claims is compatible with the
/// version of the specification: it must match the caret requirement on
/// that version.
pub fn validate_capabilities(capabilities: &CapabilitiesResponse, spec_version: &str) -> (r: Result<(), Error>)
    ensures
        crate::error::fault_of(r) == capabilities_fault(capabilities.version@, spec_version@),
{
    let requirement = caret(spec_version);
    match check_requirement(requirement.as_str()) {
        Some(m) => {
            return Err(Error::SemverError(m));
        },
        None => {},
    }
    match check_version(capabilities.version.as_str()) {
        Some(m) => {
            return Err(Error::SemverError(m));
        },
        None => {},
    }
    if !matches_requirement(requirement.as_str(), capabilities.version.as_str()) {
        return Err(Error::IncompatibleSpecification(capabilities.version.clone(), requirement));
    }
    Ok(())
}

} // verus!
