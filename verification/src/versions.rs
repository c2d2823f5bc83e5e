//! Choosing a published version of a crate: yanked versions, versions that are
//! not valid SemVer, and (unless asked for) pre-releases are left out; of the
//! rest, the greatest version, or the greatest that meets a requirement.

use vstd::prelude::*;
use crate::text::chars_of;

verus! {

#[verifier::external_type_specification]
#[verifier::external_body]
pub struct ExVersion(semver::Version);

/// A version of a crate as the registry lists it.
pub struct CrateVersion {
    /// The name of the crate.
    pub crate_name: String,
    /// The version number as written (e.g. "1.2.3").
    pub num: String,
    /// Whether this version has been yanked.
    pub yanked: bool,
    /// The parsed version, once it has been parsed.
    pub semver: Option<semver::Version>,
}

/// Whether the text is a valid SemVer version.
pub uninterp spec fn version_valid(num: Seq<char>) -> bool;

/// Whether the valid version written `num` has a pre-release part: a `-` comes
/// before any `+` (its numbers hold neither, and build metadata starts at the `+`).
pub open spec fn version_is_prerelease(num: Seq<char>) -> bool {
    exists|i: int| 0 <= i < num.len() && num[i] == '-' && forall|j: int| 0 <= j < i ==> #[trigger] num[j] != '+'
}

/// Whether the valid version written `a` is greater than the one written `b`.
pub uninterp spec fn version_greater(a: Seq<char>, b: Seq<char>) -> bool;

/// Whether the text is a valid SemVer version requirement.
pub uninterp spec fn requirement_valid(req: Seq<char>) -> bool;

/// Whether the valid version written `num` meets the valid requirement `req`.
pub uninterp spec fn requirement_matches(req: Seq<char>, num: Seq<char>) -> bool;

/// Parses a version with `semver::Version::parse`; `Some` exactly when the text is
/// valid (named by `version_valid`). What the parsed value holds is not stated.
#[verifier::external_body]
fn parse_version(num: &str) -> (res: Option<semver::Version>)
    ensures
        res is Some <==> version_valid(num@),
{
    semver::Version::parse(num).ok()
}

/// Whether a valid version has a pre-release part, from `semver::Prerelease::is_empty`
/// on the parsed version's `pre`: see `version_is_prerelease`.
#[verifier::external_body]
fn is_prerelease(num: &str) -> (res: bool)
    requires
        version_valid(num@),
    ensures
        res == version_is_prerelease(num@),
{
    match semver::Version::parse(num) {
        Ok(v) => !v.pre.is_empty(),
        Err(_) => false,
    }
}

/// Whether one valid version is greater than another, by the order that
/// `semver::Version` implements; named by `version_greater`.
#[verifier::external_body]
fn is_greater(a: &str, b: &str) -> (res: bool)
    requires
        version_valid(a@),
        version_valid(b@),
    ensures
        res == version_greater(a@, b@),
{
    match (semver::Version::parse(a), semver::Version::parse(b)) {
        (Ok(x), Ok(y)) => x > y,
        _ => false,
    }
}

/// Whether a requirement parses with `semver::VersionReq::parse`; named by
/// `requirement_valid`.
#[verifier::external_body]
fn requirement_parses(req: &str) -> (res: bool)
    ensures
        res == requirement_valid(req@),
{
    semver::VersionReq::parse(req).is_ok()
}

/// Whether a valid version meets a valid requirement, by
/// `semver::VersionReq::matches`; named by `requirement_matches`.
#[verifier::external_body]
fn matches_requirement(req: &str, num: &str) -> (res: bool)
    requires
        requirement_valid(req@),
        version_valid(num@),
    ensures
        res == requirement_matches(req@, num@),
{
    match (semver::VersionReq::parse(req), semver::Version::parse(num)) {
        (Ok(r), Ok(v)) => r.matches(&v),
        _ => false,
    }
}

/// Why no version could be chosen.
#[derive(Debug, Clone, Copy, PartialEq, Eq, Structural)]
pub enum VersionError {
    /// The registry lists no version at all.
    NoVersions,
    /// Every version is yanked, invalid, or (when pre-releases are not wanted) a pre-release.
    NoSuitableVersions,
    /// The requirement is not valid SemVer.
    InvalidRequirement,
    /// No suitable version meets the requirement.
    NoMatch,
}

/// A version that may be chosen: not yanked, valid, and a pre-release only when
/// pre-releases are wanted or a valid requirement other than `*` names it (matches it).
pub open spec fn suitable(v: CrateVersion, req: Seq<char>, include_prerelease: bool) -> bool {
    &&& !v.yanked
    &&& version_valid(v.num@)
    &&& (include_prerelease || !version_is_prerelease(v.num@) || (!is_wildcard(req) && requirement_valid(req)
        && requirement_matches(req, v.num@)))
}

/// Whether the requirement is the wildcard `*`.
pub open spec fn is_wildcard(req: Seq<char>) -> bool {
    req == seq!['*']
}

/// A version meeting what is asked: any suitable one for the wildcard, else a
/// suitable one that meets the requirement.
pub open spec fn wanted(v: CrateVersion, req: Seq<char>, include_prerelease: bool) -> bool {
    suitable(v, req, include_prerelease) && (is_wildcard(req) || requirement_matches(req, v.num@))
}

/// The position of the greatest wanted version, the first of them where several
/// are equal, if any is wanted.
pub open spec fn best_index(vs: Seq<CrateVersion>, req: Seq<char>, include_prerelease: bool) -> Option<int>
    decreases vs.len(),
{
    if vs.len() == 0 {
        None
    } else {
        let prev = best_index(vs.drop_last(), req, include_prerelease);
        let c = vs.last();
        if wanted(c, req, include_prerelease) && (prev is None || version_greater(c.num@, vs[prev->0].num@)) {
            Some(vs.len() - 1)
        } else {
            prev
        }
    }
}

pub proof fn lemma_best_index_bounds(vs: Seq<CrateVersion>, req: Seq<char>, include_prerelease: bool)
    ensures
        best_index(vs, req, include_prerelease) matches Some(i) ==> 0 <= i < vs.len()
            && wanted(vs[i], req, include_prerelease),
        best_index(vs, req, include_prerelease) is None <==>
            forall|j: int| 0 <= j < vs.len() ==> !wanted(#[trigger] vs[j], req, include_prerelease),
    decreases vs.len(),
{
    if vs.len() > 0 {
        lemma_best_index_bounds(vs.drop_last(), req, include_prerelease);
        let prev = best_index(vs.drop_last(), req, include_prerelease);
        if let Some(i) = prev {
            assert(vs.drop_last()[i] == vs[i]);
        }
        assert forall|j: int| 0 <= j < vs.len() - 1 implies vs.drop_last()[j] == vs[j] by {}
    }
}

/// Whether the text is `*`.
fn wildcard(req: &str) -> (res: bool)
    ensures
        res == is_wildcard(req@),
{
    let cs = chars_of(req);
    let r = cs.len() == 1 && cs[0] == '*';
    proof {
        if r {
            assert(req@ =~= seq!['*']);
        }
    }
    r
}

/// Chooses the version to fetch among those the registry lists: the greatest
/// wanted one (see `wanted` and `best_index`), with its parsed version filled in.
pub fn find_best_version(
    versions: Vec<CrateVersion>,
    crate_name: &str,
    version_req_str: &str,
    include_prerelease: bool,
) -> (res: Result<CrateVersion, VersionError>)
    ensures
        versions@.len() == 0 ==> res == Err::<CrateVersion, VersionError>(VersionError::NoVersions),
        versions@.len() > 0 && (forall|j: int| 0 <= j < versions@.len() ==> !suitable(#[trigger] versions@[j], version_req_str@, include_prerelease))
            ==> res == Err::<CrateVersion, VersionError>(VersionError::NoSuitableVersions),
        (versions@.len() > 0 && exists|j: int| 0 <= j < versions@.len() && suitable(#[trigger] versions@[j], version_req_str@, include_prerelease))
            ==> match res {
                Err(e) => {
                    &&& (e == VersionError::InvalidRequirement || e == VersionError::NoMatch)
                    &&& !is_wildcard(version_req_str@)
                    &&& (e == VersionError::InvalidRequirement <==> !requirement_valid(version_req_str@))
                    &&& (e == VersionError::NoMatch <==> (requirement_valid(version_req_str@)
                        && best_index(versions@, version_req_str@, include_prerelease) is None))
                },
                Ok(v) => {
                    &&& (is_wildcard(version_req_str@) || requirement_valid(version_req_str@))
                    &&& best_index(versions@, version_req_str@, include_prerelease) matches Some(i)
                        && v.crate_name == versions@[i].crate_name && v.num == versions@[i].num
                        && v.yanked == versions@[i].yanked
                    &&& v.semver is Some
                },
            },
        (is_wildcard(version_req_str@) || requirement_valid(version_req_str@))
            && best_index(versions@, version_req_str@, include_prerelease) is Some ==> res is Ok,
{
    let ghost vs = versions@;
    if versions.len() == 0 {
        return Err(VersionError::NoVersions);
    }
    let any = wildcard(version_req_str);
    let mut req_ok = true;
    if !any {
        req_ok = requirement_parses(version_req_str);
    }
    let mut versions = versions;
    let mut best: Option<CrateVersion> = None;
    let mut best_pos: usize = 0;
    let mut any_suitable = false;
    let n = versions.len();
    let mut taken: usize = 0;
    let mut rest: Vec<CrateVersion> = Vec::new();
    while versions.len() > 0
        invariant
            versions@ == vs.take(versions.len() as int),
            versions.len() + rest.len() == n,
            n == vs.len(),
            forall|j: int| 0 <= j < rest.len() ==> rest@[j] == vs[n - 1 - j],
        decreases versions.len(),
    {
        let v = versions.pop().unwrap();
        rest.push(v);
    }
    let ghost req = version_req_str@;
    assert(vs.take(0) =~= Seq::<CrateVersion>::empty());
    while rest.len() > 0
        invariant
            taken + rest.len() == n,
            n == vs.len(),
            forall|j: int| 0 <= j < rest.len() ==> rest@[j] == vs[n - 1 - j],
            any == is_wildcard(req),
            req == version_req_str@,
            !any ==> req_ok == requirement_valid(req),
            any_suitable <==> exists|j: int| 0 <= j < taken && suitable(#[trigger] vs[j], req, include_prerelease),
            (any || req_ok) ==> match best {
                Some(b) => best_index(vs.take(taken as int), req, include_prerelease) == Some(best_pos as int)
                    && best_pos < taken && version_valid(b.num@)
                    && b.crate_name == vs[best_pos as int].crate_name && b.num == vs[best_pos as int].num
                    && b.yanked == vs[best_pos as int].yanked && b.semver is Some,
                None => best_index(vs.take(taken as int), req, include_prerelease) is None,
            },
        decreases rest.len(),
    {
        let mut v = rest.pop().unwrap();
        assert(v == vs[taken as int]);
        proof {
            assert(vs.take(taken + 1).drop_last() =~= vs.take(taken as int));
            assert(vs.take(taken + 1).last() == vs[taken as int]);
        }
        let ghost v0 = v;
        proof {
            lemma_best_index_bounds(vs.take(taken as int), req, include_prerelease);
        }
        let ok = !v.yanked && match parse_version(v.num.as_str()) {
            Some(sv) => {
                v.semver = Some(sv);
                include_prerelease || !is_prerelease(v.num.as_str()) || (!any && req_ok && matches_requirement(
                    version_req_str,
                    v.num.as_str(),
                ))
            },
            None => false,
        };
        assert(ok == suitable(v0, req, include_prerelease));
        if ok {
            any_suitable = true;
        }
        if ok && (any || req_ok) {
            let wanted_here = any || matches_requirement(version_req_str, v.num.as_str());
            if wanted_here {
                let better = match &best {
                    None => true,
                    Some(b) => is_greater(v.num.as_str(), b.num.as_str()),
                };
                if better {
                    best = Some(v);
                    best_pos = taken;
                }
            }
        }
        taken = taken + 1;
    }
    assert(vs.take(n as int) =~= vs);
    if !any_suitable {
        proof {
            lemma_best_index_bounds(vs, req, include_prerelease);
            if let Some(i) = best_index(vs, req, include_prerelease) {
                assert(suitable(vs[i], req, include_prerelease));
            }
        }
        return Err(VersionError::NoSuitableVersions);
    }
    if !any && !req_ok {
        return Err(VersionError::InvalidRequirement);
    }
    proof {
        lemma_best_index_bounds(vs, req, include_prerelease);
    }
    match best {
        Some(b) => Ok(b),
        None => {
            proof {
                if any {
                    let j = choose|j: int| 0 <= j < vs.len() && suitable(#[trigger] vs[j], req, include_prerelease);
                    assert(wanted(vs[j], req, include_prerelease));
                }
            }
            Err(VersionError::NoMatch)
        },
    }
}

} // verus!
