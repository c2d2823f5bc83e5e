use rustdoc_markdown::versions::{find_best_version, CrateVersion, VersionError};

fn v(num: &str, yanked: bool) -> CrateVersion {
    CrateVersion { crate_name: "demo".into(), num: num.into(), yanked, semver: None }
}

#[test]
fn latest_stable_for_wildcard() {
    let got = find_best_version(vec![v("1.0.0", false), v("1.2.0", false), v("2.0.0-beta.1", false), v("1.3.0", true)], "demo", "*", false).unwrap();
    assert_eq!(got.num, "1.2.0");
    assert_eq!(got.semver, Some(semver::Version::parse("1.2.0").unwrap()));
}

#[test]
fn prereleases_when_asked() {
    let got = find_best_version(vec![v("1.0.0", false), v("2.0.0-beta.1", false)], "demo", "*", true).unwrap();
    assert_eq!(got.num, "2.0.0-beta.1");
}

#[test]
fn requirement_picks_greatest_match() {
    let got = find_best_version(vec![v("0.9.0", false), v("1.4.2", false), v("1.10.0", false), v("2.0.0", false)], "demo", "^1.2", false).unwrap();
    assert_eq!(got.num, "1.10.0");
}

#[test]
fn errors() {
    assert_eq!(find_best_version(vec![], "demo", "*", false).err(), Some(VersionError::NoVersions));
    assert_eq!(find_best_version(vec![v("1.0.0", true), v("bad", false)], "demo", "*", false).err(), Some(VersionError::NoSuitableVersions));
    assert_eq!(find_best_version(vec![v("1.0.0", false)], "demo", "not a req", false).err(), Some(VersionError::InvalidRequirement));
    assert_eq!(find_best_version(vec![v("1.0.0", false)], "demo", ">=2", false).err(), Some(VersionError::NoMatch));
}

#[test]
fn prerelease_named_by_requirement() {
    let got = find_best_version(vec![v("1.0.0-alpha.1", false)], "demo", "=1.0.0-alpha.1", false).unwrap();
    assert_eq!(got.num, "1.0.0-alpha.1");
    assert_eq!(find_best_version(vec![v("1.0.0-alpha.1", false)], "demo", "*", false).err(), Some(VersionError::NoSuitableVersions));
}
