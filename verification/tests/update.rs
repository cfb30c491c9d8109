use boop::update::{newer_release, SemVer, UpdateError};

fn version(text: &str) -> SemVer {
    SemVer::parse(text).expect("valid version")
}

#[test]
fn parses_version_parts() {
    let v = version("1.2.3-beta.1+build.5");
    assert_eq!((v.major, v.minor, v.patch), (1, 2, 3));
    assert_eq!(v.pre, "beta.1");
    assert_eq!(v.build, "build.5");
    assert!(SemVer::parse("1.0").is_err());
    assert!(SemVer::parse("v1.0.0").is_err());
}

#[test]
fn text_matches_semver_display() {
    assert_eq!(version("10.0.42").text(), "10.0.42");
    assert_eq!(version("1.2.3-rc.1+abc").text(), "1.2.3-rc.1+abc");
    assert_eq!(version("0.0.0+x").text(), "0.0.0+x");
}

#[test]
fn order_follows_semver() {
    assert!(newer_release("1.10.0", "u", &version("1.9.9")).unwrap().is_some());
    assert!(newer_release("1.9.9", "u", &version("1.10.0")).unwrap().is_none());
    assert!(newer_release("1.0.0", "u", &version("1.0.0-rc.1")).unwrap().is_some());
    assert!(newer_release("1.0.0-rc.1", "u", &version("1.0.0")).unwrap().is_none());
    assert!(newer_release("1.0.0-rc.2", "u", &version("1.0.0-rc.1")).unwrap().is_some());
    assert!(newer_release("1.0.0", "u", &version("1.0.0")).unwrap().is_none());
}

#[test]
fn newer_tag_is_reported() {
    let current = version("0.3.1");
    let info = newer_release("v0.4.0", "https://example.com/r", &current).unwrap().expect("newer");
    assert_eq!(info.version, "0.4.0");
    assert_eq!(info.url, "https://example.com/r");
}

#[test]
fn leading_vs_are_all_dropped() {
    let current = version("0.3.1");
    let info = newer_release("vv1.0.0", "u", &current).unwrap().expect("newer");
    assert_eq!(info.version, "1.0.0");
}

#[test]
fn same_or_older_tag_is_no_update() {
    let current = version("0.3.1");
    assert!(newer_release("v0.3.1", "u", &current).unwrap().is_none());
    assert!(newer_release("0.2.9", "u", &current).unwrap().is_none());
}

#[test]
fn unparseable_tag_is_an_error() {
    let current = version("0.3.1");
    match newer_release("release-7", "u", &current) {
        Err(UpdateError::UnparseableTag { tag, .. }) => assert_eq!(tag, "release-7"),
        _ => panic!("expected an unparseable tag"),
    }
}
