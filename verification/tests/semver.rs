use pacquet_package_manager::semver::{Identifier, Version, range_is_readable};
use pacquet_package_manager::strict_peers::peer_version_satisfies;

fn s(text: &str) -> String {
    text.to_string()
}

fn ver(text: &str) -> Version {
    Version::parse(text).expect("a version")
}

#[test]
fn versions_are_read_and_written() {
    let version = Version::parse("1.2.3-rc.1+build.5").expect("a version");
    assert_eq!((version.major, version.minor, version.patch), (1, 2, 3));
    assert_eq!(
        version.pre_release,
        vec![Identifier::AlphaNumeric(s("rc")), Identifier::Numeric(1)]
    );
    assert_eq!(version.text(), "1.2.3-rc.1+build.5");
    assert_eq!(Version::new(4, 5, 6).text(), "4.5.6");
    assert!(Version::parse("latest").is_none());
    assert!(Version::parse("").is_none());
}

#[test]
fn versions_are_ordered_by_precedence() {
    let ordered = ["1.0.0-alpha", "1.0.0-alpha.1", "1.0.0-beta", "1.0.0-rc.2", "1.0.0-rc.11",
        "1.0.0", "1.0.1", "1.2.0", "2.0.0"];
    for (i, low) in ordered.iter().enumerate() {
        for (k, high) in ordered.iter().enumerate() {
            assert_eq!(ver(low).stands_before(&ver(high)), i < k);
        }
    }
    assert!(ver("1.0.0+a").is_same(&ver("1.0.0+b")));
    assert!(!ver("1.0.0").is_same(&ver("1.0.1")));
}

#[test]
fn ranges_admit_versions() {
    assert!(range_is_readable("^1.0.0"));
    assert!(range_is_readable("not a range"));
    assert!(peer_version_satisfies("1.2.3", "^1.0.0"));
    assert!(!peer_version_satisfies("2.0.0", "^1.0.0"));
}
