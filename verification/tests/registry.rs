use pacquet_package_manager::registry::{
    Package, PackageVersion, expected_registry_tarball, find_version, parse_npm_alias,
    parse_request, resolve_package_version_from_metadata, resolve_requested_version,
};
use pacquet_package_manager::semver::Version;
use pacquet_package_manager::table::TextMap;

fn s(text: &str) -> String {
    text.to_string()
}

fn texts(list: &[&str]) -> Vec<String> {
    list.iter().map(|text| text.to_string()).collect()
}

fn ver(text: &str) -> Version {
    Version::parse(text).expect("a version")
}

fn release(name: &str, version: &str) -> PackageVersion {
    PackageVersion {
        name: name.to_string(),
        version: ver(version),
        tarball: String::new(),
        integrity: None,
        virtual_store_name: format!("{name}@{version}").replace('/', "+"),
        regular_dependencies: TextMap::new(),
        optional_dependencies: TextMap::new(),
        peer_dependencies: None,
        optional_peers: Vec::new(),
        engines: None,
        cpu: None,
        os: None,
        libc: None,
        deprecated: None,
        has_bin: false,
    }
}

fn foo_metadata() -> Package {
    let version = |number: &str| {
        let mut version = release("foo", number);
        version.tarball = format!("https://registry.example/foo/-/foo-{number}.tgz");
        (s(number), version)
    };
    Package { name: s("foo"), versions: vec![version("1.0.0"), version("2.0.0")], latest: 1 }
}

fn number_at(package: &Package, i: usize) -> String {
    package.versions[i].1.version.text()
}

#[test]
fn expected_registry_tarball_uses_scoped_registry_from_config() {
    let mut package_version = release("@foo/pkg", "1.2.3");
    package_version.tarball = s("https://foo.example/@foo/pkg/-/pkg-1.2.3.tgz");

    assert_eq!(
        expected_registry_tarball("https://foo.example/", &package_version),
        "https://foo.example/@foo/pkg/-/pkg-1.2.3.tgz"
    );
}

#[test]
fn resolve_package_version_from_metadata_prefers_matching_legacy_lockfile_version() {
    let package = foo_metadata();
    let preferred = texts(&["1.0.0"]);
    let resolved = resolve_package_version_from_metadata(&package, "*", Some(&preferred), Some(1))
        .expect("resolved version");

    assert_eq!(number_at(&package, resolved), "1.0.0");
}

#[test]
fn resolve_package_version_from_metadata_falls_back_when_preferred_version_misses_range() {
    let package = foo_metadata();
    let preferred = texts(&["1.0.0"]);
    let resolved =
        resolve_package_version_from_metadata(&package, "^2.0.0", Some(&preferred), Some(1))
            .expect("resolved version");

    assert_eq!(number_at(&package, resolved), "2.0.0");
}

#[test]
fn requests_are_taken_apart() {
    assert_eq!(parse_npm_alias("npm:foo@^1.0.0"), Some(("foo", "^1.0.0")));
    assert_eq!(parse_npm_alias("npm:@s/foo@1"), Some(("@s/foo", "1")));
    assert_eq!(parse_npm_alias("^1.0.0"), None);
    assert_eq!(parse_request("bar", "npm:foo@^1.0.0"), ("foo", "^1.0.0"));
    assert_eq!(parse_request("bar", "^2.0.0"), ("bar", "^2.0.0"));
    assert_eq!(release("foo", "1.0.0").id(), "foo@1.0.0");
}

#[test]
fn versions_are_found_by_number() {
    let package = foo_metadata();
    assert_eq!(find_version(&package, "2.0.0"), Some(1));
    assert_eq!(find_version(&package, "3.0.0"), None);
}

#[test]
fn the_highest_preferred_version_is_taken() {
    let mut package = foo_metadata();
    let mut between = release("foo", "1.5.0");
    between.tarball = s("https://registry.example/foo/-/foo-1.5.0.tgz");
    package.versions.push((s("1.5.0"), between));
    let preferred = texts(&["1.0.0", "1.5.0", "9.0.0"]);
    let resolved = resolve_package_version_from_metadata(&package, "^1.0.0", Some(&preferred), None)
        .expect("resolved version");
    assert_eq!(number_at(&package, resolved), "1.5.0");
}

#[test]
fn a_request_names_a_version_the_latest_or_a_range() {
    let package = foo_metadata();
    let ask = |range: &str, pinned| resolve_requested_version(&package, "foo", range, pinned);
    assert!(matches!(ask("1.0.0", None), Ok(0)));
    assert!(matches!(ask("latest", None), Ok(1)));
    assert!(matches!(ask("^1.0.0", Some(0)), Ok(0)));
    let Err(missing) = ask("3.0.0", None) else { panic!("found") };
    assert_eq!((missing.package.as_str(), missing.version.as_str()), ("foo", "3.0.0"));
    let Err(missing) = ask("^3.0.0", None) else { panic!("found") };
    assert_eq!((missing.package.as_str(), missing.version.as_str()), ("foo", "^3.0.0"));
}
