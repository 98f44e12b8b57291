use pacquet_package_manager::json::Json;
use pacquet_package_manager::lockfile::{
    PkgVerPeer, ProjectSnapshot, ResolvedDependencyMap, ResolvedDependencySpec,
    ResolvedDependencyVersion,
};
use pacquet_package_manager::manifest_check::{
    check_package_manifest, count_non_linked_deps, extract_manifest, parse_semver_from_dep,
    resolved_map_to_versions, satisfies_package_manifest, specifiers_are_readable,
};
use pacquet_package_manager::semver::{Version, range_is_readable};
use pacquet_package_manager::table::TextMap;

fn s(text: &str) -> String {
    text.to_string()
}

fn map(entries: &[(&str, &str)]) -> TextMap<String> {
    let mut map = TextMap::new();
    for (key, value) in entries {
        map.insert(key.to_string(), value.to_string());
    }
    map
}

fn entries(map: &TextMap<String>) -> Vec<(String, String)> {
    (0..map.len()).map(|i| (map.key_at(i).clone(), map.value_at(i).clone())).collect()
}

fn pairs(list: &[(&str, &str)]) -> Vec<(String, String)> {
    list.iter().map(|(a, b)| (a.to_string(), b.to_string())).collect()
}

fn obj(fields: Vec<(&str, Json)>) -> Json {
    Json::Object(fields.into_iter().map(|(name, value)| (name.to_string(), value)).collect())
}

fn txt(text: &str) -> Json {
    Json::Text(text.to_string())
}

fn text_obj(fields: &[(&str, &str)]) -> Json {
    Json::Object(
        fields.iter().map(|(name, text)| (name.to_string(), Json::Text(text.to_string()))).collect(),
    )
}

fn ver(text: &str) -> Version {
    Version::parse(text).expect("a version")
}

fn suffix(name: &str, version: &str, peer: &str) -> PkgVerPeer {
    let store_name = format!("{name}@{version}{peer}");
    PkgVerPeer {
        version: ver(version),
        peer: peer.to_string(),
        store_name: store_name.replace('/', "+").replace('(', "_").replace(')', ""),
    }
}

fn spec(specifier: &str, version: ResolvedDependencyVersion) -> ResolvedDependencySpec {
    ResolvedDependencySpec { specifier: specifier.to_string(), version }
}

fn plain(name: &str, version: &str, peer: &str) -> ResolvedDependencyVersion {
    ResolvedDependencyVersion::PkgVerPeer(suffix(name, version, peer))
}

fn link(target: &str) -> ResolvedDependencyVersion {
    ResolvedDependencyVersion::Link(target.to_string())
}

fn specs(entries: Vec<(&str, ResolvedDependencySpec)>) -> ResolvedDependencyMap {
    let mut specs = ResolvedDependencyMap::new();
    for (name, spec) in entries {
        specs.insert(name.to_string(), spec);
    }
    specs
}

fn project(dependencies: Vec<(&str, ResolvedDependencySpec)>) -> ProjectSnapshot {
    let mut project = ProjectSnapshot::empty();
    project.dependencies = Some(specs(dependencies));
    project
}

fn wants_foo(range: &str) -> Json {
    obj(vec![("dependencies", text_obj(&[("foo", range)]))])
}

fn has_foo(specifier: &str, version: &str) -> ProjectSnapshot {
    let mut snapshot = project(vec![("foo", spec(specifier, plain("foo", version, "")))]);
    snapshot.specifiers = Some(map(&[("foo", specifier)]));
    snapshot
}

#[test]
fn satisfies_manifest_for_matching_snapshot() {
    let snapshot = has_foo("^1.0.0", "1.0.1");
    assert!(satisfies_package_manifest(&snapshot, &wants_foo("^1.0.0"), false, false, true).is_ok());
}

#[test]
fn fails_when_specifier_drift_exists() {
    let snapshot = has_foo("^1.0.0", "1.0.1");
    assert!(
        satisfies_package_manifest(&snapshot, &wants_foo("^2.0.0"), false, false, true).is_err()
    );
}

#[test]
fn allows_specifier_drift_when_strict_check_is_disabled() {
    let snapshot = has_foo("~1.0.0", "1.0.5");
    assert!(
        satisfies_package_manifest(&snapshot, &wants_foo("^1.0.0"), false, false, false).is_ok()
    );
}

#[test]
fn auto_install_peers_allows_peer_only_importer_without_lockfile_specifiers() {
    let manifest = obj(vec![("peerDependencies", text_obj(&[("is-positive", ">=1.0.0")]))]);
    let snapshot = ProjectSnapshot::empty();
    assert!(satisfies_package_manifest(&snapshot, &manifest, true, false, true).is_ok());
}

fn refusal(snapshot: &ProjectSnapshot, manifest: &Json, strict: bool) -> String {
    satisfies_package_manifest(snapshot, manifest, false, false, strict).expect_err("no fit")
}

#[test]
fn what_does_not_fit_is_told() {
    let fits = has_foo("^1.0.0", "1.0.1");
    assert_eq!(
        refusal(&fits, &wants_foo("^2.0.0"), true),
        "specifiers in the lockfile don't match specifiers in package.json"
    );
    let published = obj(vec![
        ("dependencies", text_obj(&[("foo", "^1.0.0")])),
        ("publishConfig", text_obj(&[("directory", "dist")])),
    ]);
    assert_eq!(
        refusal(&fits, &published, true),
        "\"publishDirectory\" in the lockfile doesn't match \"publishConfig.directory\" in package.json"
    );
    let meta = obj(vec![
        ("dependencies", text_obj(&[("foo", "^1.0.0")])),
        ("dependenciesMeta", obj(vec![("foo", obj(vec![("injected", Json::Bool(true))]))])),
    ]);
    assert_eq!(
        refusal(&fits, &meta, true),
        "dependenciesMeta in the lockfile doesn't match package.json"
    );
    assert_eq!(
        refusal(&fits, &obj(vec![]), false),
        "\"dependencies\" in the lockfile doesn't match the same field in package.json"
    );
    let other = obj(vec![("dependencies", text_obj(&[("bar", "1")]))]);
    assert_eq!(
        refusal(&fits, &other, false),
        "importer dependencies.bar specifier doesn't match package manifest"
    );
    assert_eq!(
        refusal(&has_foo("^1.0.0", "2.0.0"), &wants_foo("^1.0.0"), true),
        "dependency \"foo\" is resolved to \"2.0.0\" which doesn't satisfy \"^1.0.0\""
    );
}

#[test]
fn links_may_be_left_out_of_the_lockfile() {
    let manifest = obj(vec![("dependencies", text_obj(&[("foo", "^1.0.0"), ("l", "link:../l")]))]);
    let snapshot = has_foo("^1.0.0", "1.0.1");
    assert!(satisfies_package_manifest(&snapshot, &manifest, false, true, true).is_ok());
    assert!(satisfies_package_manifest(&snapshot, &manifest, false, false, true).is_err());
}

#[test]
fn a_dev_dependency_that_is_a_dependency_too_counts_once() {
    let manifest = obj(vec![
        ("dependencies", text_obj(&[("foo", "^1.0.0")])),
        ("devDependencies", text_obj(&[("foo", "^1.0.0")])),
    ]);
    assert!(
        satisfies_package_manifest(&has_foo("^1.0.0", "1.0.1"), &manifest, false, false, true)
            .is_ok()
    );
}

#[test]
fn peers_that_were_installed_count_as_dependencies() {
    let manifest = obj(vec![("peerDependencies", text_obj(&[("foo", "^1.0.0")]))]);
    let snapshot = has_foo("^1.0.0", "1.0.1");
    assert!(satisfies_package_manifest(&snapshot, &manifest, true, false, true).is_ok());
    assert!(satisfies_package_manifest(&snapshot, &manifest, false, false, true).is_err());
}

#[test]
fn manifests_are_read() {
    let manifest = obj(vec![
        ("dependencies", obj(vec![("a", txt("1")), ("b", Json::Null)])),
        ("publishConfig", text_obj(&[("directory", "dist")])),
    ]);
    let read = extract_manifest(&manifest);
    assert_eq!(entries(&read.dependencies), pairs(&[("a", "1")]));
    assert_eq!(read.dev_dependencies.len(), 0);
    assert_eq!(read.publish_directory, Some(s("dist")));
    assert!(matches!(read.dependencies_meta, Json::Object(fields) if fields.is_empty()));

    let versions = resolved_map_to_versions(Some(&specs(vec![
        ("a", spec("^1", plain("a", "1.0.0", "(p@2.0.0)"))),
        ("l", spec("link:../l", link("link:../l"))),
        ("f", spec("file:../f", link("file:../f"))),
    ])));
    assert_eq!(versions.get_text("a"), Some(&s("1.0.0(p@2.0.0)")));
    assert_eq!(count_non_linked_deps(&versions), 1);
    assert_eq!(resolved_map_to_versions(None).len(), 0);
    assert_eq!(parse_semver_from_dep("1.0.0(p@2.0.0)").expect("a version").text(), "1.0.0");
    assert!(parse_semver_from_dep("link:../l").is_none());
}

#[test]
fn only_specifiers_that_are_held_against_versions_have_to_be_ranges() {
    assert!(!range_is_readable("~x") && !range_is_readable("=*"));
    let mut project = project(vec![
        ("a", spec("^1.0.0", plain("a", "1.0.0", ""))),
        ("x", spec("~x", plain("x", "1.0.0", ""))),
    ]);
    project.specifiers = Some(map(&[("a", "^1.0.0"), ("x", "~x")]));
    let asks = |names: &[(&str, &str)]| obj(vec![("dependencies", text_obj(names))]);
    let both = asks(&[("a", "^1.0.0"), ("x", "~x")]);
    assert!(!specifiers_are_readable(&project, &both, false, false, true));
    assert!(!specifiers_are_readable(&project, &both, false, false, false));
    let other = asks(&[("a", "^1.0.0"), ("x", "^2.0.0")]);
    assert!(specifiers_are_readable(&project, &other, false, false, true));
    assert!(satisfies_package_manifest(&project, &other, false, false, true).is_err());
    let one = asks(&[("a", "^1.0.0")]);
    assert!(specifiers_are_readable(&project, &one, false, false, false));
    assert!(satisfies_package_manifest(&project, &one, false, false, false).is_err());
    project.dependencies = Some(specs(vec![("a", spec("^1.0.0", plain("a", "1.0.0", "")))]));
    assert_eq!(satisfies_package_manifest(&project, &one, false, false, false), Ok(()));
}

#[test]
fn a_group_is_read_only_where_those_before_it_fit() {
    let mut project = project(vec![("a", spec("^1.0.0", plain("a", "2.0.0", "")))]);
    project.dev_dependencies = Some(specs(vec![("x", spec("~x", plain("x", "1.0.0", "")))]));
    project.specifiers = Some(map(&[("a", "^1.0.0"), ("x", "~x")]));
    let manifest = obj(vec![
        ("dependencies", text_obj(&[("a", "^1.0.0")])),
        ("devDependencies", text_obj(&[("x", "~x")])),
    ]);
    assert!(specifiers_are_readable(&project, &manifest, false, false, true));
    assert!(matches!(check_package_manifest(
        &project,
        &manifest,
        false,
        false,
        true,
    ), Some(Err(_))));
    project.dependencies = Some(specs(vec![("a", spec("^1.0.0", plain("a", "1.0.0", "")))]));
    assert!(!specifiers_are_readable(&project, &manifest, false, false, true));
    assert!(check_package_manifest(&project, &manifest, false, false, true).is_none());
}
