use pacquet_package_manager::lockfile::{
    DependencyGroup, DependencyPath, PkgNameVerPeer, PkgVerPeer, ProjectSnapshot,
    ResolvedDependencyMap, ResolvedDependencySpec, ResolvedDependencyVersion,
};
use pacquet_package_manager::semver::Version;
use pacquet_package_manager::table::TextMap;
use pacquet_package_manager::value::Value;

fn s(text: &str) -> String {
    text.to_string()
}

fn texts(list: &[&str]) -> Vec<String> {
    list.iter().map(|text| text.to_string()).collect()
}

fn keys<V: Value>(map: &TextMap<V>) -> Vec<String> {
    (0..map.len()).map(|i| map.key_at(i).clone()).collect()
}

fn ver(text: &str) -> Version {
    Version::parse(text).expect("a version")
}

fn suffix(name: &str, version: &str, peer: &str) -> PkgVerPeer {
    let store_name = format!("{name}@{version}{peer}");
    PkgVerPeer {
        version: ver(version),
        peer: peer.to_string(),
        store_name: store_name.replace('/', "+").replace('(', "_").replace(')', ""),
    }
}

fn package(name: &str, version: &str, peer: &str) -> PkgNameVerPeer {
    PkgNameVerPeer { name: name.to_string(), suffix: suffix(name, version, peer) }
}

fn path(name: &str, version: &str, peer: &str) -> DependencyPath {
    DependencyPath::registry(None, package(name, version, peer))
}

fn local_path(name: &str, reference: &str) -> DependencyPath {
    let store_name = format!("{name}@{reference}").replace([':', '/'], "+");
    DependencyPath::local_file(name.to_string(), reference.to_string(), store_name)
}

fn spec(specifier: &str, version: ResolvedDependencyVersion) -> ResolvedDependencySpec {
    ResolvedDependencySpec { specifier: specifier.to_string(), version }
}

fn plain(name: &str, version: &str, peer: &str) -> ResolvedDependencyVersion {
    ResolvedDependencyVersion::PkgVerPeer(suffix(name, version, peer))
}

fn alias(name: &str, version: &str, peer: &str) -> ResolvedDependencyVersion {
    ResolvedDependencyVersion::PkgNameVerPeer(package(name, version, peer))
}

fn link(target: &str) -> ResolvedDependencyVersion {
    ResolvedDependencyVersion::Link(target.to_string())
}

fn specs(entries: Vec<(&str, ResolvedDependencySpec)>) -> ResolvedDependencyMap {
    let mut specs = ResolvedDependencyMap::new();
    for (name, spec) in entries {
        specs.insert(name.to_string(), spec);
    }
    specs
}

fn project(dependencies: Vec<(&str, ResolvedDependencySpec)>) -> ProjectSnapshot {
    let mut project = ProjectSnapshot::empty();
    project.dependencies = Some(specs(dependencies));
    project
}

#[test]
fn dependencies_are_named_by_their_path() {
    let registry = path("foo", "1.0.0", "(bar@2.0.0)");
    assert_eq!(registry.text(), "/foo@1.0.0(bar@2.0.0)");
    assert_eq!(registry.package_specifier.name(), "foo");
    assert_eq!(registry.package_specifier.to_virtual_store_name(), "foo@1.0.0_bar@2.0.0");
    assert_eq!(registry.local_file_reference(), None);
    let other = DependencyPath::registry(Some(s("reg.example")), package("foo", "1.0.0", ""));
    assert_eq!(other.text(), "reg.example/foo@1.0.0");
    let local = local_path("lib", "file:packages/lib");
    assert_eq!(local.local_file_reference(), Some("file:packages/lib"));
    assert_eq!(local.package_specifier.name(), "lib");
    assert_eq!(local.package_specifier.text(), "lib@file:packages/lib");
}

#[test]
fn versions_are_written_out() {
    assert_eq!(plain("foo", "1.0.0-rc.1", "(bar@2.0.0)").text(), "1.0.0-rc.1(bar@2.0.0)");
    assert_eq!(alias("foo", "1.0.0", "").text(), "foo@1.0.0");
    assert_eq!(link("link:../foo").text(), "link:../foo");
}

#[test]
fn projects_keep_their_groups_apart() {
    let mut snapshot = project(vec![("a", spec("1", plain("a", "1.0.0", "")))]);
    snapshot.dev_dependencies = Some(specs(vec![("b", spec("2", plain("b", "2.0.0", "")))]));
    let names = |group| snapshot.get_map_by_group(group).map(|map| keys(map));
    assert_eq!(names(DependencyGroup::Prod), Some(texts(&["a"])));
    assert_eq!(names(DependencyGroup::Dev), Some(texts(&["b"])));
    assert_eq!(names(DependencyGroup::Optional), None);
    assert_eq!(names(DependencyGroup::Peer), None);
}
