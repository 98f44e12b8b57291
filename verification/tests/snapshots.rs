use pacquet_package_manager::lockfile::{
    DependencyPath, LockfileResolution, OptionalReference, PackageMap, PackageSnapshot,
    PackageSnapshotDependency, PkgNameVerPeer, PkgVerPeer, ProjectSnapshot, ResolvedDependencyMap,
    ResolvedDependencySpec, ResolvedDependencyVersion,
};
use pacquet_package_manager::semver::Version;
use pacquet_package_manager::snapshots::{
    dedupe_project_snapshot, dedupe_resolved_dependency_map, deduped_path,
    dependency_path_from_resolved_version, dependency_path_from_snapshot_dependency,
    dependency_score, direct_dependency_path, direct_dependency_virtual_store_location,
    is_compatible_and_has_more_deps, package_dependency_map, resolve_package_snapshot,
    resolve_package_snapshot_deduped, resolved_path_to_version, resolved_store_name,
    same_base_package,
};
use pacquet_package_manager::table::TextMap;

fn s(text: &str) -> String {
    text.to_string()
}

fn texts(list: &[&str]) -> Vec<String> {
    list.iter().map(|text| text.to_string()).collect()
}

fn ver(text: &str) -> Version {
    Version::parse(text).expect("a version")
}

fn suffix(name: &str, version: &str, peer: &str) -> PkgVerPeer {
    let store_name = format!("{name}@{version}{peer}");
    PkgVerPeer {
        version: ver(version),
        peer: peer.to_string(),
        store_name: store_name.replace('/', "+").replace('(', "_").replace(')', ""),
    }
}

fn package(name: &str, version: &str, peer: &str) -> PkgNameVerPeer {
    PkgNameVerPeer { name: name.to_string(), suffix: suffix(name, version, peer) }
}

fn path(name: &str, version: &str, peer: &str) -> DependencyPath {
    DependencyPath::registry(None, package(name, version, peer))
}

fn snapshot() -> PackageSnapshot {
    PackageSnapshot {
        resolution: LockfileResolution::Tarball {
            tarball: "file:dummy.tgz".to_string(),
            integrity: None,
        },
        id: None,
        name: None,
        version: None,
        engines: None,
        cpu: None,
        os: None,
        libc: None,
        deprecated: None,
        has_bin: None,
        prepare: None,
        requires_build: None,
        bundled_dependencies: None,
        peer_dependencies: None,
        peer_dependencies_meta: None,
        dependencies: None,
        optional_dependencies: None,
        transitive_peer_dependencies: None,
        dev: None,
        optional: None,
    }
}

fn packages(entries: Vec<(DependencyPath, PackageSnapshot)>) -> PackageMap {
    let mut packages = PackageMap::new();
    for (path, snapshot) in entries {
        packages.insert(path, snapshot);
    }
    packages
}

fn spec(specifier: &str, version: ResolvedDependencyVersion) -> ResolvedDependencySpec {
    ResolvedDependencySpec { specifier: specifier.to_string(), version }
}

fn plain(name: &str, version: &str, peer: &str) -> ResolvedDependencyVersion {
    ResolvedDependencyVersion::PkgVerPeer(suffix(name, version, peer))
}

fn alias(name: &str, version: &str, peer: &str) -> ResolvedDependencyVersion {
    ResolvedDependencyVersion::PkgNameVerPeer(package(name, version, peer))
}

fn link(target: &str) -> ResolvedDependencyVersion {
    ResolvedDependencyVersion::Link(target.to_string())
}

fn specs(entries: Vec<(&str, ResolvedDependencySpec)>) -> ResolvedDependencyMap {
    let mut specs = ResolvedDependencyMap::new();
    for (name, spec) in entries {
        specs.insert(name.to_string(), spec);
    }
    specs
}

fn project(dependencies: Vec<(&str, ResolvedDependencySpec)>) -> ProjectSnapshot {
    let mut project = ProjectSnapshot::empty();
    project.dependencies = Some(specs(dependencies));
    project
}

#[test]
fn package_dependency_map_includes_optional_dependencies() {
    let mut snapshot = snapshot();
    snapshot.resolution = LockfileResolution::Registry {
        integrity: s(
            "sha512-gf6ZldcfCDyNXPRiW3lQjEP1Z9rrUM/4Cn7BZbv3SdTA82zxWRP8OmLwvGR974uuENhGCFgFdN11z3n1Ofpprg==",
        ),
    };
    let mut optional_dependencies = TextMap::new();
    optional_dependencies.insert(
        s("@esbuild/win32-x64"),
        OptionalReference {
            text: s("0.27.1"),
            dependency: Some(PackageSnapshotDependency::PkgVerPeer(suffix(
                "@esbuild/win32-x64",
                "0.27.1",
                "",
            ))),
        },
    );
    snapshot.optional_dependencies = Some(optional_dependencies);
    let dependencies = package_dependency_map(&snapshot);

    assert_eq!(dependencies.len(), 1);
    assert!(dependencies.contains_text("@esbuild/win32-x64"));
}

#[test]
fn direct_dependency_virtual_store_location_for_alias() {
    let target = package("@scope/real", "1.2.3", "");
    let received = direct_dependency_virtual_store_location(
        "@scope/dep",
        &alias("@scope/real", "1.2.3", ""),
        None,
    )
    .expect("resolved location");
    assert_eq!(received.0, "@scope/dep");
    assert_eq!(received.1, target.suffix.store_name);
    assert_eq!(received.2, "@scope/real");
}

#[test]
fn direct_dependency_virtual_store_location_for_link_is_none() {
    let received = direct_dependency_virtual_store_location("dep", &link("link:../dep"), None);
    assert!(received.is_none());
}

#[test]
fn direct_dependency_virtual_store_location_for_regular_dep() {
    let received =
        direct_dependency_virtual_store_location("dep", &plain("dep", "1.0.0", ""), None)
            .expect("resolved location");
    assert_eq!(received.0, "dep");
    assert_eq!(received.2, "dep");
    assert_eq!(received.1, "dep@1.0.0");
}

fn with_dependencies(names: &[&str], transitive_peers: &[&str]) -> PackageSnapshot {
    let mut dependencies = TextMap::new();
    for name in names {
        dependencies
            .insert(s(name), PackageSnapshotDependency::PkgVerPeer(suffix(name, "1.0.0", "")));
    }
    let mut snapshot = snapshot();
    snapshot.dependencies = Some(dependencies);
    snapshot.transitive_peer_dependencies = Some(texts(transitive_peers));
    snapshot
}

fn foo_variants() -> PackageMap {
    packages(vec![
        (path("foo", "1.0.0", "(peer-a@1.0.0)"), with_dependencies(&["bar"], &["peer-a"])),
        (
            path("foo", "1.0.0", "(peer-a@1.0.0)(peer-b@1.0.0)"),
            with_dependencies(&["bar", "baz"], &["peer-a", "peer-b"]),
        ),
    ])
}

fn resolved_version(deduped: &ProjectSnapshot, name: &str) -> String {
    let resolved = deduped
        .dependencies
        .as_ref()
        .and_then(|deps| deps.get_text(name))
        .expect("resolved dependency");
    let ResolvedDependencyVersion::PkgVerPeer(ver_peer) = &resolved.version else {
        panic!("expected pkgverpeer");
    };
    ver_peer.text()
}

#[test]
fn install_frozen_lockfile_dedupe_project_snapshot_prefers_compatible_variant_with_more_deps() {
    let project = project(vec![("foo", spec("^1.0.0", plain("foo", "1.0.0", "(peer-a@1.0.0)")))]);
    let deduped = dedupe_project_snapshot(&project, Some(&foo_variants()), true);
    assert_eq!(resolved_version(&deduped, "foo"), "1.0.0(peer-a@1.0.0)(peer-b@1.0.0)");
}

#[test]
fn install_frozen_lockfile_dedupe_project_snapshot_keeps_original_when_disabled() {
    let packages = packages(vec![
        (path("foo", "1.0.0", "(peer-a@1.0.0)"), snapshot()),
        (path("foo", "1.0.0", "(peer-a@1.0.0)(peer-b@1.0.0)"), snapshot()),
    ]);
    let project = project(vec![("foo", spec("^1.0.0", plain("foo", "1.0.0", "(peer-a@1.0.0)")))]);
    let deduped = dedupe_project_snapshot(&project, Some(&packages), false);
    assert_eq!(resolved_version(&deduped, "foo"), "1.0.0(peer-a@1.0.0)");
}

#[test]
fn install_with_lockfile_dedupe_project_snapshot_prefers_compatible_variant_with_more_deps() {
    let packages = foo_variants();
    let project = project(vec![("foo", spec("^1.0.0", plain("foo", "1.0.0", "(peer-a@1.0.0)")))]);
    let deduped = dedupe_project_snapshot(&project, Some(&packages), true);
    let better_path = packages.key_at(1);
    assert_eq!(
        format!("foo@{}", resolved_version(&deduped, "foo")),
        better_path.package_specifier.text()
    );
}

#[test]
fn install_with_lockfile_dedupe_project_snapshot_keeps_original_when_disabled() {
    let packages = packages(vec![
        (path("foo", "1.0.0", "(peer-a@1.0.0)"), snapshot()),
        (path("foo", "1.0.0", "(peer-a@1.0.0)(peer-b@1.0.0)"), snapshot()),
    ]);
    let project = project(vec![("foo", spec("^1.0.0", plain("foo", "1.0.0", "(peer-a@1.0.0)")))]);
    let deduped = dedupe_project_snapshot(&project, Some(&packages), false);
    let current_path = packages.key_at(0);
    assert_eq!(
        format!("foo@{}", resolved_version(&deduped, "foo")),
        current_path.package_specifier.text()
    );
}

#[test]
fn snapshots_are_resolved_whatever_their_registry() {
    let packages = foo_variants();
    assert_eq!(resolve_package_snapshot(&packages, &path("foo", "1.0.0", "(peer-a@1.0.0)")), Some(0));
    let foo = package("foo", "1.0.0", "(peer-a@1.0.0)");
    let elsewhere = DependencyPath::registry(Some(s("reg.example")), foo);
    assert_eq!(resolve_package_snapshot(&packages, &elsewhere), Some(0));
    assert_eq!(resolve_package_snapshot(&packages, &path("foo", "1.0.0", "")), None);
    assert_eq!(resolve_package_snapshot(&packages, &path("foo", "2.0.0", "")), None);
    assert!(same_base_package(packages.key_at(0), packages.key_at(1)));
    assert!(!same_base_package(packages.key_at(0), &path("foo", "2.0.0", "")));
    assert!(!same_base_package(packages.key_at(0), &path("bar", "1.0.0", "")));
}

#[test]
fn a_variant_with_more_dependencies_is_preferred() {
    let packages = foo_variants();
    let (small, large) = (packages.value_at(0), packages.value_at(1));
    assert!(dependency_score(small) < dependency_score(large));
    assert!(is_compatible_and_has_more_deps(large, small));
    assert!(!is_compatible_and_has_more_deps(small, large));
    assert!(is_compatible_and_has_more_deps(small, small));
    let from = path("foo", "1.0.0", "(peer-a@1.0.0)");
    assert_eq!(resolve_package_snapshot_deduped(&packages, &from), Some(1));
    assert_eq!(resolve_package_snapshot_deduped(&packages, packages.key_at(1)), Some(1));
    let map = specs(vec![("foo", spec("^1", plain("foo", "1.0.0", "(peer-a@1.0.0)")))]);
    let deduped = dedupe_resolved_dependency_map(&map, &packages);
    let once = &deduped.get_text("foo").expect("foo").version;
    assert_eq!(once.text(), "1.0.0(peer-a@1.0.0)(peer-b@1.0.0)");
    let again = dedupe_resolved_dependency_map(&deduped, &packages);
    assert_eq!(again.get_text("foo").expect("foo").version.text(), once.text());
}

#[test]
fn references_lead_to_paths() {
    let text = |path: Option<DependencyPath>| path.map(|path| path.text());
    assert_eq!(
        text(dependency_path_from_snapshot_dependency(
            "foo",
            &PackageSnapshotDependency::PkgVerPeer(suffix("foo", "1.0.0", ""))
        )),
        Some(s("/foo@1.0.0"))
    );
    assert_eq!(
        text(dependency_path_from_snapshot_dependency(
            "foo",
            &PackageSnapshotDependency::Link(s("link:../foo"))
        )),
        None
    );
    assert_eq!(
        text(dependency_path_from_resolved_version("foo", &alias("bar", "2.0.0", ""))),
        Some(s("/bar@2.0.0"))
    );
    assert_eq!(text(dependency_path_from_resolved_version("foo", &link("link:../foo"))), None);
    assert_eq!(resolved_path_to_version("foo", &path("foo", "1.0.0", "")).text(), "1.0.0");
    assert_eq!(resolved_path_to_version("foo", &path("bar", "1.0.0", "")).text(), "bar@1.0.0");
    let packages = foo_variants();
    let foo = plain("foo", "1.0.0", "(peer-a@1.0.0)");
    assert_eq!(direct_dependency_path("foo", &foo, &packages), Some(0));
    assert_eq!(direct_dependency_path("foo", &plain("foo", "1.0.0", ""), &packages), None);
    assert_eq!(direct_dependency_path("bar", &plain("bar", "1.0.0", ""), &packages), None);
}

#[test]
fn a_preferred_variant_brings_its_directory() {
    let mut richer = snapshot();
    richer.transitive_peer_dependencies = Some(texts(&["react"]));
    let packages = packages(vec![
        (path("a", "1.0.0", ""), snapshot()),
        (path("a", "1.0.0", "(react@18.0.0)"), richer),
    ]);
    let project = project(vec![
        ("a", spec("^1", plain("a", "1.0.0", ""))),
        ("b", spec("npm:a@^1", alias("a", "1.0.0", ""))),
    ]);
    let deduped = dedupe_project_snapshot(&project, Some(&packages), true);
    let dependencies = deduped.dependencies.expect("dependencies");
    for name in ["a", "b"] {
        let version = &dependencies.get_text(name).expect("a version").version;
        assert_eq!(
            direct_dependency_virtual_store_location(name, version, Some(&packages)),
            Some((s(name), s("a@1.0.0_react@18.0.0"), s("a")))
        );
    }
}

#[test]
fn build_tags_do_not_tell_dependencies_apart() {
    let needs = |version: &str| {
        let mut package = snapshot();
        let mut dependencies = TextMap::new();
        dependencies
            .insert(s("d"), PackageSnapshotDependency::PkgVerPeer(suffix("d", version, "")));
        package.dependencies = Some(dependencies);
        package
    };
    assert!(is_compatible_and_has_more_deps(&needs("1.0.0+a"), &needs("1.0.0+b")));
    assert!(!is_compatible_and_has_more_deps(&needs("1.0.1"), &needs("1.0.0")));
}

#[test]
fn a_key_is_kept_as_it_was_looked_for() {
    let all = packages(vec![
        (path("a", "1.0.0+x", ""), snapshot()),
        (path("b", "1.0.0+x", "(p@1.0.0)"), snapshot()),
    ]);
    let wanted = project(vec![
        ("a", spec("1.0.0", plain("a", "1.0.0+y", ""))),
        ("b", spec("1.0.0", plain("b", "1.0.0+y", "(p@1.0.0)"))),
    ]);
    let deduped = dedupe_project_snapshot(&wanted, Some(&all), true);
    let map = deduped.dependencies.expect("dependencies");
    assert_eq!(map.get_text("a").expect("a").version.text(), "1.0.0+y");
    assert_eq!(map.get_text("b").expect("b").version.text(), "1.0.0+y(p@1.0.0)");
    let looked_for = path("a", "1.0.0+y", "");
    assert_eq!(deduped_path(&all, &looked_for).expect("a key").text(), "/a@1.0.0+y");
    assert_eq!(resolved_store_name(&all, &looked_for), Some((0, "a@1.0.0+y")));
    let mut elsewhere = path("a", "1.0.0+y", "");
    elsewhere.custom_registry = Some(s("other"));
    assert_eq!(deduped_path(&all, &elsewhere).expect("a key").text(), "/a@1.0.0+x");
    assert_eq!(resolved_store_name(&all, &elsewhere), Some((0, "a@1.0.0+x")));
    assert!(deduped_path(&all, &path("c", "1.0.0", "")).is_none());
}
