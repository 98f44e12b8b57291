use pacquet_package_manager::lockfile::{
    DependencyPath, LockfileResolution, PackageMap, PackageSnapshot, PackageSnapshotDependency,
    PkgNameVerPeer, PkgVerPeer, ProjectSnapshot, ResolvedDependencyMap, ResolvedDependencySpec,
    ResolvedDependencyVersion, RootProjectSnapshot,
};
use pacquet_package_manager::prune::{
    collect_package_snapshot_dependency_paths, collect_project_dependency_paths,
    prune_unreferenced_packages,
};
use pacquet_package_manager::semver::Version;
use pacquet_package_manager::table::TextMap;

fn s(text: &str) -> String {
    text.to_string()
}

fn texts(list: &[&str]) -> Vec<String> {
    list.iter().map(|text| text.to_string()).collect()
}

fn ver(text: &str) -> Version {
    Version::parse(text).expect("a version")
}

fn suffix(name: &str, version: &str, peer: &str) -> PkgVerPeer {
    let store_name = format!("{name}@{version}{peer}");
    PkgVerPeer {
        version: ver(version),
        peer: peer.to_string(),
        store_name: store_name.replace('/', "+").replace('(', "_").replace(')', ""),
    }
}

fn package(name: &str, version: &str, peer: &str) -> PkgNameVerPeer {
    PkgNameVerPeer { name: name.to_string(), suffix: suffix(name, version, peer) }
}

fn path(name: &str, version: &str, peer: &str) -> DependencyPath {
    DependencyPath::registry(None, package(name, version, peer))
}

fn local_path(name: &str, reference: &str) -> DependencyPath {
    let store_name = format!("{name}@{reference}").replace([':', '/'], "+");
    DependencyPath::local_file(name.to_string(), reference.to_string(), store_name)
}

fn snapshot() -> PackageSnapshot {
    PackageSnapshot {
        resolution: LockfileResolution::Tarball {
            tarball: "file:dummy.tgz".to_string(),
            integrity: None,
        },
        id: None,
        name: None,
        version: None,
        engines: None,
        cpu: None,
        os: None,
        libc: None,
        deprecated: None,
        has_bin: None,
        prepare: None,
        requires_build: None,
        bundled_dependencies: None,
        peer_dependencies: None,
        peer_dependencies_meta: None,
        dependencies: None,
        optional_dependencies: None,
        transitive_peer_dependencies: None,
        dev: None,
        optional: None,
    }
}

fn packages(entries: Vec<(DependencyPath, PackageSnapshot)>) -> PackageMap {
    let mut packages = PackageMap::new();
    for (path, snapshot) in entries {
        packages.insert(path, snapshot);
    }
    packages
}

fn paths_of(packages: &PackageMap) -> Vec<String> {
    let mut paths: Vec<String> =
        (0..packages.len()).map(|i| packages.key_at(i).text()).collect();
    paths.sort();
    paths
}

fn spec(specifier: &str, version: ResolvedDependencyVersion) -> ResolvedDependencySpec {
    ResolvedDependencySpec { specifier: specifier.to_string(), version }
}

fn plain(name: &str, version: &str, peer: &str) -> ResolvedDependencyVersion {
    ResolvedDependencyVersion::PkgVerPeer(suffix(name, version, peer))
}

fn link(target: &str) -> ResolvedDependencyVersion {
    ResolvedDependencyVersion::Link(target.to_string())
}

fn specs(entries: Vec<(&str, ResolvedDependencySpec)>) -> ResolvedDependencyMap {
    let mut specs = ResolvedDependencyMap::new();
    for (name, spec) in entries {
        specs.insert(name.to_string(), spec);
    }
    specs
}

fn project(dependencies: Vec<(&str, ResolvedDependencySpec)>) -> ProjectSnapshot {
    let mut project = ProjectSnapshot::empty();
    project.dependencies = Some(specs(dependencies));
    project
}

fn importers(entries: Vec<(&str, ProjectSnapshot)>) -> RootProjectSnapshot {
    let mut importers = TextMap::new();
    for (id, project) in entries {
        importers.insert(id.to_string(), project);
    }
    RootProjectSnapshot::Multi(importers)
}

#[test]
fn prune_unreferenced_packages_removes_unused_local_directory_snapshot() {
    let mut dependencies = TextMap::new();
    dependencies.insert(
        s("is-number"),
        PackageSnapshotDependency::PkgVerPeer(suffix("is-number", "7.0.0", "")),
    );
    let mut local = snapshot();
    local.resolution = LockfileResolution::Directory { directory: s("packages/project-1") };
    local.dependencies = Some(dependencies);
    let packages = packages(vec![
        (local_path("project-1", "file:packages/project-1"), local),
        (path("is-number", "7.0.0", ""), snapshot()),
    ]);

    let project_snapshot = importers(vec![
        (
            "packages/project-1",
            project(vec![("is-number", spec("7.0.0", plain("is-number", "7.0.0", "")))]),
        ),
        (
            "packages/project-2",
            project(vec![("project-1", spec("workspace:*", link("link:../project-1")))]),
        ),
    ]);

    let packages = prune_unreferenced_packages(&project_snapshot, &packages);

    assert_eq!(packages.len(), 1);
    assert!(packages.contains_key(&path("is-number", "7.0.0", "")));
}

fn needs(name: &str) -> PackageSnapshot {
    let mut dependencies = TextMap::new();
    dependencies.insert(s(name), PackageSnapshotDependency::PkgVerPeer(suffix(name, "1.0.0", "")));
    let mut snapshot = snapshot();
    snapshot.dependencies = Some(dependencies);
    snapshot
}

#[test]
fn what_is_reached_stays_and_nothing_else() {
    let packages = packages(vec![
        (path("a", "1.0.0", ""), needs("b")),
        (path("b", "1.0.0", ""), needs("a")),
        (path("c", "1.0.0", ""), needs("d")),
        (path("d", "1.0.0", ""), snapshot()),
    ]);
    let root = importers(vec![(".", project(vec![("a", spec("^1", plain("a", "1.0.0", "")))]))]);
    let kept = prune_unreferenced_packages(&root, &packages);
    assert_eq!(paths_of(&kept), texts(&["/a@1.0.0", "/b@1.0.0"]));
    let again = prune_unreferenced_packages(&root, &kept);
    assert_eq!(paths_of(&again), paths_of(&kept));
}

#[test]
fn references_of_projects_and_packages_are_collected() {
    let packages = packages(vec![
        (path("a", "1.0.0", ""), needs("b")),
        (path("b", "1.0.0", ""), snapshot()),
        (local_path("lib", "file:lib"), snapshot()),
    ]);
    let project = project(vec![
        ("a", spec("^1", plain("a", "1.0.0", ""))),
        ("lib", spec("file:lib", link("file:lib"))),
        ("l", spec("link:../l", link("link:../l"))),
    ]);
    let mut queue = Vec::new();
    collect_project_dependency_paths(&project, &packages, &mut queue);
    let mut found: Vec<String> = queue.iter().map(|path| path.text()).collect();
    found.sort();
    assert_eq!(found, texts(&["/a@1.0.0", "/lib@file:lib"]));
    let mut queue = Vec::new();
    collect_package_snapshot_dependency_paths(packages.value_at(0), &packages, &mut queue);
    let found: Vec<String> = queue.iter().map(|path| path.text()).collect();
    assert_eq!(found, texts(&["/b@1.0.0"]));
}

#[test]
fn keys_keep_their_directories() {
    let packages = packages(vec![
        (path("a", "1.0.0", "(p@1.0.0)"), needs("b")),
        (path("b", "1.0.0", ""), snapshot()),
        (local_path("lib", "file:lib"), snapshot()),
    ]);
    let root = importers(vec![(
        ".",
        project(vec![
            ("a", spec("^1", plain("a", "1.0.0", "(p@1.0.0)"))),
            ("lib", spec("file:lib", link("file:lib"))),
        ]),
    )]);
    let kept = prune_unreferenced_packages(&root, &packages);
    let mut names: Vec<&str> = (0..kept.len())
        .map(|i| kept.key_at(i).package_specifier.to_virtual_store_name())
        .collect();
    names.sort();
    assert_eq!(names, ["a@1.0.0_p@1.0.0", "b@1.0.0", "lib@file+lib"]);
}
