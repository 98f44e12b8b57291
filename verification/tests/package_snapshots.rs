use pacquet_package_manager::lockfile::{
    DependencyPath, LockfileResolution, PackageMap, PackageSnapshot, PkgNameVerPeer, PkgVerPeer,
};
use pacquet_package_manager::package_snapshots::{
    PackageSnapshots, ResolvedPackages, downgrade_existing_snapshot_optional_flag,
    find_local_directory,
};
use pacquet_package_manager::semver::Version;

fn s(text: &str) -> String {
    text.to_string()
}

fn ver(text: &str) -> Version {
    Version::parse(text).expect("a version")
}

fn suffix(name: &str, version: &str, peer: &str) -> PkgVerPeer {
    let store_name = format!("{name}@{version}{peer}");
    PkgVerPeer {
        version: ver(version),
        peer: peer.to_string(),
        store_name: store_name.replace('/', "+").replace('(', "_").replace(')', ""),
    }
}

fn package(name: &str, version: &str, peer: &str) -> PkgNameVerPeer {
    PkgNameVerPeer { name: name.to_string(), suffix: suffix(name, version, peer) }
}

fn path(name: &str, version: &str, peer: &str) -> DependencyPath {
    DependencyPath::registry(None, package(name, version, peer))
}

fn local_path(name: &str, reference: &str) -> DependencyPath {
    let store_name = format!("{name}@{reference}").replace([':', '/'], "+");
    DependencyPath::local_file(name.to_string(), reference.to_string(), store_name)
}

fn snapshot() -> PackageSnapshot {
    PackageSnapshot {
        resolution: LockfileResolution::Tarball {
            tarball: "file:dummy.tgz".to_string(),
            integrity: None,
        },
        id: None,
        name: None,
        version: None,
        engines: None,
        cpu: None,
        os: None,
        libc: None,
        deprecated: None,
        has_bin: None,
        prepare: None,
        requires_build: None,
        bundled_dependencies: None,
        peer_dependencies: None,
        peer_dependencies_meta: None,
        dependencies: None,
        optional_dependencies: None,
        transitive_peer_dependencies: None,
        dev: None,
        optional: None,
    }
}

fn packages(entries: Vec<(DependencyPath, PackageSnapshot)>) -> PackageMap {
    let mut packages = PackageMap::new();
    for (path, snapshot) in entries {
        packages.insert(path, snapshot);
    }
    packages
}

#[test]
fn downgrade_existing_snapshot_optional_flag_clears_optional_for_required_reuse() {
    let mut optional = snapshot();
    optional.optional = Some(true);
    let mut package_snapshots = PackageSnapshots::new();
    package_snapshots.insert(path("foo", "1.0.0", ""), optional);

    downgrade_existing_snapshot_optional_flag(
        &mut package_snapshots,
        &path("foo", "1.0.0", ""),
        false,
    );

    let snapshot = package_snapshots.get(&path("foo", "1.0.0", "")).expect("snapshot");
    assert_eq!(snapshot.optional, None);
}

#[test]
fn what_was_resolved_is_told_apart() {
    let mut resolved = ResolvedPackages::new();
    assert!(resolved.insert(s("foo@1.0.0")));
    assert!(!resolved.insert(s("foo@1.0.0")));
    assert!(resolved.insert(s("bar@1.0.0")));
}

#[test]
fn snapshots_are_held_by_their_path() {
    let mut held = PackageSnapshots::new();
    let mut foo = snapshot();
    foo.id = Some(s("first"));
    held.insert(path("foo", "1.0.0", ""), foo);
    held.insert(path("foo", "1.0.0", "(p@1.0.0)"), snapshot());
    let mut foo = snapshot();
    foo.id = Some(s("second"));
    held.insert(path("foo", "1.0.0", ""), foo);
    assert_eq!(held.len(), 2);
    assert_eq!(held.key_at(0).text(), path("foo", "1.0.0", "").text());
    assert_eq!(held.value_at(0).id, Some(s("second")));
    assert_eq!(held.position(&path("foo", "1.0.0", "(p@1.0.0)")), Some(1));
    assert!(held.get(&path("foo", "2.0.0", "")).is_none());

    let mut packages = packages(vec![(path("bar", "1.0.0", ""), snapshot())]);
    held.add_to(&mut packages);
    assert_eq!(packages.len(), 3);
    assert_eq!(
        packages.get(&path("foo", "1.0.0", "")).expect("foo").id,
        Some(s("second"))
    );
}

#[test]
fn local_directories_are_found() {
    let mut held = PackageSnapshots::new();
    held.insert(path("foo", "1.0.0", ""), snapshot());
    let mut local = snapshot();
    local.resolution = LockfileResolution::Directory { directory: s("packages/lib") };
    held.insert(local_path("lib", "file:packages/lib"), local);
    assert_eq!(find_local_directory(&held, "file:packages/lib", "packages/lib"), Some(1));
    assert_eq!(find_local_directory(&held, "file:packages/other", "packages/other"), None);
}

#[test]
fn an_optional_use_leaves_the_mark() {
    let mut optional = snapshot();
    optional.optional = Some(true);
    let mut held = PackageSnapshots::new();
    held.insert(path("foo", "1.0.0", ""), optional);
    downgrade_existing_snapshot_optional_flag(&mut held, &path("foo", "1.0.0", ""), true);
    assert_eq!(held.value_at(0).optional, Some(true));
    downgrade_existing_snapshot_optional_flag(&mut held, &path("bar", "1.0.0", ""), false);
    assert_eq!(held.value_at(0).optional, Some(true));
}
