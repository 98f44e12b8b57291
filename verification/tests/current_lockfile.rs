use pacquet_package_manager::current_lockfile::{
    current_lockfile_for_installers,
    current_lockfile_for_installers_preserving_unselected_importers,
    current_lockfile_matches_expected, filter_project_snapshot, importer_id_from_link,
    preserve_current_packages_for_unselected_importers, project_snapshot_by_id,
};
use pacquet_package_manager::lockfile::{
    DependencyGroup, DependencyPath, Lockfile, LockfileResolution, PackageMap, PackageSnapshot,
    PackageSnapshotDependency, PkgNameVerPeer, PkgVerPeer, ProjectSnapshot, ResolvedDependencyMap,
    ResolvedDependencySpec, ResolvedDependencyVersion, RootProjectSnapshot,
};
use pacquet_package_manager::semver::Version;
use pacquet_package_manager::table::TextMap;
use pacquet_package_manager::value::Value;

fn s(text: &str) -> String {
    text.to_string()
}

fn texts(list: &[&str]) -> Vec<String> {
    list.iter().map(|text| text.to_string()).collect()
}

fn map(entries: &[(&str, &str)]) -> TextMap<String> {
    let mut map = TextMap::new();
    for (key, value) in entries {
        map.insert(key.to_string(), value.to_string());
    }
    map
}

fn keys<V: Value>(map: &TextMap<V>) -> Vec<String> {
    (0..map.len()).map(|i| map.key_at(i).clone()).collect()
}

fn ver(text: &str) -> Version {
    Version::parse(text).expect("a version")
}

fn suffix(name: &str, version: &str, peer: &str) -> PkgVerPeer {
    let store_name = format!("{name}@{version}{peer}");
    PkgVerPeer {
        version: ver(version),
        peer: peer.to_string(),
        store_name: store_name.replace('/', "+").replace('(', "_").replace(')', ""),
    }
}

fn package(name: &str, version: &str, peer: &str) -> PkgNameVerPeer {
    PkgNameVerPeer { name: name.to_string(), suffix: suffix(name, version, peer) }
}

fn path(name: &str, version: &str, peer: &str) -> DependencyPath {
    DependencyPath::registry(None, package(name, version, peer))
}

fn snapshot() -> PackageSnapshot {
    PackageSnapshot {
        resolution: LockfileResolution::Tarball {
            tarball: "file:dummy.tgz".to_string(),
            integrity: None,
        },
        id: None,
        name: None,
        version: None,
        engines: None,
        cpu: None,
        os: None,
        libc: None,
        deprecated: None,
        has_bin: None,
        prepare: None,
        requires_build: None,
        bundled_dependencies: None,
        peer_dependencies: None,
        peer_dependencies_meta: None,
        dependencies: None,
        optional_dependencies: None,
        transitive_peer_dependencies: None,
        dev: None,
        optional: None,
    }
}

fn packages(entries: Vec<(DependencyPath, PackageSnapshot)>) -> PackageMap {
    let mut packages = PackageMap::new();
    for (path, snapshot) in entries {
        packages.insert(path, snapshot);
    }
    packages
}

fn paths_of(packages: &PackageMap) -> Vec<String> {
    let mut paths: Vec<String> =
        (0..packages.len()).map(|i| packages.key_at(i).text()).collect();
    paths.sort();
    paths
}

fn spec(specifier: &str, version: ResolvedDependencyVersion) -> ResolvedDependencySpec {
    ResolvedDependencySpec { specifier: specifier.to_string(), version }
}

fn plain(name: &str, version: &str, peer: &str) -> ResolvedDependencyVersion {
    ResolvedDependencyVersion::PkgVerPeer(suffix(name, version, peer))
}

fn link(target: &str) -> ResolvedDependencyVersion {
    ResolvedDependencyVersion::Link(target.to_string())
}

fn specs(entries: Vec<(&str, ResolvedDependencySpec)>) -> ResolvedDependencyMap {
    let mut specs = ResolvedDependencyMap::new();
    for (name, spec) in entries {
        specs.insert(name.to_string(), spec);
    }
    specs
}

fn project(dependencies: Vec<(&str, ResolvedDependencySpec)>) -> ProjectSnapshot {
    let mut project = ProjectSnapshot::empty();
    project.dependencies = Some(specs(dependencies));
    project
}

fn importers(entries: Vec<(&str, ProjectSnapshot)>) -> RootProjectSnapshot {
    let mut importers = TextMap::new();
    for (id, project) in entries {
        importers.insert(id.to_string(), project);
    }
    RootProjectSnapshot::Multi(importers)
}

fn lockfile(project_snapshot: RootProjectSnapshot, packages: Option<PackageMap>) -> Lockfile {
    Lockfile {
        lockfile_version: (9, 0),
        settings: None,
        never_built_dependencies: None,
        ignored_optional_dependencies: None,
        overrides: None,
        package_extensions_checksum: None,
        patched_dependencies: None,
        pnpmfile_checksum: None,
        catalogs: None,
        time: None,
        extra_fields: TextMap::new(),
        project_snapshot,
        packages,
    }
}

fn registry_snapshot(integrity: &str) -> PackageSnapshot {
    let mut snapshot = snapshot();
    snapshot.resolution = LockfileResolution::Registry { integrity: s(integrity) };
    snapshot
}

fn one_dependency(name: &str) -> ProjectSnapshot {
    project(vec![(name, spec("1.0.0", plain(name, "1.0.0", "")))])
}

fn importer_ids(lockfile: &Lockfile) -> Vec<String> {
    match &lockfile.project_snapshot {
        RootProjectSnapshot::Single(_) => panic!("expected multi-importer current lockfile"),
        RootProjectSnapshot::Multi(importers) => {
            (0..importers.len()).map(|i| importers.key_at(i).clone()).collect()
        }
    }
}

#[test]
fn preserve_current_packages_for_unselected_importers_keeps_current_workspace_subset_packages() {
    let app_dep_path = path("dep-a", "1.0.0", "");
    let lib_dep_path = path("dep-b", "1.0.0", "");
    let current_lockfile = lockfile(
        importers(vec![
            ("packages/app", one_dependency("dep-a")),
            ("packages/lib", one_dependency("dep-b")),
        ]),
        Some(packages(vec![
            (path("dep-a", "1.0.0", ""), registry_snapshot("sha512-Bw==")),
            (path("dep-b", "1.0.0", ""), registry_snapshot("sha512-CA==")),
        ])),
    );

    let (packages, skipped) = preserve_current_packages_for_unselected_importers(
        Some(packages(vec![(path("dep-a", "1.0.0", ""), registry_snapshot("sha512-Bw=="))])),
        Vec::new(),
        Some(&current_lockfile),
        &texts(&["skipped-from-current"]),
        &texts(&["packages/app"]),
        &vec![DependencyGroup::Prod],
    );

    let packages = packages.expect("merged packages");
    assert!(packages.contains_key(&app_dep_path));
    assert!(packages.contains_key(&lib_dep_path));
    assert_eq!(skipped, texts(&["skipped-from-current"]));
}

#[test]
fn current_lockfile_for_installers_contains_only_selected_importer_packages() {
    let lockfile = lockfile(
        importers(vec![
            ("packages/project-1", one_dependency("dep-a")),
            ("packages/project-2", one_dependency("dep-b")),
        ]),
        Some(packages(vec![
            (path("dep-a", "1.0.0", ""), registry_snapshot("sha512-Bw==")),
            (path("dep-b", "1.0.0", ""), registry_snapshot("sha512-CA==")),
        ])),
    );

    let filtered = current_lockfile_for_installers(
        &lockfile,
        &texts(&["packages/project-2"]),
        &vec![DependencyGroup::Prod],
        &vec![],
    );

    assert_eq!(importer_ids(&filtered), texts(&["packages/project-2"]));
    let filtered_packages = filtered.packages.expect("filtered packages");
    assert_eq!(filtered_packages.len(), 1);
    assert!(filtered_packages.contains_key(&path("dep-b", "1.0.0", "")));
    assert!(!filtered_packages.contains_key(&path("dep-a", "1.0.0", "")));
}

#[test]
fn current_lockfile_for_installers_preserves_relative_workspace_link_importers() {
    let mut bin = project(vec![("ep_etherpad-lite", spec("workspace:../src", link("link:../src")))]);
    bin.specifiers = Some(map(&[("ep_etherpad-lite", "workspace:../src")]));
    let lockfile = lockfile(
        importers(vec![("bin", bin), ("src", ProjectSnapshot::empty())]),
        Some(packages(vec![])),
    );

    let filtered = current_lockfile_for_installers(
        &lockfile,
        &texts(&["bin", "src"]),
        &vec![DependencyGroup::Prod],
        &vec![],
    );

    let bin = project_snapshot_by_id(&filtered.project_snapshot, "bin").expect("bin importer");
    let dep = bin
        .dependencies
        .as_ref()
        .and_then(|deps| deps.get_text("ep_etherpad-lite"))
        .expect("workspace link dependency");
    assert_eq!(dep.specifier, "workspace:../src");
    assert!(matches!(&dep.version, ResolvedDependencyVersion::Link(link) if link == "link:../src"));
}

#[test]
fn current_lockfile_for_installers_omits_skipped_packages() {
    let mut optional = registry_snapshot("sha512-Bw==");
    optional.optional = Some(true);
    let mut project = ProjectSnapshot::empty();
    project.optional_dependencies =
        Some(specs(vec![("opt", spec("^1.0.0", plain("opt", "1.0.0", "")))]));
    let lockfile = lockfile(
        importers(vec![(".", project)]),
        Some(packages(vec![(path("opt", "1.0.0", ""), optional)])),
    );

    let filtered = current_lockfile_for_installers(
        &lockfile,
        &texts(&["."]),
        &vec![DependencyGroup::Optional],
        &vec![path("opt", "1.0.0", "").text()],
    );

    assert!(matches!(filtered.project_snapshot, RootProjectSnapshot::Multi(_)));
    assert!(filtered.packages.expect("packages").is_empty());
}

#[test]
fn what_is_kept_is_closed_and_comes_from_the_lockfile() {
    let mut dependencies = TextMap::new();
    dependencies.insert(s("b"), PackageSnapshotDependency::PkgVerPeer(suffix("b", "1.0.0", "")));
    let mut first = registry_snapshot("sha512-Bw==");
    first.dependencies = Some(dependencies);
    let lockfile = lockfile(
        importers(vec![(".", one_dependency("a"))]),
        Some(packages(vec![
            (path("a", "1.0.0", ""), first),
            (path("b", "1.0.0", ""), registry_snapshot("sha512-CA==")),
            (path("c", "1.0.0", ""), registry_snapshot("sha512-DA==")),
        ])),
    );
    let kept = current_lockfile_for_installers(
        &lockfile, &texts(&["."]), &vec![DependencyGroup::Prod], &vec![],
    );
    assert_eq!(paths_of(kept.packages.as_ref().expect("packages")), texts(&["/a@1.0.0", "/b@1.0.0"]));
    let kept = current_lockfile_for_installers(
        &lockfile, &texts(&["."]), &vec![DependencyGroup::Prod], &texts(&["/b@1.0.0"]),
    );
    assert_eq!(paths_of(kept.packages.as_ref().expect("packages")), texts(&["/a@1.0.0"]));
}

#[test]
fn the_kept_lockfile_is_what_is_expected() {
    let lockfile = lockfile(
        importers(vec![
            ("packages/app", one_dependency("dep-a")),
            ("packages/lib", one_dependency("dep-b")),
        ]),
        Some(packages(vec![
            (path("dep-a", "1.0.0", ""), registry_snapshot("sha512-Bw==")),
            (path("dep-b", "1.0.0", ""), registry_snapshot("sha512-CA==")),
        ])),
    );
    let groups = vec![DependencyGroup::Prod];
    let before = current_lockfile_for_installers(
        &lockfile, &texts(&["packages/lib"]), &groups, &vec![],
    );
    let kept = current_lockfile_for_installers_preserving_unselected_importers(
        &lockfile, Some(&before), &vec![], &texts(&["packages/app"]), &groups, &vec![],
    );
    let mut ids = importer_ids(&kept);
    ids.sort();
    assert_eq!(ids, texts(&["packages/app", "packages/lib"]));
    let expected = current_lockfile_for_installers(
        &lockfile, &texts(&["packages/app"]), &groups, &vec![],
    );
    assert!(current_lockfile_matches_expected(&kept, &expected, "packages/app"));
    assert!(!current_lockfile_matches_expected(&before, &expected, "packages/app"));
}

#[test]
fn links_lead_to_importers() {
    let root = importers(vec![("src", ProjectSnapshot::empty())]);
    assert_eq!(importer_id_from_link("link:src", &root), Some("src"));
    assert_eq!(importer_id_from_link("link:../src", &root), None);
    assert_eq!(importer_id_from_link("file:src", &root), None);
}

#[test]
fn groups_that_are_not_asked_for_are_left_out() {
    let mut project = one_dependency("a");
    project.dev_dependencies = Some(specs(vec![("b", spec("1.0.0", plain("b", "1.0.0", "")))]));
    project.specifiers = Some(map(&[("a", "1.0.0"), ("b", "1.0.0")]));
    let kept = filter_project_snapshot(&project, &vec![DependencyGroup::Prod], None);
    assert!(kept.dependencies.is_some());
    assert!(kept.dev_dependencies.expect("an empty group").is_empty());
    assert_eq!(keys(&kept.specifiers.expect("specifiers")), texts(&["a"]));
}

#[test]
fn build_tags_do_not_make_a_lockfile_unexpected() {
    let held = |version: &str| {
        lockfile(
            importers(vec![("a", project(vec![("d", spec("^1", plain("d", version, "")))]))]),
            Some(packages(vec![(path("d", version, ""), snapshot())])),
        )
    };
    assert!(current_lockfile_matches_expected(&held("1.0.0+x"), &held("1.0.0+y"), "a"));
    assert!(!current_lockfile_matches_expected(&held("1.0.0"), &held("1.0.1"), "a"));
    let groups = vec![DependencyGroup::Prod];
    let kept = current_lockfile_for_installers(&held("1.0.0+x"), &texts(&["a"]), &groups, &vec![]);
    let kept = kept.packages.expect("packages");
    assert_eq!(kept.key_at(0).package_specifier.to_virtual_store_name(), "d@1.0.0+x");
}
