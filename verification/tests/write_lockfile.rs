use pacquet_package_manager::config::{
    LinkWorkspacePackages, NodeLinker, Npmrc, PackageImportMethod, SaveWorkspaceProtocol,
};
use pacquet_package_manager::install::{check_frozen_importer, lockfile_is_reusable};
use pacquet_package_manager::install_with_lockfile::{ResolvedDirectDependencies, ResolvedPackage};
use pacquet_package_manager::json::Json;
use pacquet_package_manager::lockfile::{
    DependencyGroup, DependencyPath, Lockfile, LockfileResolution, PackageMap, PackageSnapshot,
    PackageSnapshotDependency, PkgNameVerPeer, PkgVerPeer, ProjectSnapshot, ResolvedDependencyMap,
    ResolvedDependencySpec, ResolvedDependencyVersion, RootProjectSnapshot,
};
use pacquet_package_manager::lockfile_check::{
    RuntimeLockfileConfig, collect_runtime_lockfile_config, get_outdated_lockfile_setting,
};
use pacquet_package_manager::package_snapshots::PackageSnapshots;
use pacquet_package_manager::semver::Version;
use pacquet_package_manager::snapshots::direct_dependency_virtual_store_location;
use pacquet_package_manager::table::TextMap;
use pacquet_package_manager::value::Value;
use pacquet_package_manager::workspace::{WorkspacePackageInfo, WorkspacePackages};
use pacquet_package_manager::write_lockfile::{
    InjectedContext, InjectingProject, LockfileParts, WorkspaceLookup, build_lockfile,
    dedupe_injected_direct_dependencies, ensure_workspace_importers, merge_project_snapshot,
    project_snapshot_by_importer, project_snapshot_dependency_map, project_snapshot_for_importer,
};

fn s(text: &str) -> String {
    text.to_string()
}

fn texts(list: &[&str]) -> Vec<String> {
    list.iter().map(|text| text.to_string()).collect()
}

fn entries(map: &TextMap<String>) -> Vec<(String, String)> {
    (0..map.len()).map(|i| (map.key_at(i).clone(), map.value_at(i).clone())).collect()
}

fn keys<V: Value>(map: &TextMap<V>) -> Vec<String> {
    (0..map.len()).map(|i| map.key_at(i).clone()).collect()
}

fn pairs(list: &[(&str, &str)]) -> Vec<(String, String)> {
    list.iter().map(|(a, b)| (a.to_string(), b.to_string())).collect()
}

fn obj(fields: Vec<(&str, Json)>) -> Json {
    Json::Object(fields.into_iter().map(|(name, value)| (name.to_string(), value)).collect())
}

fn txt(text: &str) -> Json {
    Json::Text(text.to_string())
}

fn text_obj(fields: &[(&str, &str)]) -> Json {
    Json::Object(
        fields.iter().map(|(name, text)| (name.to_string(), Json::Text(text.to_string()))).collect(),
    )
}

fn ver(text: &str) -> Version {
    Version::parse(text).expect("a version")
}

fn suffix(name: &str, version: &str, peer: &str) -> PkgVerPeer {
    let store_name = format!("{name}@{version}{peer}");
    PkgVerPeer {
        version: ver(version),
        peer: peer.to_string(),
        store_name: store_name.replace('/', "+").replace('(', "_").replace(')', ""),
    }
}

fn package(name: &str, version: &str, peer: &str) -> PkgNameVerPeer {
    PkgNameVerPeer { name: name.to_string(), suffix: suffix(name, version, peer) }
}

fn path(name: &str, version: &str, peer: &str) -> DependencyPath {
    DependencyPath::registry(None, package(name, version, peer))
}

fn local_path(name: &str, reference: &str) -> DependencyPath {
    let store_name = format!("{name}@{reference}").replace([':', '/'], "+");
    DependencyPath::local_file(name.to_string(), reference.to_string(), store_name)
}

fn snapshot() -> PackageSnapshot {
    PackageSnapshot {
        resolution: LockfileResolution::Tarball {
            tarball: "file:dummy.tgz".to_string(),
            integrity: None,
        },
        id: None,
        name: None,
        version: None,
        engines: None,
        cpu: None,
        os: None,
        libc: None,
        deprecated: None,
        has_bin: None,
        prepare: None,
        requires_build: None,
        bundled_dependencies: None,
        peer_dependencies: None,
        peer_dependencies_meta: None,
        dependencies: None,
        optional_dependencies: None,
        transitive_peer_dependencies: None,
        dev: None,
        optional: None,
    }
}

fn packages(entries: Vec<(DependencyPath, PackageSnapshot)>) -> PackageMap {
    let mut packages = PackageMap::new();
    for (path, snapshot) in entries {
        packages.insert(path, snapshot);
    }
    packages
}

fn paths_of(packages: &PackageMap) -> Vec<String> {
    let mut paths: Vec<String> =
        (0..packages.len()).map(|i| packages.key_at(i).text()).collect();
    paths.sort();
    paths
}

fn spec(specifier: &str, version: ResolvedDependencyVersion) -> ResolvedDependencySpec {
    ResolvedDependencySpec { specifier: specifier.to_string(), version }
}

fn plain(name: &str, version: &str, peer: &str) -> ResolvedDependencyVersion {
    ResolvedDependencyVersion::PkgVerPeer(suffix(name, version, peer))
}

fn link(target: &str) -> ResolvedDependencyVersion {
    ResolvedDependencyVersion::Link(target.to_string())
}

fn specs(entries: Vec<(&str, ResolvedDependencySpec)>) -> ResolvedDependencyMap {
    let mut specs = ResolvedDependencyMap::new();
    for (name, spec) in entries {
        specs.insert(name.to_string(), spec);
    }
    specs
}

fn project(dependencies: Vec<(&str, ResolvedDependencySpec)>) -> ProjectSnapshot {
    let mut project = ProjectSnapshot::empty();
    project.dependencies = Some(specs(dependencies));
    project
}

fn importers(entries: Vec<(&str, ProjectSnapshot)>) -> RootProjectSnapshot {
    let mut importers = TextMap::new();
    for (id, project) in entries {
        importers.insert(id.to_string(), project);
    }
    RootProjectSnapshot::Multi(importers)
}

fn lockfile(project_snapshot: RootProjectSnapshot, packages: Option<PackageMap>) -> Lockfile {
    Lockfile {
        lockfile_version: (9, 0),
        settings: None,
        never_built_dependencies: None,
        ignored_optional_dependencies: None,
        overrides: None,
        package_extensions_checksum: None,
        patched_dependencies: None,
        pnpmfile_checksum: None,
        catalogs: None,
        time: None,
        extra_fields: TextMap::new(),
        project_snapshot,
        packages,
    }
}

fn config() -> Npmrc {
    Npmrc {
        modules_dir: "node_modules".to_string(),
        virtual_store_dir: "node_modules/.pnpm".to_string(),
        store_dir: "/store".to_string(),
        node_linker: NodeLinker::Isolated,
        package_import_method: PackageImportMethod::Auto,
        link_workspace_packages: LinkWorkspacePackages::False,
        save_workspace_protocol: SaveWorkspaceProtocol::Rolling,
        hoist: true,
        hoist_pattern: vec!["*".to_string()],
        public_hoist_pattern: Vec::new(),
        shamefully_hoist: false,
        symlink: true,
        prefer_symlinked_executables: None,
        disable_relink_local_dir_deps: false,
        lockfile: true,
        prefer_frozen_lockfile: true,
        lockfile_include_tarball_url: false,
        auto_install_peers: true,
        exclude_links_from_lockfile: false,
        peers_suffix_max_length: 1000,
        inject_workspace_packages: false,
        dedupe_injected_deps: true,
        dedupe_peer_dependents: true,
        resolve_peers_from_workspace_root: true,
        strict_peer_dependencies: false,
        modules_cache_max_age: 10080,
    }
}

fn shown<T: std::fmt::Debug>(value: &T) -> String {
    format!("{value:?}")
}

fn importer_ids(root: &RootProjectSnapshot) -> Vec<String> {
    let RootProjectSnapshot::Multi(importers) = root else {
        panic!("expected multi project snapshot");
    };
    (0..importers.len()).map(|i| importers.key_at(i).clone()).collect()
}

#[test]
fn merge_without_existing_lockfile_non_workspace() {
    let received = merge_project_snapshot(None, ".", ProjectSnapshot::empty());
    assert!(matches!(received, RootProjectSnapshot::Single(_)));
}

#[test]
fn merge_without_existing_lockfile_workspace_importer() {
    let received = merge_project_snapshot(None, "packages/app", ProjectSnapshot::empty());
    assert!(importer_ids(&received).contains(&s("packages/app")));
}

#[test]
fn merge_with_existing_multi_lockfile_keeps_other_importers() {
    let existing =
        lockfile(importers(vec![("packages/old", ProjectSnapshot::empty())]), None);

    let received = merge_project_snapshot(
        Some(&existing.project_snapshot),
        "packages/new",
        ProjectSnapshot::empty(),
    );
    let ids = importer_ids(&received);
    assert!(ids.contains(&s("packages/old")));
    assert!(ids.contains(&s("packages/new")));
}

fn workspace_package(packages: &mut WorkspacePackages, name: &str, root_dir: &str) {
    packages.insert(
        s(name),
        WorkspacePackageInfo { root_dir: s(root_dir), version: s("1.0.0") },
    );
}

#[test]
fn ensure_workspace_importers_adds_missing_packages() {
    let mut workspace_packages = WorkspacePackages::new();
    workspace_package(&mut workspace_packages, "@repo/app", "/repo/packages/app");
    workspace_package(&mut workspace_packages, "@repo/lib", "/repo/packages/lib");

    let snapshot = importers(vec![("packages/app", ProjectSnapshot::empty())]);

    let received = ensure_workspace_importers(snapshot, "/repo", &workspace_packages, false);
    let ids = importer_ids(&received);
    assert!(ids.contains(&s("packages/app")));
    assert!(ids.contains(&s("packages/lib")));
}

/// What is left of `project-1` in `project-2` when the copy of it was resolved
/// to the version of `is-number` that is given.
fn dedupe_project_1(is_number: &str) -> ResolvedDependencyVersion {
    let manifest = obj(vec![
        ("name", txt("project-2")),
        ("version", txt("1.0.0")),
        ("dependencies", text_obj(&[("project-1", "workspace:*")])),
        ("dependenciesMeta", obj(vec![("project-1", obj(vec![("injected", Json::Bool(true))]))])),
    ]);
    let mut config = config();
    config.dedupe_injected_deps = true;

    let existing = importers(vec![(
        "packages/project-1",
        project(vec![("is-number", spec("7.0.0", plain("is-number", "7.0.0", "")))]),
    )]);

    let mut package_snapshots = PackageSnapshots::new();
    let mut dependencies = TextMap::new();
    dependencies.insert(
        s("is-number"),
        PackageSnapshotDependency::PkgVerPeer(suffix("is-number", is_number, "")),
    );
    let mut snapshot = snapshot();
    snapshot.resolution = LockfileResolution::Directory { directory: s("packages/project-1") };
    snapshot.dependencies = Some(dependencies);
    package_snapshots.insert(local_path("project-1", "file:packages/project-1"), snapshot);

    let mut workspace_packages = WorkspacePackages::new();
    workspace_package(&mut workspace_packages, "project-1", "/workspace/packages/project-1");

    let wish = (s("project-1"), s("workspace:*"));
    let mut resolved = ResolvedDirectDependencies::new();
    resolved.insert(
        (s("project-1"), s("workspace:*")),
        ResolvedPackage::new(link("file:packages/project-1")),
    );

    dedupe_injected_direct_dependencies(
        &InjectingProject {
            config: &config,
            manifest: &manifest,
            manifest_path: "/workspace/packages/project-2/package.json",
            lookups: &vec![WorkspaceLookup {
                name: s("project-1"),
                specifier: s("workspace:*"),
                root_dir: s("/workspace/packages/project-1"),
            }],
        },
        &InjectedContext {
            lockfile_dir: "/workspace",
            existing: Some(&existing),
            workspace_packages: &workspace_packages,
            package_snapshots: &package_snapshots,
        },
        &mut resolved,
        false,
    );
    match &resolved.get(&wish).expect("resolved dependency").version {
        ResolvedDependencyVersion::Link(target) => link(target),
        _ => panic!("expected a link"),
    }
}

#[test]
fn dedupe_injected_direct_dependencies_rewrites_workspace_file_variant_to_link() {
    let ResolvedDependencyVersion::Link(target) = dedupe_project_1("7.0.0") else {
        panic!("expected a link");
    };
    assert_eq!(target, "link:../project-1");
}

#[test]
fn a_copy_with_something_of_its_own_stays_a_copy() {
    let ResolvedDependencyVersion::Link(target) = dedupe_project_1("6.0.0") else {
        panic!("expected a link");
    };
    assert_eq!(target, "file:packages/project-1");
}

fn runtime() -> RuntimeLockfileConfig {
    collect_runtime_lockfile_config(&config(), None, None, Some(s("sum")))
}

fn build(existing: Option<&Lockfile>, importer_id: &str) -> Lockfile {
    let config = config();
    let manifest = obj(vec![("dependencies", text_obj(&[("a", "^1.0.0")]))]);
    let mut resolved = ResolvedDirectDependencies::new();
    resolved.insert((s("a"), s("^1.0.0")), ResolvedPackage::new(plain("a", "1.5.0", "")));
    let mut snapshots = PackageSnapshots::new();
    snapshots.insert(path("a", "1.5.0", ""), snapshot());
    snapshots.insert(path("unused", "1.0.0", ""), snapshot());
    build_lockfile(
        &LockfileParts {
            config: &config,
            manifest: &manifest,
            dependency_groups: &vec![
                DependencyGroup::Prod,
                DependencyGroup::Dev,
                DependencyGroup::Optional,
            ],
            existing_lockfile: existing,
            lockfile_dir: "/ws",
            lockfile_importer_id: importer_id,
            workspace_packages: &WorkspacePackages::new(),
            resolved_direct_dependencies: &resolved,
        },
        &snapshots,
        runtime(),
        None,
        false,
    )
}

#[test]
fn a_lockfile_holds_what_was_resolved() {
    let written = build(None, ".");
    assert_eq!(written.lockfile_version, (9, 0));
    assert_eq!(written.pnpmfile_checksum, Some(s("sum")));
    assert_eq!(written.settings.expect("settings").auto_install_peers, Some(true));
    assert_eq!(paths_of(written.packages.as_ref().expect("packages")), texts(&["/a@1.5.0"]));
    let project = project_snapshot_for_importer(&written.project_snapshot, ".");
    assert_eq!(entries(&project.specifiers.expect("specifiers")), pairs(&[("a", "^1.0.0")]));
    let absent = project_snapshot_for_importer(&importers(vec![]), "a");
    assert!(absent.dependencies.is_none());
}

#[test]
fn a_written_lockfile_is_installed_as_it_is() {
    let written = build(None, ".");
    assert_eq!(get_outdated_lockfile_setting(&written, &runtime()), None);
    let manifest = obj(vec![("dependencies", text_obj(&[("a", "^1.0.0")]))]);
    let root_config: Result<(), String> = Ok(());
    assert!(lockfile_is_reusable(
        &written,
        ".",
        &config(),
        &runtime(),
        &manifest,
        true,
        &root_config
    ));
    let project = project_snapshot_for_importer(&written.project_snapshot, ".");
    assert_eq!(
        check_frozen_importer(
            &written,
            &project,
            &config(),
            &runtime(),
            &manifest,
            "/ws/package.json",
            &root_config
        ),
        Ok(())
    );
}

#[test]
fn other_importers_stay_as_they_were() {
    let mut existing = lockfile(
        importers(vec![("packages/b", project(vec![("b", spec("1.0.0", plain("b", "1.0.0", "")))]))]),
        Some(packages(vec![(path("b", "1.0.0", ""), snapshot())])),
    );
    existing.time = Some(text_obj(&[("/b@1.0.0", "now")]));
    let written = build(Some(&existing), "packages/a");
    assert_eq!(importer_ids(&written.project_snapshot), texts(&["packages/b", "packages/a"]));
    assert_eq!(
        paths_of(written.packages.as_ref().expect("packages")),
        texts(&["/a@1.5.0", "/b@1.0.0"])
    );
    assert_eq!(shown(&written.time), shown(&existing.time));
    let other = project_snapshot_by_importer(Some(&written.project_snapshot), "packages/b")
        .expect("the other importer");
    assert_eq!(keys(&project_snapshot_dependency_map(other)), texts(&["b"]));
    assert!(project_snapshot_by_importer(None, "packages/b").is_none());
}

#[test]
fn a_single_importer_becomes_one_of_many() {
    let root = merge_project_snapshot(
        Some(&RootProjectSnapshot::Single(ProjectSnapshot::empty())),
        "packages/a",
        ProjectSnapshot::empty(),
    );
    assert_eq!(importer_ids(&root), texts(&[".", "packages/a"]));
    let root = merge_project_snapshot(
        Some(&RootProjectSnapshot::Single(ProjectSnapshot::empty())),
        ".",
        ProjectSnapshot::empty(),
    );
    assert!(matches!(root, RootProjectSnapshot::Single(_)));
}

#[test]
fn a_written_lockfile_leads_to_the_virtual_store() {
    let written = build(None, ".");
    let packages = written.packages.as_ref().expect("packages");
    assert_eq!(packages.key_at(0).package_specifier.to_virtual_store_name(), "a@1.5.0");
    let project = project_snapshot_for_importer(&written.project_snapshot, ".");
    let dependencies = project.dependencies.expect("dependencies");
    let version = &dependencies.get_text("a").expect("a").version;
    assert_eq!(
        direct_dependency_virtual_store_location("a", version, Some(packages)),
        Some((s("a"), s("a@1.5.0"), s("a")))
    );
    let again = build(Some(&written), ".");
    let packages = again.packages.as_ref().expect("packages");
    assert_eq!(packages.key_at(0).package_specifier.to_virtual_store_name(), "a@1.5.0");
}

/// Two packages of the workspace that need each other, and what is left of the copy
/// of the first one.
fn dedupe_in_a_circle(second_needs: &str) -> ResolvedDependencyVersion {
    let manifest = obj(vec![
        ("dependencies", text_obj(&[("one", "workspace:*")])),
        ("dependenciesMeta", obj(vec![("one", obj(vec![("injected", Json::Bool(true))]))])),
    ]);
    let mut config = config();
    config.dedupe_injected_deps = true;
    let existing = importers(vec![
        ("packages/one", project(vec![("two", spec("workspace:*", link("link:../two")))])),
        ("packages/two", project(vec![("one", spec("workspace:*", link("link:../one")))])),
    ]);
    let mut package_snapshots = PackageSnapshots::new();
    let mut workspace_packages = WorkspacePackages::new();
    for (name, needed) in [("one", "two"), ("two", second_needs)] {
        let mut dependencies = TextMap::new();
        dependencies
            .insert(s(needed), PackageSnapshotDependency::Link(format!("file:packages/{needed}")));
        let mut snapshot = snapshot();
        snapshot.resolution =
            LockfileResolution::Directory { directory: format!("packages/{name}") };
        snapshot.dependencies = Some(dependencies);
        package_snapshots.insert(local_path(name, &format!("file:packages/{name}")), snapshot);
        workspace_package(&mut workspace_packages, name, &format!("/workspace/packages/{name}"));
    }
    let wish = (s("one"), s("workspace:*"));
    let mut resolved = ResolvedDirectDependencies::new();
    resolved.insert(
        (s("one"), s("workspace:*")),
        ResolvedPackage::new(link("file:packages/one")),
    );
    dedupe_injected_direct_dependencies(
        &InjectingProject {
            config: &config,
            manifest: &manifest,
            manifest_path: "/workspace/packages/three/package.json",
            lookups: &vec![WorkspaceLookup {
                name: s("one"),
                specifier: s("workspace:*"),
                root_dir: s("/workspace/packages/one"),
            }],
        },
        &InjectedContext {
            lockfile_dir: "/workspace",
            existing: Some(&existing),
            workspace_packages: &workspace_packages,
            package_snapshots: &package_snapshots,
        },
        &mut resolved,
        false,
    );
    match &resolved.get(&wish).expect("resolved dependency").version {
        ResolvedDependencyVersion::Link(target) => link(target),
        _ => panic!("expected a link"),
    }
}

#[test]
fn copies_that_need_each_other_are_looked_at_to_the_end() {
    assert_eq!(dedupe_in_a_circle("one").text(), "link:../one");
    assert_eq!(dedupe_in_a_circle("other").text(), "file:packages/one");
}
