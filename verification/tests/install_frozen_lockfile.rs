use pacquet_package_manager::config::{
    LinkWorkspacePackages, NodeLinker, Npmrc, PackageImportMethod, SaveWorkspaceProtocol,
};
use pacquet_package_manager::install_frozen_lockfile::{
    importer_dependencies_ready, readiness_probes, should_create_virtual_store,
};
use pacquet_package_manager::lockfile::{
    DependencyGroup, DependencyPath, LockfileResolution, PackageMap, PackageSnapshot,
    PackageSnapshotDependency, PkgNameVerPeer, PkgVerPeer, ProjectSnapshot, ResolvedDependencyMap,
    ResolvedDependencySpec, ResolvedDependencyVersion,
};
use pacquet_package_manager::paths::join_paths;
use pacquet_package_manager::semver::Version;
use pacquet_package_manager::table::TextMap;

fn s(text: &str) -> String {
    text.to_string()
}

fn texts(list: &[&str]) -> Vec<String> {
    list.iter().map(|text| text.to_string()).collect()
}

fn ver(text: &str) -> Version {
    Version::parse(text).expect("a version")
}

fn suffix(name: &str, version: &str, peer: &str) -> PkgVerPeer {
    let store_name = format!("{name}@{version}{peer}");
    PkgVerPeer {
        version: ver(version),
        peer: peer.to_string(),
        store_name: store_name.replace('/', "+").replace('(', "_").replace(')', ""),
    }
}

fn package(name: &str, version: &str, peer: &str) -> PkgNameVerPeer {
    PkgNameVerPeer { name: name.to_string(), suffix: suffix(name, version, peer) }
}

fn path(name: &str, version: &str, peer: &str) -> DependencyPath {
    DependencyPath::registry(None, package(name, version, peer))
}

fn snapshot() -> PackageSnapshot {
    PackageSnapshot {
        resolution: LockfileResolution::Tarball {
            tarball: "file:dummy.tgz".to_string(),
            integrity: None,
        },
        id: None,
        name: None,
        version: None,
        engines: None,
        cpu: None,
        os: None,
        libc: None,
        deprecated: None,
        has_bin: None,
        prepare: None,
        requires_build: None,
        bundled_dependencies: None,
        peer_dependencies: None,
        peer_dependencies_meta: None,
        dependencies: None,
        optional_dependencies: None,
        transitive_peer_dependencies: None,
        dev: None,
        optional: None,
    }
}

fn packages(entries: Vec<(DependencyPath, PackageSnapshot)>) -> PackageMap {
    let mut packages = PackageMap::new();
    for (path, snapshot) in entries {
        packages.insert(path, snapshot);
    }
    packages
}

fn spec(specifier: &str, version: ResolvedDependencyVersion) -> ResolvedDependencySpec {
    ResolvedDependencySpec { specifier: specifier.to_string(), version }
}

fn plain(name: &str, version: &str, peer: &str) -> ResolvedDependencyVersion {
    ResolvedDependencyVersion::PkgVerPeer(suffix(name, version, peer))
}

fn link(target: &str) -> ResolvedDependencyVersion {
    ResolvedDependencyVersion::Link(target.to_string())
}

fn specs(entries: Vec<(&str, ResolvedDependencySpec)>) -> ResolvedDependencyMap {
    let mut specs = ResolvedDependencyMap::new();
    for (name, spec) in entries {
        specs.insert(name.to_string(), spec);
    }
    specs
}

fn project(dependencies: Vec<(&str, ResolvedDependencySpec)>) -> ProjectSnapshot {
    let mut project = ProjectSnapshot::empty();
    project.dependencies = Some(specs(dependencies));
    project
}

fn config() -> Npmrc {
    Npmrc {
        modules_dir: "node_modules".to_string(),
        virtual_store_dir: "node_modules/.pnpm".to_string(),
        store_dir: "/store".to_string(),
        node_linker: NodeLinker::Isolated,
        package_import_method: PackageImportMethod::Auto,
        link_workspace_packages: LinkWorkspacePackages::False,
        save_workspace_protocol: SaveWorkspaceProtocol::Rolling,
        hoist: true,
        hoist_pattern: vec!["*".to_string()],
        public_hoist_pattern: Vec::new(),
        shamefully_hoist: false,
        symlink: true,
        prefer_symlinked_executables: None,
        disable_relink_local_dir_deps: false,
        lockfile: true,
        prefer_frozen_lockfile: true,
        lockfile_include_tarball_url: false,
        auto_install_peers: true,
        exclude_links_from_lockfile: false,
        peers_suffix_max_length: 1000,
        inject_workspace_packages: false,
        dedupe_injected_deps: true,
        dedupe_peer_dependents: true,
        resolve_peers_from_workspace_root: true,
        strict_peer_dependencies: false,
        modules_cache_max_age: 10080,
    }
}

fn project_config() -> Npmrc {
    let mut config = config();
    config.modules_dir = s("/ws/node_modules");
    config.virtual_store_dir = s("/ws/node_modules/.pnpm");
    config
}

/// `a` needs `b`.
fn chain() -> PackageMap {
    let mut dependencies = TextMap::new();
    dependencies.insert(s("b"), PackageSnapshotDependency::PkgVerPeer(suffix("b", "1.0.0", "")));
    let mut first = snapshot();
    first.dependencies = Some(dependencies);
    packages(vec![(path("a", "1.0.0", ""), first), (path("b", "1.0.0", ""), snapshot())])
}

fn ready(present: &[&str]) -> bool {
    importer_dependencies_ready(
        &project_config(),
        &project(vec![("a", spec("^1.0.0", plain("a", "1.0.0", "")))]),
        Some(&chain()),
        &vec![DependencyGroup::Prod],
        &texts(present),
        false,
    )
}

const ALL: [&str; 5] = [
    "/ws/node_modules/.pnpm",
    "/ws/node_modules/a",
    "/ws/node_modules/.pnpm/a@1.0.0/node_modules/a",
    "/ws/node_modules/.pnpm/a@1.0.0/node_modules/b",
    "/ws/node_modules/.pnpm/b@1.0.0/node_modules/b",
];

#[test]
fn readiness_spreads_to_what_is_needed() {
    assert!(ready(&ALL));
    for missing in ALL {
        let present: Vec<&str> = ALL.iter().copied().filter(|path| *path != missing).collect();
        assert!(!ready(&present), "{missing}");
    }
}

#[test]
fn everything_that_matters_is_looked_for() {
    let probes = readiness_probes(
        &project_config(),
        &project(vec![("a", spec("^1.0.0", plain("a", "1.0.0", "")))]),
        Some(&chain()),
        &vec![DependencyGroup::Prod],
        false,
    );
    for path in ALL {
        assert!(probes.contains(&s(path)), "{path}");
    }
    assert!(should_create_virtual_store(true, true));
    assert!(should_create_virtual_store(false, false));
    assert!(!should_create_virtual_store(false, true));
}

#[test]
fn a_copied_directory_is_never_ready() {
    let project = project(vec![("a", spec("file:../a", link("file:../a")))]);
    let mut config = project_config();
    let present = texts(&["/ws/node_modules/.pnpm"]);
    let groups = vec![DependencyGroup::Prod];
    assert!(!importer_dependencies_ready(&config, &project, None, &groups, &present, false));
    config.disable_relink_local_dir_deps = true;
    assert!(importer_dependencies_ready(&config, &project, None, &groups, &present, false));
}

#[test]
fn only_the_probes_decide_readiness() {
    let packages = packages(vec![(path("foo", "1.0.0", ""), snapshot())]);
    let project = project(vec![("foo", spec("^1", plain("foo", "1.0.0", "")))]);
    let groups = vec![DependencyGroup::Prod];
    let config = config();
    let probes = readiness_probes(&config, &project, Some(&packages), &groups, false);
    assert_eq!(
        probes,
        texts(&[
            "node_modules/.pnpm",
            "node_modules/foo",
            "node_modules/.pnpm/foo@1.0.0/node_modules/foo",
            "node_modules/.pnpm/foo@1.0.0/node_modules/foo",
        ])
    );
    let ready = |present: &Vec<String>| {
        importer_dependencies_ready(&config, &project, Some(&packages), &groups, present, false)
    };
    assert!(ready(&probes));
    let mut more = probes.clone();
    more.push(s("node_modules/other"));
    assert!(ready(&more));
    for missing in &probes {
        let fewer: Vec<String> = more.iter().filter(|path| *path != missing).cloned().collect();
        assert!(!ready(&fewer));
    }
}

#[test]
fn packages_are_looked_for_where_they_are_referred_to() {
    let mut parent = snapshot();
    let mut needs = TextMap::new();
    needs.insert(s("b"), PackageSnapshotDependency::PkgVerPeer(suffix("b", "1.0.0+y", "")));
    parent.dependencies = Some(needs);
    let packages =
        packages(vec![(path("a", "1.0.0", ""), parent), (path("b", "1.0.0+x", ""), snapshot())]);
    let project = project(vec![("a", spec("1.0.0", plain("a", "1.0.0", "")))]);
    let config = project_config();
    let groups = vec![DependencyGroup::Prod];
    let probes = readiness_probes(&config, &project, Some(&packages), &groups, false);
    let dir = join_paths(&config.virtual_store_dir, "b@1.0.0+y/node_modules/b", false);
    assert!(probes.contains(&dir));
    assert!(importer_dependencies_ready(
        &config,
        &project,
        Some(&packages),
        &groups,
        &probes,
        false,
    ));
    let without: Vec<String> = probes.into_iter().filter(|probe| *probe != dir).collect();
    assert!(!importer_dependencies_ready(
        &config,
        &project,
        Some(&packages),
        &groups,
        &without,
        false,
    ));
}
