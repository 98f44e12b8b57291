use pacquet_package_manager::config::{
    LinkWorkspacePackages, NodeLinker, Npmrc, PackageImportMethod, SaveWorkspaceProtocol,
};
use pacquet_package_manager::create_virtual_store::{
    Hoisted, dependency_layout_is_present, hoisted_links, hoisted_links_missing, is_orphaned,
    layout_probes, package_needs_links, select_hoisted_packages, virtual_dependency_layout_missing,
    virtual_modules_dir, virtual_store_dirs,
};
use pacquet_package_manager::lockfile::{
    DependencyPath, LockfileResolution, PackageMap, PackageSnapshot, PackageSnapshotDependency,
    PkgNameVerPeer, PkgVerPeer,
};
use pacquet_package_manager::modules_manifest::{
    ModulesManifest, should_prune_orphaned_virtual_store_entries,
};
use pacquet_package_manager::patterns::wildcard_match;
use pacquet_package_manager::semver::Version;
use pacquet_package_manager::table::TextMap;

fn s(text: &str) -> String {
    text.to_string()
}

fn texts(list: &[&str]) -> Vec<String> {
    list.iter().map(|text| text.to_string()).collect()
}

fn ver(text: &str) -> Version {
    Version::parse(text).expect("a version")
}

fn suffix(name: &str, version: &str, peer: &str) -> PkgVerPeer {
    let store_name = format!("{name}@{version}{peer}");
    PkgVerPeer {
        version: ver(version),
        peer: peer.to_string(),
        store_name: store_name.replace('/', "+").replace('(', "_").replace(')', ""),
    }
}

fn package(name: &str, version: &str, peer: &str) -> PkgNameVerPeer {
    PkgNameVerPeer { name: name.to_string(), suffix: suffix(name, version, peer) }
}

fn path(name: &str, version: &str, peer: &str) -> DependencyPath {
    DependencyPath::registry(None, package(name, version, peer))
}

fn local_path(name: &str, reference: &str) -> DependencyPath {
    let store_name = format!("{name}@{reference}").replace([':', '/'], "+");
    DependencyPath::local_file(name.to_string(), reference.to_string(), store_name)
}

fn snapshot() -> PackageSnapshot {
    PackageSnapshot {
        resolution: LockfileResolution::Tarball {
            tarball: "file:dummy.tgz".to_string(),
            integrity: None,
        },
        id: None,
        name: None,
        version: None,
        engines: None,
        cpu: None,
        os: None,
        libc: None,
        deprecated: None,
        has_bin: None,
        prepare: None,
        requires_build: None,
        bundled_dependencies: None,
        peer_dependencies: None,
        peer_dependencies_meta: None,
        dependencies: None,
        optional_dependencies: None,
        transitive_peer_dependencies: None,
        dev: None,
        optional: None,
    }
}

fn packages(entries: Vec<(DependencyPath, PackageSnapshot)>) -> PackageMap {
    let mut packages = PackageMap::new();
    for (path, snapshot) in entries {
        packages.insert(path, snapshot);
    }
    packages
}

fn config() -> Npmrc {
    Npmrc {
        modules_dir: "node_modules".to_string(),
        virtual_store_dir: "node_modules/.pnpm".to_string(),
        store_dir: "/store".to_string(),
        node_linker: NodeLinker::Isolated,
        package_import_method: PackageImportMethod::Auto,
        link_workspace_packages: LinkWorkspacePackages::False,
        save_workspace_protocol: SaveWorkspaceProtocol::Rolling,
        hoist: true,
        hoist_pattern: vec!["*".to_string()],
        public_hoist_pattern: Vec::new(),
        shamefully_hoist: false,
        symlink: true,
        prefer_symlinked_executables: None,
        disable_relink_local_dir_deps: false,
        lockfile: true,
        prefer_frozen_lockfile: true,
        lockfile_include_tarball_url: false,
        auto_install_peers: true,
        exclude_links_from_lockfile: false,
        peers_suffix_max_length: 1000,
        inject_workspace_packages: false,
        dedupe_injected_deps: true,
        dedupe_peer_dependents: true,
        resolve_peers_from_workspace_root: true,
        strict_peer_dependencies: false,
        modules_cache_max_age: 10080,
    }
}

fn modules_manifest() -> ModulesManifest {
    ModulesManifest {
        hoist_pattern: None,
        hoisted_dependencies: None,
        injected_deps: None,
        layout_version: None,
        node_linker: None,
        package_manager: None,
        pending_builds: Vec::new(),
        pruned_at: None,
        public_hoist_pattern: None,
        shamefully_hoist: None,
        registries: None,
        store_dir: None,
        ignored_builds: Vec::new(),
        virtual_store_dir: None,
        virtual_store_dir_max_length: None,
        included: None,
        skipped: Vec::new(),
    }
}

fn chosen(selected: &Hoisted, packages: &PackageMap, name: &str) -> Option<String> {
    let at = selected.names.iter().position(|listed| listed == name)?;
    Some(packages.key_at(selected.positions[at]).package_specifier.text())
}

fn foo_with_and_without_peer() -> PackageMap {
    packages(vec![
        (path("foo", "1.0.0", "(bar@1.0.0)"), snapshot()),
        (path("foo", "1.0.0", ""), snapshot()),
    ])
}

fn foo_and_bar() -> PackageMap {
    packages(vec![(path("foo", "1.0.0", ""), snapshot()), (path("bar", "1.0.0", ""), snapshot())])
}

#[test]
fn select_hoisted_packages_prefers_no_peer_suffix_when_dedupe_enabled() {
    let packages = foo_with_and_without_peer();
    let selected = select_hoisted_packages(&packages, true, &texts(&["*"]));
    assert_eq!(chosen(&selected, &packages, "foo"), Some(s("foo@1.0.0")));
}

#[test]
fn select_hoisted_packages_keeps_peer_variant_when_dedupe_disabled() {
    let packages = foo_with_and_without_peer();
    let selected = select_hoisted_packages(&packages, false, &texts(&["*"]));
    assert_eq!(chosen(&selected, &packages, "foo"), Some(s("foo@1.0.0(bar@1.0.0)")));
}

#[test]
fn select_hoisted_packages_filters_by_hoist_pattern() {
    let packages = foo_and_bar();
    let selected = select_hoisted_packages(&packages, true, &texts(&["foo"]));
    assert!(chosen(&selected, &packages, "foo").is_some());
    assert!(chosen(&selected, &packages, "bar").is_none());
}

#[test]
fn select_hoisted_packages_supports_negative_hoist_pattern() {
    let packages = foo_and_bar();
    let selected = select_hoisted_packages(&packages, true, &texts(&["*", "!bar"]));
    assert!(chosen(&selected, &packages, "foo").is_some());
    assert!(chosen(&selected, &packages, "bar").is_none());
}

#[test]
fn create_virtual_store_wildcard_match_supports_leading_star() {
    assert!(wildcard_match("@pnpm.e2e/hello-world-js-bin", "*hello-world-js-bin"));
}

#[test]
fn create_virtual_store_wildcard_match_empty_pattern_does_not_match_everything() {
    assert!(!wildcard_match("eslint", ""));
}

#[test]
fn prune_orphaned_virtual_store_entries_removes_orphans_when_cache_age_is_zero() {
    let packages = packages(vec![(path("kept", "1.0.0", ""), snapshot())]);
    assert!(should_prune_orphaned_virtual_store_entries(None, 0, 1_700_000_000));
    assert!(!is_orphaned(&packages, "kept@1.0.0", true));
    assert!(is_orphaned(&packages, "orphan@1.0.0", true));
}

#[test]
fn prune_orphaned_virtual_store_entries_keeps_orphans_when_not_stale() {
    let mut manifest = modules_manifest();
    manifest.pruned_at = Some(s("9999999999"));
    assert!(is_orphaned(&packages(vec![]), "orphan@1.0.0", true));
    assert!(!should_prune_orphaned_virtual_store_entries(
        Some(&manifest),
        10_000,
        1_700_000_000
    ));
}

fn needs(name: &str) -> PackageSnapshot {
    let mut dependencies = TextMap::new();
    dependencies.insert(s(name), PackageSnapshotDependency::PkgVerPeer(suffix(name, "1.0.0", "")));
    let mut snapshot = snapshot();
    snapshot.dependencies = Some(dependencies);
    snapshot
}

#[test]
fn the_highest_version_is_hoisted() {
    let packages = packages(vec![
        (path("foo", "1.0.0", ""), snapshot()),
        (path("foo", "2.0.0", ""), snapshot()),
        (path("foo", "1.5.0", ""), snapshot()),
        (local_path("lib", "file:lib"), snapshot()),
    ]);
    let selected = select_hoisted_packages(&packages, true, &texts(&["*"]));
    assert_eq!(selected.names, texts(&["foo"]));
    assert_eq!(chosen(&selected, &packages, "foo"), Some(s("foo@2.0.0")));
}

#[test]
fn hoisted_packages_are_linked_beside_the_store() {
    let packages = foo_and_bar();
    let mut config = config();
    let links = hoisted_links(&config, &packages, false);
    assert_eq!(links.len(), 2);
    assert_eq!(links[0].name, "bar");
    assert_eq!(links[0].target, "node_modules/.pnpm/bar@1.0.0/node_modules/bar");
    assert_eq!(links[0].link, "node_modules/.pnpm/node_modules/bar");
    let target = s("node_modules/.pnpm/bar@1.0.0/node_modules/bar");
    let link = s("node_modules/.pnpm/node_modules/bar");
    assert!(!hoisted_links_missing(&links, &vec![]));
    assert!(hoisted_links_missing(&links, &vec![target.clone()]));
    assert!(!hoisted_links_missing(&links, &vec![target, link]));
    config.hoist = false;
    assert!(hoisted_links(&config, &packages, false).is_empty());
    config.shamefully_hoist = true;
    assert_eq!(hoisted_links(&config, &packages, false).len(), 2);
    config.symlink = false;
    assert!(hoisted_links(&config, &packages, false).is_empty());
}

#[test]
fn dependencies_are_laid_out_beside_their_package() {
    let packages = packages(vec![
        (path("foo", "1.0.0", ""), needs("bar")),
        (path("bar", "1.0.0", ""), snapshot()),
    ]);
    let mut config = config();
    let dir = virtual_modules_dir(&config.virtual_store_dir, "foo@1.0.0", false);
    assert_eq!(dir, "node_modules/.pnpm/foo@1.0.0/node_modules");
    let link = s("node_modules/.pnpm/foo@1.0.0/node_modules/bar");
    assert!(virtual_dependency_layout_missing(&config, &packages, &vec![], false));
    assert!(!virtual_dependency_layout_missing(&config, &packages, &vec![link.clone()], false));
    let dependencies = needs("bar").dependencies.expect("dependencies");
    assert!(dependency_layout_is_present(&dependencies, &dir, &vec![link], false));
    assert!(!dependency_layout_is_present(&dependencies, &dir, &texts(&["bar"]), false));
    assert_eq!(
        virtual_store_dirs(&config, &packages, false)[0],
        (dir.clone(), s("node_modules/.pnpm/foo@1.0.0/node_modules/foo"))
    );
    assert!(package_needs_links(&config, &packages, 0));
    assert!(!package_needs_links(&config, &packages, 1));
    config.symlink = false;
    assert!(!package_needs_links(&config, &packages, 0));
    config.node_linker = NodeLinker::Hoisted;
    assert!(package_needs_links(&config, &packages, 0));
}

#[test]
fn only_directories_of_packages_are_orphaned() {
    let packages = foo_and_bar();
    assert!(!is_orphaned(&packages, "node_modules", true));
    assert!(!is_orphaned(&packages, "gone@1.0.0", false));
    assert!(is_orphaned(&packages, "gone@1.0.0", true));
}

#[test]
fn the_probes_decide_whether_the_layout_is_there() {
    let packages = packages(vec![
        (path("foo", "1.0.0", ""), needs("bar")),
        (path("bar", "1.0.0", ""), snapshot()),
    ]);
    let config = config();
    let probes = layout_probes(&config, &packages, false);
    assert_eq!(probes, texts(&["node_modules/.pnpm/foo@1.0.0/node_modules/bar"]));
    assert!(!virtual_dependency_layout_missing(&config, &packages, &probes, false));
    let other = texts(&["node_modules/.pnpm/bar@1.0.0/node_modules/foo", "elsewhere"]);
    assert!(virtual_dependency_layout_missing(&config, &packages, &other, false));
}
