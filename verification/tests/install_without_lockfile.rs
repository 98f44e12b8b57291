use pacquet_package_manager::config::{
    LinkWorkspacePackages, NodeLinker, Npmrc, PackageImportMethod, SaveWorkspaceProtocol,
};
use pacquet_package_manager::install_without_lockfile::{
    PlainStep, installed_dependency_entries, plain_dependency_step, start_subset,
};
use pacquet_package_manager::lockfile::DependencyGroup;
use pacquet_package_manager::package_snapshots::ResolvedPackages;
use pacquet_package_manager::registry::PackageVersion;
use pacquet_package_manager::semver::Version;
use pacquet_package_manager::table::TextMap;

fn s(text: &str) -> String {
    text.to_string()
}

fn texts(list: &[&str]) -> Vec<String> {
    list.iter().map(|text| text.to_string()).collect()
}

fn map(entries: &[(&str, &str)]) -> TextMap<String> {
    let mut map = TextMap::new();
    for (key, value) in entries {
        map.insert(key.to_string(), value.to_string());
    }
    map
}

fn ver(text: &str) -> Version {
    Version::parse(text).expect("a version")
}

fn config() -> Npmrc {
    Npmrc {
        modules_dir: "node_modules".to_string(),
        virtual_store_dir: "node_modules/.pnpm".to_string(),
        store_dir: "/store".to_string(),
        node_linker: NodeLinker::Isolated,
        package_import_method: PackageImportMethod::Auto,
        link_workspace_packages: LinkWorkspacePackages::False,
        save_workspace_protocol: SaveWorkspaceProtocol::Rolling,
        hoist: true,
        hoist_pattern: vec!["*".to_string()],
        public_hoist_pattern: Vec::new(),
        shamefully_hoist: false,
        symlink: true,
        prefer_symlinked_executables: None,
        disable_relink_local_dir_deps: false,
        lockfile: true,
        prefer_frozen_lockfile: true,
        lockfile_include_tarball_url: false,
        auto_install_peers: true,
        exclude_links_from_lockfile: false,
        peers_suffix_max_length: 1000,
        inject_workspace_packages: false,
        dedupe_injected_deps: true,
        dedupe_peer_dependents: true,
        resolve_peers_from_workspace_root: true,
        strict_peer_dependencies: false,
        modules_cache_max_age: 10080,
    }
}

fn release(name: &str, version: &str) -> PackageVersion {
    PackageVersion {
        name: name.to_string(),
        version: ver(version),
        tarball: String::new(),
        integrity: None,
        virtual_store_name: format!("{name}@{version}").replace('/', "+"),
        regular_dependencies: TextMap::new(),
        optional_dependencies: TextMap::new(),
        peer_dependencies: None,
        optional_peers: Vec::new(),
        engines: None,
        cpu: None,
        os: None,
        libc: None,
        deprecated: None,
        has_bin: false,
    }
}

fn step(config: &Npmrc, group: DependencyGroup, range: &str) -> PlainStep {
    plain_dependency_step(
        config,
        "/ws/package.json",
        &map(&[("dep", "9.9.9")]),
        group,
        "dep",
        range,
        false,
    )
}

#[test]
fn directories_are_linked_or_imported() {
    let mut config = config();
    config.modules_dir = s("/ws/node_modules");
    assert!(matches!(step(&config, DependencyGroup::Prod, "link:../lib"),
        PlainStep::LinkDirectory { target, at }
            if target == "/ws/../lib" && at == "/ws/node_modules/dep"));
    assert!(matches!(step(&config, DependencyGroup::Prod, "file:/lib"),
        PlainStep::ImportDirectory { source, at }
            if source == "/lib" && at == "/ws/node_modules/dep"));
    config.symlink = false;
    assert!(matches!(step(&config, DependencyGroup::Prod, "link:../lib"), PlainStep::Nothing));
}

#[test]
fn anything_else_is_installed() {
    assert!(matches!(step(&config(), DependencyGroup::Prod, "^1.0.0"),
        PlainStep::Install { range, optional: false } if range == "^1.0.0"));
    assert!(matches!(step(&config(), DependencyGroup::Optional, "^1.0.0"),
        PlainStep::Install { optional: true, .. }));
}

#[test]
fn peers_are_installed_where_the_settings_say_so() {
    let mut package = release("pkg", "1.0.0");
    package.regular_dependencies = map(&[("a", "1")]);
    package.optional_dependencies = map(&[("b", "2")]);
    package.peer_dependencies = Some(map(&[("c", "3"), ("d", "4")]));
    package.optional_peers = texts(&["d"]);
    assert_eq!(
        installed_dependency_entries(&package, true),
        vec![
            (false, s("a"), s("1")),
            (true, s("b"), s("2")),
            (false, s("c"), s("3")),
            (true, s("d"), s("4")),
        ]
    );
    assert_eq!(installed_dependency_entries(&package, false).len(), 2);
}

#[test]
fn a_package_is_taken_up_once() {
    let mut config = config();
    config.virtual_store_dir = s("/ws/.pnpm");
    let mut resolved = ResolvedPackages::new();
    let package = release("@scope/pkg", "1.0.0");
    assert_eq!(
        start_subset(&config, &mut resolved, &package, false),
        Some(s("/ws/.pnpm/@scope+pkg@1.0.0/node_modules"))
    );
    assert_eq!(start_subset(&config, &mut resolved, &package, false), None);
}
