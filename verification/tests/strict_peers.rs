use pacquet_package_manager::config::{
    LinkWorkspacePackages, NodeLinker, Npmrc, PackageImportMethod, SaveWorkspaceProtocol,
};
use pacquet_package_manager::strict_peers::{
    ListedEntry, PeerDemand, StrictPeerPackageManifest, check_peer_version,
    check_strict_peer_dependencies, collect_candidate_package_dirs,
    collect_package_dirs_in_node_modules, containing_node_modules_dir, peer_manifest_candidates,
    peer_version_satisfies, required_peers, resolve_peer_version,
    validate_strict_peer_dependencies,
};
use pacquet_package_manager::table::TextMap;

fn s(text: &str) -> String {
    text.to_string()
}

fn texts(list: &[&str]) -> Vec<String> {
    list.iter().map(|text| text.to_string()).collect()
}

fn map(entries: &[(&str, &str)]) -> TextMap<String> {
    let mut map = TextMap::new();
    for (key, value) in entries {
        map.insert(key.to_string(), value.to_string());
    }
    map
}

fn config() -> Npmrc {
    Npmrc {
        modules_dir: "node_modules".to_string(),
        virtual_store_dir: "node_modules/.pnpm".to_string(),
        store_dir: "/store".to_string(),
        node_linker: NodeLinker::Isolated,
        package_import_method: PackageImportMethod::Auto,
        link_workspace_packages: LinkWorkspacePackages::False,
        save_workspace_protocol: SaveWorkspaceProtocol::Rolling,
        hoist: true,
        hoist_pattern: vec!["*".to_string()],
        public_hoist_pattern: Vec::new(),
        shamefully_hoist: false,
        symlink: true,
        prefer_symlinked_executables: None,
        disable_relink_local_dir_deps: false,
        lockfile: true,
        prefer_frozen_lockfile: true,
        lockfile_include_tarball_url: false,
        auto_install_peers: true,
        exclude_links_from_lockfile: false,
        peers_suffix_max_length: 1000,
        inject_workspace_packages: false,
        dedupe_injected_deps: true,
        dedupe_peer_dependents: true,
        resolve_peers_from_workspace_root: true,
        strict_peer_dependencies: false,
        modules_cache_max_age: 10080,
    }
}

fn manifest(
    name: &str,
    version: &str,
    peers: &[(&str, &str)],
    optional: &[&str],
) -> StrictPeerPackageManifest {
    let mut meta: TextMap<Option<bool>> = TextMap::new();
    for peer in optional {
        meta.insert(peer.to_string(), Some(true));
    }
    StrictPeerPackageManifest {
        name: Some(s(name)),
        version: Some(s(version)),
        peer_dependencies: if peers.is_empty() { None } else { Some(map(peers)) },
        peer_dependencies_meta: if optional.is_empty() { None } else { Some(meta) },
    }
}

fn listed(names: &[&str]) -> Vec<ListedEntry> {
    names
        .iter()
        .map(|name| ListedEntry { name: s(name), is_dir: true, scoped: Vec::new() })
        .collect()
}

/// What is said of `node_modules` with the packages `names`, where `manifests`
/// holds what lies at which path.
fn validate(
    config: &Npmrc,
    workspace_root: &str,
    names: &[&str],
    manifests: Vec<(&str, StrictPeerPackageManifest)>,
) -> Result<(), String> {
    let dirs = collect_candidate_package_dirs(
        &config.modules_dir,
        &listed(names),
        &config.virtual_store_dir,
        &vec![],
        false,
    );
    let at = |path: &str| manifests.iter().find(|(place, _)| *place == path).map(|found| &found.1);
    let mut demands = Vec::new();
    for dir in &dirs {
        let Some(manifest) = at(&format!("{dir}/package.json")) else { continue };
        for (package_name, peer_name, range) in required_peers(dir, manifest, false) {
            let modules = containing_node_modules_dir(dir, false).expect("node_modules");
            let places = peer_manifest_candidates(
                &peer_name,
                &modules,
                workspace_root,
                config.resolve_peers_from_workspace_root,
                false,
            );
            let read: Vec<Option<StrictPeerPackageManifest>> = places
                .iter()
                .map(|place| {
                    at(place).map(|found| StrictPeerPackageManifest {
                        name: found.name.clone(),
                        version: found.version.clone(),
                        peer_dependencies: None,
                        peer_dependencies_meta: None,
                    })
                })
                .collect();
            let found = resolve_peer_version(&read);
            demands.push(PeerDemand { package_name, peer_name, range, found });
        }
    }
    validate_strict_peer_dependencies(&demands)
}

fn root_config() -> Npmrc {
    let mut config = config();
    config.modules_dir = s("/ws/node_modules");
    config.virtual_store_dir = s("/ws/node_modules/.pnpm");
    config.strict_peer_dependencies = true;
    config
}

fn app_config() -> Npmrc {
    let mut config = config();
    config.modules_dir = s("/workspace/packages/app/node_modules");
    config.virtual_store_dir = s("/workspace/packages/app/node_modules/.pnpm");
    config.strict_peer_dependencies = true;
    config
}

#[test]
fn strict_peer_validation_fails_for_missing_required_peer() {
    let message = validate(
        &root_config(),
        "/ws",
        &["a"],
        vec![("/ws/node_modules/a/package.json", manifest("a", "1.0.0", &[("peer-a", "^1.0.0")], &[]))],
    )
    .expect_err("missing peer should fail");
    assert!(message.contains("strict-peer-dependencies"));
    assert!(message.contains("peer-a"));
}

#[test]
fn strict_peer_validation_ignores_optional_peer() {
    let result = validate(
        &root_config(),
        "/ws",
        &["a"],
        vec![(
            "/ws/node_modules/a/package.json",
            manifest("a", "1.0.0", &[("peer-a", "^1.0.0")], &["peer-a"]),
        )],
    );
    assert!(result.is_ok());
}

#[test]
fn strict_peer_validation_fails_for_incompatible_peer_version() {
    let message = validate(
        &root_config(),
        "/ws",
        &["a", "peer-a"],
        vec![
            ("/ws/node_modules/a/package.json", manifest("a", "1.0.0", &[("peer-a", "^2.0.0")], &[])),
            ("/ws/node_modules/peer-a/package.json", manifest("peer-a", "1.0.0", &[], &[])),
        ],
    )
    .expect_err("incompatible peer should fail");
    assert!(message.contains("found 1.0.0"));
}

#[test]
fn strict_peer_validation_resolves_from_workspace_root_when_enabled() {
    let mut config = app_config();
    config.resolve_peers_from_workspace_root = true;
    let result = validate(
        &config,
        "/workspace",
        &["a"],
        vec![
            (
                "/workspace/packages/app/node_modules/a/package.json",
                manifest("a", "1.0.0", &[("peer-a", "^1.0.0")], &[]),
            ),
            (
                "/workspace/node_modules/peer-a/package.json",
                manifest("peer-a", "1.0.0", &[], &[]),
            ),
        ],
    );
    assert!(result.is_ok());
}

#[test]
fn strict_peer_validation_fails_without_workspace_root_resolution() {
    let mut config = app_config();
    config.resolve_peers_from_workspace_root = false;
    let message = validate(
        &config,
        "/workspace",
        &["a"],
        vec![
            (
                "/workspace/packages/app/node_modules/a/package.json",
                manifest("a", "1.0.0", &[("peer-a", "^1.0.0")], &[]),
            ),
            (
                "/workspace/node_modules/peer-a/package.json",
                manifest("peer-a", "1.0.0", &[], &[]),
            ),
        ],
    )
    .expect_err("peer from workspace root should not be used when disabled");
    assert!(message.contains("peer-a"));
}

#[test]
fn packages_are_collected() {
    let entries = vec![
        ListedEntry { name: s("a"), is_dir: true, scoped: Vec::new() },
        ListedEntry { name: s("file"), is_dir: false, scoped: Vec::new() },
        ListedEntry { name: s(".bin"), is_dir: true, scoped: Vec::new() },
        ListedEntry {
            name: s("@s"),
            is_dir: true,
            scoped: vec![(s("b"), true), (s("c"), false)],
        },
    ];
    assert_eq!(
        collect_package_dirs_in_node_modules("/ws/node_modules", &entries, false),
        texts(&["/ws/node_modules/a", "/ws/node_modules/@s/b"])
    );
    let store = vec![(s("x@1.0.0"), listed(&["x"])), (s("node_modules"), listed(&["y"]))];
    assert_eq!(
        collect_candidate_package_dirs("/ws/node_modules", &vec![], "/ws/.pnpm", &store, false),
        texts(&["/ws/.pnpm/x@1.0.0/node_modules/x"])
    );
}

#[test]
fn no_more_than_ten_complaints_are_told() {
    let demands: Vec<PeerDemand> = (0..12)
        .map(|i| PeerDemand {
            package_name: s("a"),
            peer_name: format!("p{i}"),
            range: s("^1.0.0"),
            found: None,
        })
        .collect();
    let message = validate_strict_peer_dependencies(&demands).expect_err("missing peers");
    assert_eq!(message.lines().count(), 11);
    assert_eq!(
        message.lines().nth(1),
        Some("  - a requires peer p0@^1.0.0, but it is not installed")
    );
    assert!(validate_strict_peer_dependencies(&vec![]).is_ok());
    assert!(peer_version_satisfies("1.0.0", "*"));
    assert!(!peer_version_satisfies("1.0.0", "^2.0.0"));
}

#[test]
fn a_range_counts_only_where_a_version_is_held_against_it() {
    assert_eq!(check_peer_version("1.0.0", "^1.0.0"), Some(true));
    assert_eq!(check_peer_version("2.0.0", "^1.0.0"), Some(false));
    assert_eq!(check_peer_version("not a version", "~x"), Some(true));
    assert_eq!(check_peer_version("1.0.0", "~x"), None);
    let demand = |found: Option<&str>| PeerDemand {
        package_name: s("a"),
        peer_name: s("b"),
        range: s("~x"),
        found: found.map(s),
    };
    assert_eq!(
        check_strict_peer_dependencies(&vec![demand(None)]),
        Some(Err(s(
            "Cannot proceed because strict-peer-dependencies is enabled:\n  - a requires peer b@~x, but it is not installed"
        )))
    );
    assert_eq!(check_strict_peer_dependencies(&vec![demand(Some("?"))]), Some(Ok(())));
    assert_eq!(check_strict_peer_dependencies(&vec![demand(Some("1.0.0"))]), None);
}
