use pacquet_package_manager::config::{
    LinkWorkspacePackages, NodeLinker, Npmrc, PackageImportMethod, SaveWorkspaceProtocol,
};
use pacquet_package_manager::hoist_virtual_store::{
    FoundPackage, HoistStep, ScopedEntry, StoreDir, StoreEntry, discover_package_dirs,
    hoist_virtual_store_packages, select_packages_by_patterns,
};
use pacquet_package_manager::json::Json;
use pacquet_package_manager::paths::{join_paths, path_file_name};
use pacquet_package_manager::patterns::wildcard_match;

fn s(text: &str) -> String {
    text.to_string()
}

fn texts(list: &[&str]) -> Vec<String> {
    list.iter().map(|text| text.to_string()).collect()
}

fn pairs(list: &[(&str, &str)]) -> Vec<(String, String)> {
    list.iter().map(|(a, b)| (a.to_string(), b.to_string())).collect()
}

fn text_obj(fields: &[(&str, &str)]) -> Json {
    Json::Object(
        fields.iter().map(|(name, text)| (name.to_string(), Json::Text(text.to_string()))).collect(),
    )
}

fn config() -> Npmrc {
    Npmrc {
        modules_dir: "node_modules".to_string(),
        virtual_store_dir: "node_modules/.pnpm".to_string(),
        store_dir: "/store".to_string(),
        node_linker: NodeLinker::Isolated,
        package_import_method: PackageImportMethod::Auto,
        link_workspace_packages: LinkWorkspacePackages::False,
        save_workspace_protocol: SaveWorkspaceProtocol::Rolling,
        hoist: true,
        hoist_pattern: vec!["*".to_string()],
        public_hoist_pattern: Vec::new(),
        shamefully_hoist: false,
        symlink: true,
        prefer_symlinked_executables: None,
        disable_relink_local_dir_deps: false,
        lockfile: true,
        prefer_frozen_lockfile: true,
        lockfile_include_tarball_url: false,
        auto_install_peers: true,
        exclude_links_from_lockfile: false,
        peers_suffix_max_length: 1000,
        inject_workspace_packages: false,
        dedupe_injected_deps: true,
        dedupe_peer_dependents: true,
        resolve_peers_from_workspace_root: true,
        strict_peer_dependencies: false,
        modules_cache_max_age: 10080,
    }
}

/// What a virtual store holds in which every one of `names` lies at version
/// 1.0.0, with the manifests read from where they were found.
fn in_store(virtual_store_dir: &str, names: &[&str]) -> Vec<FoundPackage> {
    let mut dirs = Vec::new();
    for name in names {
        let dir = format!("{name}@1.0.0");
        dirs.push(StoreDir {
            name: dir.clone(),
            is_dir: true,
            entries: Some(vec![StoreEntry {
                name: name.to_string(),
                path: format!("{virtual_store_dir}/{dir}/node_modules/{name}"),
                has_manifest: true,
                scoped: Some(Vec::new()),
            }]),
        });
    }
    let found = discover_package_dirs(&dirs);
    assert_eq!(found.len(), names.len());
    found
        .into_iter()
        .map(|dir| {
            let name = path_file_name(&dir, false).expect("a name");
            let manifest = text_obj(&[("name", &name), ("version", "1.0.0")]);
            FoundPackage { dir, manifest }
        })
        .collect()
}

fn linked(steps: &(Option<HoistStep>, Option<HoistStep>)) -> Vec<String> {
    let mut all = Vec::new();
    for step in [&steps.0, &steps.1].into_iter().flatten() {
        for (name, _) in &step.links {
            all.push(join_paths(&step.root_dir, name, false));
        }
    }
    all
}

fn project_config() -> Npmrc {
    let mut config = config();
    config.modules_dir = s("/ws/project/node_modules");
    config.virtual_store_dir = s("/ws/project/node_modules/.pnpm");
    config
}

#[test]
fn hoisted_node_linker_should_hoist_packages_to_project_node_modules() {
    let mut config = project_config();
    config.node_linker = NodeLinker::Hoisted;
    config.shamefully_hoist = false;

    let found = in_store(&config.virtual_store_dir, &["dep"]);
    let steps = hoist_virtual_store_packages(&config, &found, false);
    assert_eq!(linked(&steps), texts(&["/ws/project/node_modules/dep"]));
    assert_eq!(
        steps.1.expect("links").links,
        pairs(&[("dep", "/ws/project/node_modules/.pnpm/dep@1.0.0/node_modules/dep")])
    );
}

#[test]
fn hoisted_node_linker_should_hoist_to_shared_root_modules_dir() {
    let mut config = config();
    config.modules_dir = s("/ws/workspace/packages/app/node_modules");
    config.virtual_store_dir = s("/ws/workspace/node_modules/.pnpm");
    config.node_linker = NodeLinker::Hoisted;
    config.shamefully_hoist = false;

    let found = in_store(&config.virtual_store_dir, &["dep"]);
    let steps = hoist_virtual_store_packages(&config, &found, false);
    assert_eq!(linked(&steps), texts(&["/ws/workspace/node_modules/dep"]));
}

#[test]
fn hoisted_node_linker_should_discover_symlinked_virtual_store_packages() {
    // The entry of the store is a link to `/ws/store/dep`: its manifest is seen
    // through it, though it cannot be listed.
    let dirs = vec![StoreDir {
        name: s("dep@1.0.0"),
        is_dir: true,
        entries: Some(vec![StoreEntry {
            name: s("dep"),
            path: s("/ws/project/node_modules/.pnpm/dep@1.0.0/node_modules/dep"),
            has_manifest: true,
            scoped: None,
        }]),
    }];
    let found = discover_package_dirs(&dirs);
    assert_eq!(
        found,
        texts(&["/ws/project/node_modules/.pnpm/dep@1.0.0/node_modules/dep"])
    );

    let mut config = project_config();
    config.node_linker = NodeLinker::Hoisted;
    config.shamefully_hoist = false;
    let manifest = text_obj(&[("name", "dep"), ("version", "1.0.0")]);
    let found = vec![FoundPackage { dir: found[0].clone(), manifest }];
    let steps = hoist_virtual_store_packages(&config, &found, false);
    assert_eq!(linked(&steps), texts(&["/ws/project/node_modules/dep"]));
}

#[test]
fn isolated_node_linker_without_shameful_hoist_should_not_create_root_hoists() {
    let mut config = project_config();
    config.node_linker = NodeLinker::Isolated;
    config.shamefully_hoist = false;

    let found = in_store(&config.virtual_store_dir, &["dep"]);
    let steps = hoist_virtual_store_packages(&config, &found, false);
    assert!(linked(&steps).is_empty());
}

#[test]
fn public_hoist_pattern_should_hoist_only_matching_packages_to_root_modules() {
    let mut config = project_config();
    config.node_linker = NodeLinker::Isolated;
    config.hoist = true;
    config.shamefully_hoist = false;
    config.public_hoist_pattern = texts(&["*eslint*"]);

    let found = in_store(&config.virtual_store_dir, &["eslint", "lodash"]);
    let steps = hoist_virtual_store_packages(&config, &found, false);
    assert_eq!(linked(&steps), texts(&["/ws/project/node_modules/eslint"]));
}

#[test]
fn public_hoist_pattern_should_support_negative_patterns() {
    let mut config = project_config();
    config.node_linker = NodeLinker::Isolated;
    config.hoist = true;
    config.shamefully_hoist = false;
    config.public_hoist_pattern = texts(&["*", "!eslint"]);

    let found = in_store(&config.virtual_store_dir, &["eslint", "lodash"]);
    let steps = hoist_virtual_store_packages(&config, &found, false);
    assert_eq!(linked(&steps), texts(&["/ws/project/node_modules/lodash"]));
}

#[test]
fn hoist_virtual_store_wildcard_match_supports_leading_star() {
    assert!(wildcard_match("@pnpm.e2e/hello-world-js-bin", "*hello-world-js-bin"));
}

#[test]
fn hoist_virtual_store_wildcard_match_empty_pattern_does_not_match_everything() {
    assert!(!wildcard_match("eslint", ""));
}

#[test]
fn pnp_node_linker_should_not_hoist_packages_to_root_modules() {
    let mut config = project_config();
    config.node_linker = NodeLinker::Pnp;
    config.hoist = true;
    config.public_hoist_pattern = texts(&["*"]);
    config.shamefully_hoist = false;

    let found = in_store(&config.virtual_store_dir, &["dep"]);
    let steps = hoist_virtual_store_packages(&config, &found, false);
    assert!(linked(&steps).is_empty());
}

#[test]
fn the_highest_version_found_is_selected() {
    let at = |dir: &str, name: &str, version: &str| FoundPackage {
        dir: s(dir),
        manifest: text_obj(&[("name", name), ("version", version)]),
    };
    let found = vec![
        at("/a", "foo", "1.0.0"),
        at("/b", "foo", "1.10.0"),
        at("/c", "foo", "1.9.0"),
        at("/d", "bar", "1.0.0"),
        FoundPackage { dir: s("/e"), manifest: text_obj(&[]) },
    ];
    let all = select_packages_by_patterns(&found, &vec![], true);
    assert_eq!(all.names, texts(&["bar", "foo"]));
    assert_eq!(all.positions, vec![3, 1]);
    let some = select_packages_by_patterns(&found, &texts(&["f*"]), false);
    assert_eq!(some.names, texts(&["foo"]));
    assert_eq!(some.positions, vec![1]);
    assert!(select_packages_by_patterns(&found, &vec![], false).names.is_empty());
}

#[test]
fn scoped_packages_are_discovered() {
    let scoped = |name: &str, has_manifest| ScopedEntry { path: s(name), has_manifest };
    let dirs = vec![
        StoreDir {
            name: s("@s+a@1.0.0"),
            is_dir: true,
            entries: Some(vec![
                StoreEntry {
                    name: s("@s"),
                    path: s("/p/@s"),
                    has_manifest: false,
                    scoped: Some(vec![scoped("/p/@s/a", true), scoped("/p/@s/b", false)]),
                },
                StoreEntry { name: s("c"), path: s("/p/c"), has_manifest: false, scoped: None },
            ]),
        },
        StoreDir { name: s("lock.yaml"), is_dir: false, entries: None },
    ];
    assert_eq!(discover_package_dirs(&dirs), texts(&["/p/@s/a"]));
}
