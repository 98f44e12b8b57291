use pacquet_package_manager::config::{
    LinkWorkspacePackages, NodeLinker, Npmrc, PackageImportMethod, SaveWorkspaceProtocol,
    node_linker_name,
};

fn config() -> Npmrc {
    Npmrc {
        modules_dir: "node_modules".to_string(),
        virtual_store_dir: "node_modules/.pnpm".to_string(),
        store_dir: "/store".to_string(),
        node_linker: NodeLinker::Isolated,
        package_import_method: PackageImportMethod::Auto,
        link_workspace_packages: LinkWorkspacePackages::False,
        save_workspace_protocol: SaveWorkspaceProtocol::Rolling,
        hoist: true,
        hoist_pattern: vec!["*".to_string()],
        public_hoist_pattern: Vec::new(),
        shamefully_hoist: false,
        symlink: true,
        prefer_symlinked_executables: None,
        disable_relink_local_dir_deps: false,
        lockfile: true,
        prefer_frozen_lockfile: true,
        lockfile_include_tarball_url: false,
        auto_install_peers: true,
        exclude_links_from_lockfile: false,
        peers_suffix_max_length: 1000,
        inject_workspace_packages: false,
        dedupe_injected_deps: true,
        dedupe_peer_dependents: true,
        resolve_peers_from_workspace_root: true,
        strict_peer_dependencies: false,
        modules_cache_max_age: 10080,
    }
}

#[test]
fn packages_of_the_workspace_are_linked_by_depth() {
    assert!(!LinkWorkspacePackages::False.links_at_depth(0));
    assert!(LinkWorkspacePackages::Direct.links_at_depth(0));
    assert!(!LinkWorkspacePackages::Direct.links_at_depth(1));
    assert!(LinkWorkspacePackages::Deep.links_at_depth(5));
}

#[test]
fn linkers_have_names() {
    let mut config = config();
    config.node_linker = NodeLinker::Isolated;
    assert_eq!(node_linker_name(&config), "isolated");
    config.node_linker = NodeLinker::Hoisted;
    assert_eq!(node_linker_name(&config), "hoisted");
    config.node_linker = NodeLinker::Pnp;
    assert_eq!(node_linker_name(&config), "pnp");
}
