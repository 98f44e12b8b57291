use pacquet_package_manager::config::{
    LinkWorkspacePackages, NodeLinker, Npmrc, PackageImportMethod, SaveWorkspaceProtocol,
};
use pacquet_package_manager::link_policy::should_materialize_root_links;

fn config() -> Npmrc {
    Npmrc {
        modules_dir: "node_modules".to_string(),
        virtual_store_dir: "node_modules/.pnpm".to_string(),
        store_dir: "/store".to_string(),
        node_linker: NodeLinker::Isolated,
        package_import_method: PackageImportMethod::Auto,
        link_workspace_packages: LinkWorkspacePackages::False,
        save_workspace_protocol: SaveWorkspaceProtocol::Rolling,
        hoist: true,
        hoist_pattern: vec!["*".to_string()],
        public_hoist_pattern: Vec::new(),
        shamefully_hoist: false,
        symlink: true,
        prefer_symlinked_executables: None,
        disable_relink_local_dir_deps: false,
        lockfile: true,
        prefer_frozen_lockfile: true,
        lockfile_include_tarball_url: false,
        auto_install_peers: true,
        exclude_links_from_lockfile: false,
        peers_suffix_max_length: 1000,
        inject_workspace_packages: false,
        dedupe_injected_deps: true,
        dedupe_peer_dependents: true,
        resolve_peers_from_workspace_root: true,
        strict_peer_dependencies: false,
        modules_cache_max_age: 10080,
    }
}

#[test]
fn should_materialize_root_links_for_isolated_depends_on_symlink() {
    let mut config = config();
    config.node_linker = NodeLinker::Isolated;
    config.symlink = true;
    assert!(should_materialize_root_links(&config));

    config.symlink = false;
    assert!(!should_materialize_root_links(&config));
}

#[test]
fn should_materialize_root_links_for_hoisted_is_true() {
    let mut config = config();
    config.node_linker = NodeLinker::Hoisted;
    config.symlink = false;
    assert!(should_materialize_root_links(&config));
}

#[test]
fn should_materialize_root_links_for_pnp_is_false() {
    let mut config = config();
    config.node_linker = NodeLinker::Pnp;
    config.symlink = true;
    assert!(!should_materialize_root_links(&config));
}
