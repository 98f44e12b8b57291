use pacquet_package_manager::config::{
    LinkWorkspacePackages, NodeLinker, Npmrc, PackageImportMethod, SaveWorkspaceProtocol,
};
use pacquet_package_manager::json::Json;
use pacquet_package_manager::table::TextMap;
use pacquet_package_manager::workspace::{
    WorkspaceAnswers, WorkspaceQuery, apply_workspace_root_override,
    apply_workspace_root_peer_override, dependency_meta_injected_json, dir_of_manifest,
    find_workspace_root, link_to_workspace_package, normalized_local_file_reference,
    read_dependency_specs, resolve_local_dependency, resolve_workspace_dependency_for_install,
    should_inject_workspace_dependency, workspace_file_candidates, workspace_query,
    workspace_root_overrides,
};

fn s(text: &str) -> String {
    text.to_string()
}

fn texts(list: &[&str]) -> Vec<String> {
    list.iter().map(|text| text.to_string()).collect()
}

fn map(entries: &[(&str, &str)]) -> TextMap<String> {
    let mut map = TextMap::new();
    for (key, value) in entries {
        map.insert(key.to_string(), value.to_string());
    }
    map
}

fn obj(fields: Vec<(&str, Json)>) -> Json {
    Json::Object(fields.into_iter().map(|(name, value)| (name.to_string(), value)).collect())
}

fn txt(text: &str) -> Json {
    Json::Text(text.to_string())
}

fn text_obj(fields: &[(&str, &str)]) -> Json {
    Json::Object(
        fields.iter().map(|(name, text)| (name.to_string(), Json::Text(text.to_string()))).collect(),
    )
}

fn config() -> Npmrc {
    Npmrc {
        modules_dir: "node_modules".to_string(),
        virtual_store_dir: "node_modules/.pnpm".to_string(),
        store_dir: "/store".to_string(),
        node_linker: NodeLinker::Isolated,
        package_import_method: PackageImportMethod::Auto,
        link_workspace_packages: LinkWorkspacePackages::False,
        save_workspace_protocol: SaveWorkspaceProtocol::Rolling,
        hoist: true,
        hoist_pattern: vec!["*".to_string()],
        public_hoist_pattern: Vec::new(),
        shamefully_hoist: false,
        symlink: true,
        prefer_symlinked_executables: None,
        disable_relink_local_dir_deps: false,
        lockfile: true,
        prefer_frozen_lockfile: true,
        lockfile_include_tarball_url: false,
        auto_install_peers: true,
        exclude_links_from_lockfile: false,
        peers_suffix_max_length: 1000,
        inject_workspace_packages: false,
        dedupe_injected_deps: true,
        dedupe_peer_dependents: true,
        resolve_peers_from_workspace_root: true,
        strict_peer_dependencies: false,
        modules_cache_max_age: 10080,
    }
}

/// What the root of the workspace around `/ws/workspace/packages/app` asks for.
fn peer_overrides() -> TextMap<String> {
    let candidates = workspace_file_candidates("/ws/workspace/packages/app", false);
    assert_eq!(candidates[0], "/ws/workspace/packages/app/pnpm-workspace.yaml");
    let present = texts(&["/ws/workspace/pnpm-workspace.yaml"]);
    let root = find_workspace_root("/ws/workspace/packages/app", &present, false);
    assert_eq!(root, Some(s("/ws/workspace")));
    let manifest = obj(vec![
        ("name", txt("workspace-root")),
        ("version", txt("1.0.0")),
        ("dependencies", text_obj(&[("react", "^18.3.0")])),
    ]);
    read_dependency_specs(Some(&manifest))
}

fn react_override(peers: &[(&str, &str)]) -> String {
    let mut config = config();
    config.resolve_peers_from_workspace_root = true;
    let root = map(&[("react", "^18.3.0")]);
    apply_workspace_root_peer_override(&config, &root, Some(&map(peers)), "react", "^18.0.0")
}

#[test]
fn install_with_lockfile_workspace_root_peer_overrides_reads_root_package_dependencies() {
    assert_eq!(peer_overrides().get_text("react"), Some(&s("^18.3.0")));
}

#[test]
fn install_with_lockfile_apply_workspace_root_peer_override_uses_workspace_spec_for_peer() {
    assert_eq!(react_override(&[("react", "^18.0.0")]), "^18.3.0");
}

#[test]
fn install_with_lockfile_apply_workspace_root_peer_override_keeps_non_peer_range() {
    assert_eq!(react_override(&[("typescript", "^5.0.0")]), "^18.0.0");
}

#[test]
fn install_without_lockfile_workspace_root_peer_overrides_reads_root_package_dependencies() {
    assert_eq!(peer_overrides().get_text("react"), Some(&s("^18.3.0")));
}

#[test]
fn install_without_lockfile_apply_workspace_root_peer_override_uses_workspace_spec_for_peer() {
    assert_eq!(react_override(&[("react", "^18.0.0")]), "^18.3.0");
}

#[test]
fn install_without_lockfile_apply_workspace_root_peer_override_keeps_non_peer_range() {
    assert_eq!(react_override(&[("typescript", "^5.0.0")]), "^18.0.0");
}

#[test]
fn the_root_of_the_workspace_has_its_say() {
    let mut config = config();
    config.resolve_peers_from_workspace_root = false;
    let root = map(&[("react", "^18.3.0")]);
    let peers = map(&[("react", "^18.0.0")]);
    assert_eq!(
        apply_workspace_root_peer_override(&config, &root, Some(&peers), "react", "^18.0.0"),
        "^18.0.0"
    );
    assert_eq!(apply_workspace_root_override(&root, "react", "1"), "^18.3.0");
    assert_eq!(apply_workspace_root_override(&root, "vue", "1"), "1");

    let manifest = obj(vec![("pnpm", obj(vec![("overrides", text_obj(&[("a", "1"), ("b", "2")]))]))]);
    let workspace = obj(vec![("overrides", text_obj(&[("b", "3")]))]);
    let overrides = workspace_root_overrides(Some(&manifest), Some(&workspace));
    assert_eq!(overrides.get_text("a"), Some(&s("1")));
    assert_eq!(overrides.get_text("b"), Some(&s("3")));
    assert_eq!(workspace_root_overrides(None, None).len(), 0);
    assert_eq!(find_workspace_root("/a/b", &texts(&[]), false), None);
}

#[test]
fn the_later_groups_of_a_manifest_count() {
    let manifest = obj(vec![
        ("dependencies", text_obj(&[("a", "1"), ("b", "1")])),
        ("peerDependencies", text_obj(&[("b", "4")])),
    ]);
    let specs = read_dependency_specs(Some(&manifest));
    assert_eq!(specs.get_text("a"), Some(&s("1")));
    assert_eq!(specs.get_text("b"), Some(&s("4")));
    assert_eq!(read_dependency_specs(None).len(), 0);
}

#[test]
fn directories_are_referred_to() {
    assert_eq!(normalized_local_file_reference("/ws", "/ws/packages/a", false), "file:packages/a");
    assert_eq!(normalized_local_file_reference("/ws", "..\\a", false), "file:../a");
    assert_eq!(dir_of_manifest("/ws/package.json", false), "/ws");
    assert_eq!(dir_of_manifest("", false), ".");
    let found = resolve_local_dependency(
        "/ws/app/package.json",
        "link:..\\lib",
        false,
    ).expect("found");
    assert_eq!(found.link, "link:../lib");
    assert_eq!(found.path, "/ws/app/..\\lib");
    assert!(found.should_symlink);
    assert!(!resolve_local_dependency(
        "/ws/package.json",
        "file:lib",
        false,
    ).expect("found").should_symlink);
    assert!(resolve_local_dependency("/ws/package.json", "^1.0.0", false).is_none());
    assert_eq!(link_to_workspace_package("/ws/a", "/ws/b", false), "link:../b");
}

#[test]
fn copies_are_asked_for() {
    let meta = obj(vec![("a", obj(vec![("injected", Json::Bool(true))])), ("b", obj(vec![]))]);
    assert!(dependency_meta_injected_json(Some(&meta), "a"));
    assert!(!dependency_meta_injected_json(Some(&meta), "b"));
    assert!(!dependency_meta_injected_json(None, "a"));
    let manifest = obj(vec![("dependenciesMeta", meta)]);
    let mut config = config();
    assert!(should_inject_workspace_dependency(&manifest, "a", "workspace:*", &config));
    assert!(!should_inject_workspace_dependency(&manifest, "a", "^1.0.0", &config));
    assert!(!should_inject_workspace_dependency(&manifest, "b", "workspace:*", &config));
    config.inject_workspace_packages = true;
    assert!(should_inject_workspace_dependency(&manifest, "b", "workspace:*", &config));
}

#[test]
fn dependencies_are_looked_for_in_the_workspace() {
    let mut config = config();
    assert!(matches!(workspace_query(&config, "a", "workspace:*", 0), WorkspaceQuery::ByProtocol));
    assert!(matches!(workspace_query(&config, "a", "^1.0.0", 0), WorkspaceQuery::Nowhere));
    config.link_workspace_packages = LinkWorkspacePackages::Direct;
    assert!(matches!(workspace_query(&config, "a", "npm:b@^1.0.0", 0),
        WorkspaceQuery::ByPlainSpec { name, specifier } if name == "b" && specifier == "^1.0.0"));
    assert!(matches!(workspace_query(&config, "a", "^1.0.0", 1), WorkspaceQuery::Nowhere));

    let answers = |by_path, by_protocol: Result<usize, String>, by_plain_spec| WorkspaceAnswers {
        by_path,
        by_protocol,
        by_plain_spec,
    };
    let resolve = |specifier: &str, answers: &WorkspaceAnswers| {
        resolve_workspace_dependency_for_install(&config, "a", specifier, 0, answers)
    };
    assert_eq!(resolve("workspace:*", &answers(None, Ok(3), None)), Ok(Some(3)));
    assert_eq!(resolve("workspace:../a", &answers(Some(1), Ok(3), None)), Ok(Some(1)));
    assert_eq!(resolve("workspace:*", &answers(None, Err(s("none")), Some(2))), Err(s("none")));
    assert_eq!(resolve("^1.0.0", &answers(None, Err(s("none")), Some(2))), Ok(Some(2)));
    assert_eq!(resolve("^1.0.0", &answers(None, Err(s("none")), None)), Ok(None));
}
