use pacquet_package_manager::config::{
    LinkWorkspacePackages, NodeLinker, Npmrc, PackageImportMethod, SaveWorkspaceProtocol,
};
use pacquet_package_manager::json::Json;
use pacquet_package_manager::lockfile::{
    Lockfile, LockfileSettings, PackageMap, ProjectSnapshot, RootProjectSnapshot,
};
use pacquet_package_manager::lockfile_check::{
    RuntimeLockfileConfig, all_catalogs_are_up_to_date, calculate_pnpmfile_checksum,
    collect_runtime_lockfile_config, extract_catalogs, extract_overrides_from_package_json,
    extract_overrides_from_workspace, get_outdated_lockfile_setting, merge_json_objects,
};
use pacquet_package_manager::object_hash::object_hash_serialize_json;
use pacquet_package_manager::table::TextMap;
use pacquet_package_manager::value::Value;

fn s(text: &str) -> String {
    text.to_string()
}

fn texts(list: &[&str]) -> Vec<String> {
    list.iter().map(|text| text.to_string()).collect()
}

fn map(entries: &[(&str, &str)]) -> TextMap<String> {
    let mut map = TextMap::new();
    for (key, value) in entries {
        map.insert(key.to_string(), value.to_string());
    }
    map
}

fn entries(map: &TextMap<String>) -> Vec<(String, String)> {
    (0..map.len()).map(|i| (map.key_at(i).clone(), map.value_at(i).clone())).collect()
}

fn keys<V: Value>(map: &TextMap<V>) -> Vec<String> {
    (0..map.len()).map(|i| map.key_at(i).clone()).collect()
}

fn pairs(list: &[(&str, &str)]) -> Vec<(String, String)> {
    list.iter().map(|(a, b)| (a.to_string(), b.to_string())).collect()
}

fn obj(fields: Vec<(&str, Json)>) -> Json {
    Json::Object(fields.into_iter().map(|(name, value)| (name.to_string(), value)).collect())
}

fn txt(text: &str) -> Json {
    Json::Text(text.to_string())
}

fn text_obj(fields: &[(&str, &str)]) -> Json {
    Json::Object(
        fields.iter().map(|(name, text)| (name.to_string(), Json::Text(text.to_string()))).collect(),
    )
}

fn lockfile(project_snapshot: RootProjectSnapshot, packages: Option<PackageMap>) -> Lockfile {
    Lockfile {
        lockfile_version: (9, 0),
        settings: None,
        never_built_dependencies: None,
        ignored_optional_dependencies: None,
        overrides: None,
        package_extensions_checksum: None,
        patched_dependencies: None,
        pnpmfile_checksum: None,
        catalogs: None,
        time: None,
        extra_fields: TextMap::new(),
        project_snapshot,
        packages,
    }
}

fn config() -> Npmrc {
    Npmrc {
        modules_dir: "node_modules".to_string(),
        virtual_store_dir: "node_modules/.pnpm".to_string(),
        store_dir: "/store".to_string(),
        node_linker: NodeLinker::Isolated,
        package_import_method: PackageImportMethod::Auto,
        link_workspace_packages: LinkWorkspacePackages::False,
        save_workspace_protocol: SaveWorkspaceProtocol::Rolling,
        hoist: true,
        hoist_pattern: vec!["*".to_string()],
        public_hoist_pattern: Vec::new(),
        shamefully_hoist: false,
        symlink: true,
        prefer_symlinked_executables: None,
        disable_relink_local_dir_deps: false,
        lockfile: true,
        prefer_frozen_lockfile: true,
        lockfile_include_tarball_url: false,
        auto_install_peers: true,
        exclude_links_from_lockfile: false,
        peers_suffix_max_length: 1000,
        inject_workspace_packages: false,
        dedupe_injected_deps: true,
        dedupe_peer_dependents: true,
        resolve_peers_from_workspace_root: true,
        strict_peer_dependencies: false,
        modules_cache_max_age: 10080,
    }
}

fn empty_lockfile() -> Lockfile {
    lockfile(RootProjectSnapshot::Single(ProjectSnapshot::empty()), None)
}

fn runtime(workspace: Option<&Json>) -> RuntimeLockfileConfig {
    collect_runtime_lockfile_config(&config(), workspace, Some(&obj(vec![])), None)
}

#[test]
fn outdated_setting_detects_overrides() {
    let mut lockfile = empty_lockfile();
    lockfile.overrides = Some(map(&[("foo", "1.0.0")]));

    assert_eq!(get_outdated_lockfile_setting(&lockfile, &runtime(None)), Some("overrides"));
}

#[test]
fn outdated_setting_detects_auto_install_peers() {
    let mut lockfile = empty_lockfile();
    lockfile.settings = Some(LockfileSettings {
        auto_install_peers: Some(false),
        exclude_links_from_lockfile: None,
        peers_suffix_max_length: None,
        inject_workspace_packages: None,
    });

    assert_eq!(
        get_outdated_lockfile_setting(&lockfile, &runtime(None)),
        Some("settings.autoInstallPeers")
    );
}

#[test]
fn outdated_setting_detects_catalog_drift() {
    let workspace = obj(vec![("catalog", text_obj(&[("is-positive", "=1.0.0")]))]);
    let mut lockfile = empty_lockfile();
    lockfile.catalogs = Some(obj(vec![(
        "default",
        obj(vec![("is-positive", text_obj(&[("specifier", "=2.0.0"), ("version", "2.0.0")]))]),
    )]));

    assert_eq!(
        get_outdated_lockfile_setting(&lockfile, &runtime(Some(&workspace))),
        Some("catalogs")
    );
}

#[test]
fn pnpmfile_checksum_is_none_when_pnpmfile_exports_undefined() {
    let sum = calculate_pnpmfile_checksum(Some(false), Some("module.exports = undefined;\n"));
    assert_eq!(sum, None);
    let runtime = collect_runtime_lockfile_config(&config(), None, Some(&obj(vec![])), sum);
    assert_eq!(runtime.pnpmfile_checksum, None);
}

fn settings() -> LockfileSettings {
    LockfileSettings {
        auto_install_peers: None,
        exclude_links_from_lockfile: None,
        peers_suffix_max_length: None,
        inject_workspace_packages: None,
    }
}

#[test]
fn a_lockfile_without_settings_is_current() {
    assert_eq!(get_outdated_lockfile_setting(&empty_lockfile(), &runtime(None)), None);
}

#[test]
fn every_setting_that_differs_is_named() {
    let mut lockfile = empty_lockfile();
    lockfile.package_extensions_checksum = Some(s("sha256-x"));
    assert_eq!(
        get_outdated_lockfile_setting(&lockfile, &runtime(None)),
        Some("packageExtensionsChecksum")
    );

    let mut lockfile = empty_lockfile();
    lockfile.settings =
        Some(LockfileSettings { exclude_links_from_lockfile: Some(true), ..settings() });
    assert_eq!(
        get_outdated_lockfile_setting(&lockfile, &runtime(None)),
        Some("settings.excludeLinksFromLockfile")
    );

    lockfile.settings = Some(LockfileSettings { peers_suffix_max_length: Some(7), ..settings() });
    assert_eq!(
        get_outdated_lockfile_setting(&lockfile, &runtime(None)),
        Some("settings.peersSuffixMaxLength")
    );

    let mut other = runtime(None);
    other.settings.peers_suffix_max_length = Some(7);
    assert_eq!(get_outdated_lockfile_setting(&lockfile, &other), None);
    assert_eq!(
        get_outdated_lockfile_setting(&empty_lockfile(), &other),
        Some("settings.peersSuffixMaxLength")
    );

    let mut lockfile = empty_lockfile();
    lockfile.pnpmfile_checksum = Some(s("sha256-x"));
    assert_eq!(
        get_outdated_lockfile_setting(&lockfile, &runtime(None)),
        Some("pnpmfileChecksum")
    );

    let mut lockfile = empty_lockfile();
    lockfile.settings =
        Some(LockfileSettings { inject_workspace_packages: Some(true), ..settings() });
    assert_eq!(
        get_outdated_lockfile_setting(&lockfile, &runtime(None)),
        Some("settings.injectWorkspacePackages")
    );
}

#[test]
fn catalogs_are_extracted() {
    let workspace = obj(vec![
        ("catalog", text_obj(&[("a", "1")])),
        ("catalogs", obj(vec![("default", text_obj(&[("a", "0"), ("b", "2")])), ("x", txt("no"))])),
    ]);
    let catalogs = extract_catalogs(Some(&workspace));
    assert_eq!(keys(&catalogs), texts(&["default"]));
    let default = catalogs.get_text("default").expect("a catalog");
    assert_eq!(default.get_text("a"), Some(&s("1")));
    assert_eq!(default.get_text("b"), Some(&s("2")));
    assert_eq!(extract_catalogs(None).len(), 0);
    assert_eq!(extract_catalogs(Some(&txt("x"))).len(), 0);

    let entry = |specifier: &str| {
        obj(vec![("default", obj(vec![("a", text_obj(&[("specifier", specifier)]))]))])
    };
    assert!(all_catalogs_are_up_to_date(&catalogs, None));
    assert!(all_catalogs_are_up_to_date(&catalogs, Some(&entry("1"))));
    assert!(!all_catalogs_are_up_to_date(&catalogs, Some(&entry("2"))));
    assert!(!all_catalogs_are_up_to_date(&catalogs, Some(&txt("x"))));
    assert!(!all_catalogs_are_up_to_date(&catalogs, Some(&obj(vec![("default", txt("x"))]))));
}

#[test]
fn overrides_of_the_workspace_come_last() {
    let workspace = obj(vec![("overrides", text_obj(&[("a", "2"), ("b", "3")]))]);
    let root = obj(vec![("pnpm", obj(vec![("overrides", text_obj(&[("a", "1"), ("c", "4")]))]))]);
    assert_eq!(
        entries(&extract_overrides_from_workspace(Some(&workspace))),
        pairs(&[("a", "2"), ("b", "3")])
    );
    assert_eq!(
        entries(&extract_overrides_from_package_json(Some(&root))),
        pairs(&[("a", "1"), ("c", "4")])
    );
    assert_eq!(extract_overrides_from_package_json(None).len(), 0);
    let runtime = collect_runtime_lockfile_config(&config(), Some(&workspace), Some(&root), None);
    let overrides = runtime.overrides.expect("overrides");
    assert_eq!(overrides.len(), 3);
    assert_eq!(overrides.get_text("a"), Some(&s("2")));
    assert_eq!(overrides.get_text("c"), Some(&s("4")));
}

#[test]
fn objects_are_merged() {
    let left = text_obj(&[("a", "1"), ("b", "2")]);
    let right = text_obj(&[("b", "3"), ("c", "4")]);
    let merged = merge_json_objects(Some(&left), Some(&right)).expect("an object");
    let text = |name: &str| match merged.get(name) {
        Some(Json::Text(text)) => text.clone(),
        _ => panic!("no text"),
    };
    assert_eq!(text("a"), "1");
    assert_eq!(text("b"), "3");
    assert_eq!(text("c"), "4");
    assert_eq!(
        object_hash_serialize_json(&merged),
        object_hash_serialize_json(&text_obj(&[("a", "1"), ("b", "3"), ("c", "4")]))
    );
    assert!(merge_json_objects(None, Some(&txt("x"))).is_none());
    assert!(merge_json_objects(Some(&obj(vec![])), None).is_none());
}

#[test]
fn line_ends_do_not_count_in_a_pnpmfile() {
    let unix = calculate_pnpmfile_checksum(Some(true), Some("a\nb\n"));
    assert_eq!(unix, Some(s("sha256-kRFp3arxRq/1OfWMJsSJrzuJLf8P4oPBwmTGWuWqWaI=")));
    assert_eq!(calculate_pnpmfile_checksum(Some(true), Some("a\r\nb\r\n")), unix);
    assert_eq!(calculate_pnpmfile_checksum(Some(true), None), None);
    assert_eq!(calculate_pnpmfile_checksum(None, Some("a\n")), None);
}
