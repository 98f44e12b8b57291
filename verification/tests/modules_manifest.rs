use pacquet_package_manager::config::{
    LinkWorkspacePackages, NodeLinker, Npmrc, PackageImportMethod, SaveWorkspaceProtocol,
};
use pacquet_package_manager::installability::{
    Installability, Machine, check_package_snapshot_installability,
};
use pacquet_package_manager::lockfile::{
    DependencyGroup, DependencyPath, LockfileResolution, PackageMap, PackageSnapshot,
    PkgNameVerPeer, PkgVerPeer,
};
use pacquet_package_manager::modules_manifest::{
    HoistDirEntry, ModulesManifest, PackageManagerName, Surroundings, build_modules_manifest,
    cache_expired, collect_hoist_dir_entries, collect_hoisted_dependencies,
    complete_modules_manifest, default_virtual_store_dir_max_length, detect_pnpm_package_manager,
    hoisted_dependencies, included_dependencies, modules_manifest_is_compatible,
    modules_manifest_package_id, normalize_windows_verbatim_path, parse_number, pnpm_version_in,
    relative_virtual_store_dir, should_prune_orphaned_virtual_store_entries, skipped_packages,
};
use pacquet_package_manager::paths::{is_absolute_path, is_same_path};
use pacquet_package_manager::semver::Version;
use pacquet_package_manager::table::TextMap;
use pacquet_package_manager::value::Value;

fn s(text: &str) -> String {
    text.to_string()
}

fn texts(list: &[&str]) -> Vec<String> {
    list.iter().map(|text| text.to_string()).collect()
}

fn map(entries: &[(&str, &str)]) -> TextMap<String> {
    let mut map = TextMap::new();
    for (key, value) in entries {
        map.insert(key.to_string(), value.to_string());
    }
    map
}

fn keys<V: Value>(map: &TextMap<V>) -> Vec<String> {
    (0..map.len()).map(|i| map.key_at(i).clone()).collect()
}

fn ver(text: &str) -> Version {
    Version::parse(text).expect("a version")
}

fn suffix(name: &str, version: &str, peer: &str) -> PkgVerPeer {
    let store_name = format!("{name}@{version}{peer}");
    PkgVerPeer {
        version: ver(version),
        peer: peer.to_string(),
        store_name: store_name.replace('/', "+").replace('(', "_").replace(')', ""),
    }
}

fn package(name: &str, version: &str, peer: &str) -> PkgNameVerPeer {
    PkgNameVerPeer { name: name.to_string(), suffix: suffix(name, version, peer) }
}

fn path(name: &str, version: &str, peer: &str) -> DependencyPath {
    DependencyPath::registry(None, package(name, version, peer))
}

fn snapshot() -> PackageSnapshot {
    PackageSnapshot {
        resolution: LockfileResolution::Tarball {
            tarball: "file:dummy.tgz".to_string(),
            integrity: None,
        },
        id: None,
        name: None,
        version: None,
        engines: None,
        cpu: None,
        os: None,
        libc: None,
        deprecated: None,
        has_bin: None,
        prepare: None,
        requires_build: None,
        bundled_dependencies: None,
        peer_dependencies: None,
        peer_dependencies_meta: None,
        dependencies: None,
        optional_dependencies: None,
        transitive_peer_dependencies: None,
        dev: None,
        optional: None,
    }
}

fn packages(entries: Vec<(DependencyPath, PackageSnapshot)>) -> PackageMap {
    let mut packages = PackageMap::new();
    for (path, snapshot) in entries {
        packages.insert(path, snapshot);
    }
    packages
}

fn config() -> Npmrc {
    Npmrc {
        modules_dir: "node_modules".to_string(),
        virtual_store_dir: "node_modules/.pnpm".to_string(),
        store_dir: "/store".to_string(),
        node_linker: NodeLinker::Isolated,
        package_import_method: PackageImportMethod::Auto,
        link_workspace_packages: LinkWorkspacePackages::False,
        save_workspace_protocol: SaveWorkspaceProtocol::Rolling,
        hoist: true,
        hoist_pattern: vec!["*".to_string()],
        public_hoist_pattern: Vec::new(),
        shamefully_hoist: false,
        symlink: true,
        prefer_symlinked_executables: None,
        disable_relink_local_dir_deps: false,
        lockfile: true,
        prefer_frozen_lockfile: true,
        lockfile_include_tarball_url: false,
        auto_install_peers: true,
        exclude_links_from_lockfile: false,
        peers_suffix_max_length: 1000,
        inject_workspace_packages: false,
        dedupe_injected_deps: true,
        dedupe_peer_dependents: true,
        resolve_peers_from_workspace_root: true,
        strict_peer_dependencies: false,
        modules_cache_max_age: 10080,
    }
}

fn machine() -> Machine {
    Machine {
        os: "linux".to_string(),
        cpu: "x64".to_string(),
        libc: "glibc".to_string(),
        node: Version::parse("20.11.0"),
    }
}

fn modules_manifest() -> ModulesManifest {
    ModulesManifest {
        hoist_pattern: None,
        hoisted_dependencies: None,
        injected_deps: None,
        layout_version: None,
        node_linker: None,
        package_manager: None,
        pending_builds: Vec::new(),
        pruned_at: None,
        public_hoist_pattern: None,
        shamefully_hoist: None,
        registries: None,
        store_dir: None,
        ignored_builds: Vec::new(),
        virtual_store_dir: None,
        virtual_store_dir_max_length: None,
        included: None,
        skipped: Vec::new(),
    }
}

const NOW: u64 = 1_700_000_000;
const MODULES_DIR: &str = "/project/node_modules";

fn registries(default: &str) -> TextMap<String> {
    map(&[("default", default), ("@jsr", "https://npm.jsr.io/")])
}

fn surroundings(registries: TextMap<String>) -> Surroundings {
    Surroundings {
        package_manager: detect_pnpm_package_manager(None, "0.0.1"),
        registries,
        store_dir: s("/project/store/v10"),
        now: NOW,
        place_on_windows: None,
    }
}

fn project_config() -> Npmrc {
    let mut config = config();
    config.modules_dir = s(MODULES_DIR);
    config.virtual_store_dir = s("/project/node_modules/.pnpm");
    config
}

/// What an installation leaves that finds no hoisted packages in place.
fn write_manifest(
    config: &Npmrc,
    groups: &[DependencyGroup],
    skipped: &[&str],
    packages: Option<&PackageMap>,
    direct_dependency_names: &[&str],
    surroundings: Surroundings,
) -> ModulesManifest {
    let mut unfit = Vec::new();
    if let Some(packages) = packages {
        for i in 0..packages.len() {
            let id = modules_manifest_package_id(packages.key_at(i));
            let verdict = check_package_snapshot_installability(
                &id,
                packages.value_at(i),
                true,
                &machine(),
            );
            unfit.push(verdict.installability == Installability::SkipOptional);
        }
    }
    let skipped = skipped_packages(&texts(skipped), packages, &unfit);
    let hoisted =
        hoisted_dependencies(config, packages, &texts(direct_dependency_names), &vec![], &vec![]);
    build_modules_manifest(MODULES_DIR, config, &groups.to_vec(), skipped, hoisted, surroundings)
}

fn write_plain(config: &Npmrc, groups: &[DependencyGroup]) -> ModulesManifest {
    let registries = registries("https://registry.npmjs.org/");
    write_manifest(config, groups, &[], None, &[], surroundings(registries))
}

fn read(manifest: ModulesManifest) -> ModulesManifest {
    complete_modules_manifest(manifest, MODULES_DIR, NOW, false)
}

#[test]
fn should_prune_without_modules_manifest() {
    assert!(should_prune_orphaned_virtual_store_entries(None, 10, NOW));
}

#[test]
fn should_not_prune_when_manifest_is_fresh() {
    let groups = [DependencyGroup::Prod, DependencyGroup::Dev, DependencyGroup::Optional];
    let manifest = write_plain(&project_config(), &groups);
    assert!(manifest.skipped.is_empty());

    assert!(!should_prune_orphaned_virtual_store_entries(Some(&manifest), 10, NOW));
}

#[test]
fn should_prune_when_manifest_is_expired() {
    let mut manifest = modules_manifest();
    manifest.pruned_at = Some(format!("{}", NOW - 3 * 60));

    assert!(should_prune_orphaned_virtual_store_entries(Some(&manifest), 2, NOW));
}

#[test]
fn zero_cache_age_prunes_even_when_manifest_is_fresh() {
    let manifest = write_plain(&project_config(), &[DependencyGroup::Prod]);

    assert!(should_prune_orphaned_virtual_store_entries(Some(&manifest), 0, NOW));
}

#[test]
fn writes_sorted_skipped_packages() {
    let config = project_config();
    let manifest = write_manifest(
        &config,
        &[DependencyGroup::Prod, DependencyGroup::Optional],
        &["b@1.0.0", "a@1.0.0"],
        None,
        &[],
        surroundings(registries("https://registry.npmjs.org/")),
    );

    assert_eq!(manifest.skipped, texts(&["a@1.0.0", "b@1.0.0"]));
    assert_eq!(manifest.layout_version, Some(5));
    assert_eq!(manifest.node_linker, Some(s("isolated")));
    assert!(manifest.package_manager.is_some());
    assert_eq!(manifest.injected_deps.as_ref().expect("injected deps").len(), 0);
    assert_eq!(manifest.virtual_store_dir, Some(s(".pnpm")));
    let included = manifest.included.expect("included");
    assert!(included.dependencies);
    assert!(included.optional_dependencies);
    assert_eq!(manifest.resolved_virtual_store_dir(MODULES_DIR, false), config.virtual_store_dir);
    assert_eq!(
        read(manifest).resolved_virtual_store_dir(MODULES_DIR, false),
        config.virtual_store_dir
    );
}

#[test]
fn detect_package_manager_prefers_pnpm_version_with_fallback() {
    let package_manager = detect_pnpm_package_manager(Some("10.1.0"), "0.0.1");
    assert!(package_manager.starts_with("pnpm@"));
    assert_eq!(package_manager, "pnpm@10.1.0");

    let package_manager = detect_pnpm_package_manager(None, "0.0.1");
    assert_eq!(package_manager, format!("pacquet@{}", "0.0.1"));
}

#[test]
fn writes_included_dependency_flags() {
    let manifest = write_plain(&project_config(), &[DependencyGroup::Dev]);
    let included = manifest.included.expect("included");
    assert!(!included.dependencies);
    assert!(included.dev_dependencies);
    assert!(!included.optional_dependencies);
}

#[test]
fn writes_hoist_patterns() {
    let mut config = project_config();
    config.hoist_pattern = texts(&["*eslint*"]);
    config.public_hoist_pattern = texts(&["*", "!typescript"]);
    let manifest = write_plain(&config, &[DependencyGroup::Prod]);

    assert_eq!(manifest.hoist_pattern, Some(texts(&["*eslint*"])));
    assert_eq!(manifest.public_hoist_pattern, Some(texts(&["*", "!typescript"])));
}

#[test]
fn writes_registries() {
    let mut registries = registries("https://default.example/");
    registries.insert(s("@foo"), s("https://foo.example/"));
    let manifest = write_manifest(
        &project_config(),
        &[DependencyGroup::Prod],
        &[],
        None,
        &[],
        surroundings(registries),
    );

    let registries = manifest.registries.expect("registries");
    assert_eq!(registries.get_text("default"), Some(&s("https://default.example/")));
    assert_eq!(registries.get_text("@foo"), Some(&s("https://foo.example/")));
    assert!(registries.contains_text("@jsr"));
}

#[test]
fn writes_pnpm_like_hoisted_dependencies() {
    let packages = packages(vec![(path("@scope/pkg", "1.0.0", ""), snapshot())]);
    let manifest = write_manifest(
        &project_config(),
        &[DependencyGroup::Prod],
        &[],
        Some(&packages),
        &[],
        surroundings(registries("https://registry.npmjs.org/")),
    );

    let hoisted = manifest.hoisted_dependencies.expect("hoisted dependencies");
    let aliases = hoisted.get_text("@scope/pkg@1.0.0").expect("a hoisted package");
    assert_eq!(aliases.get_text("@scope/pkg"), Some(&s("private")));
}

#[test]
fn writes_virtual_store_dir_max_length_and_build_arrays() {
    let manifest = write_plain(&project_config(), &[DependencyGroup::Prod]);
    assert_eq!(
        manifest.virtual_store_dir_max_length,
        Some(default_virtual_store_dir_max_length(false))
    );
    assert!(manifest.pending_builds.is_empty());
    assert!(manifest.ignored_builds.is_empty());
    assert!(read(manifest).store_dir.expect("store dir").ends_with("store/v10"));
}

#[test]
fn writes_skipped_packages_detected_from_optional_installability() {
    let mut snapshot = snapshot();
    snapshot.resolution = LockfileResolution::Registry { integrity: s("sha512-Bw==") };
    snapshot.os = Some(texts(&["definitely-not-this-os"]));
    snapshot.optional = Some(true);
    let packages = packages(vec![(path("@scope/optional", "1.0.0", ""), snapshot)]);
    let manifest = write_manifest(
        &project_config(),
        &[DependencyGroup::Optional],
        &[],
        Some(&packages),
        &[],
        surroundings(registries("https://registry.npmjs.org/")),
    );

    assert_eq!(manifest.skipped, texts(&["@scope/optional@1.0.0"]));
}

#[test]
fn read_modules_manifest_normalizes_relative_virtual_store_dir_and_defaults() {
    let mut found = modules_manifest();
    found.shamefully_hoist = Some(false);
    found.virtual_store_dir = Some(s(".pnpm"));

    let manifest = read(found);

    assert_eq!(
        manifest.resolved_virtual_store_dir(MODULES_DIR, false),
        format!("{MODULES_DIR}/.pnpm")
    );
    assert_eq!(manifest.public_hoist_pattern, Some(Vec::new()));
    assert_eq!(
        manifest.virtual_store_dir_max_length(false),
        default_virtual_store_dir_max_length(false)
    );
    assert!(manifest.pruned_at.is_some());
}

#[test]
fn read_modules_manifest_defaults_virtual_store_dir_when_missing() {
    let mut found = modules_manifest();
    found.layout_version = Some(5);

    let manifest = read(found);

    assert_eq!(
        manifest.resolved_virtual_store_dir(MODULES_DIR, false),
        format!("{MODULES_DIR}/.pnpm")
    );
}

#[test]
fn write_and_read_roundtrip() {
    let mut config = project_config();
    config.hoist_pattern = texts(&["*"]);
    config.public_hoist_pattern = texts(&["*types*", "*eslint*"]);

    let groups = [DependencyGroup::Prod, DependencyGroup::Dev];
    let manifest = read(write_manifest(
        &config,
        &groups,
        &["skipped-pkg@1.0.0"],
        None,
        &[],
        surroundings(registries("https://registry.npmjs.org/")),
    ));

    assert_eq!(manifest.layout_version, Some(5));
    assert_eq!(manifest.node_linker, Some(s("isolated")));
    assert_eq!(manifest.hoist_pattern, Some(texts(&["*"])));
    assert_eq!(manifest.public_hoist_pattern, Some(texts(&["*types*", "*eslint*"])));
    assert!(manifest.package_manager.as_ref().expect("package_manager").contains("pacquet@"));
    assert!(manifest.pruned_at.is_some());
    assert_eq!(manifest.skipped, texts(&["skipped-pkg@1.0.0"]));
    assert_eq!(manifest.pending_builds, Vec::<String>::new());
    assert!(manifest.store_dir.as_ref().expect("store_dir").contains("store"));
    assert_eq!(
        manifest.virtual_store_dir_max_length(false),
        default_virtual_store_dir_max_length(false)
    );
    let included = manifest.included.expect("included");
    assert!(included.dependencies);
    assert!(included.dev_dependencies);
    assert!(!included.optional_dependencies);
    assert!(modules_manifest_is_compatible(
        &manifest,
        &config,
        "/project/store/v10",
        &groups.to_vec(),
        false
    ));
}

#[test]
fn virtual_store_dir_is_relative_on_unix() {
    let manifest = write_plain(&project_config(), &[DependencyGroup::Prod]);
    let dir = manifest.virtual_store_dir.expect("virtual store dir");
    assert!(!is_absolute_path(&dir, false));
    assert_eq!(dir, ".pnpm");
}

#[test]
fn virtual_store_dir_is_absolute_on_windows() {
    let mut around = surroundings(registries("https://registry.npmjs.org/"));
    around.place_on_windows = Some(s(r"\\?\C:\project\node_modules\.pnpm"));
    let manifest =
        write_manifest(&project_config(), &[DependencyGroup::Prod], &[], None, &[], around);
    let dir = manifest.virtual_store_dir.expect("virtual store dir");
    assert!(!dir.starts_with(r"\\?\"));
    assert_eq!(dir, r"C:\project\node_modules\.pnpm");
    assert_eq!(manifest.virtual_store_dir_max_length, Some(60));
}

#[test]
fn virtual_store_dir_without_verbatim_prefix_on_windows() {
    let result = normalize_windows_verbatim_path(r"\\?\C:\Users\test\.pnpm");
    assert_eq!(result, r"C:\Users\test\.pnpm");

    let unc_result = normalize_windows_verbatim_path(r"\\?\UNC\server\share\path");
    assert_eq!(unc_result, r"\\server\share\path");

    let normal = normalize_windows_verbatim_path(r"C:\Users\test\.pnpm");
    assert_eq!(normal, r"C:\Users\test\.pnpm");
}

#[test]
fn normalize_windows_verbatim_path_strips_prefix() {
    assert_eq!(
        normalize_windows_verbatim_path(r"\\?\C:\Users\test\store\v10"),
        r"C:\Users\test\store\v10"
    );

    assert_eq!(normalize_windows_verbatim_path(r"\\?\UNC\server\share"), r"\\server\share");

    assert_eq!(normalize_windows_verbatim_path("/home/user/store/v10"), "/home/user/store/v10");

    assert_eq!(normalize_windows_verbatim_path(""), "");
}

#[test]
fn store_dir_gets_normalized() {
    let result = normalize_windows_verbatim_path("/tmp/store/v10");
    assert!(result.ends_with("store/v10"));
    assert!(!result.starts_with(r"\\?\"));

    let result = normalize_windows_verbatim_path(r"\\?\C:\tmp\store\v10");
    assert!(result.ends_with(r"store\v10"));
    assert!(!result.starts_with(r"\\?\"));
}

#[test]
fn default_virtual_store_dir_max_length_platform_specific() {
    assert_eq!(default_virtual_store_dir_max_length(true), 60);
    assert_eq!(default_virtual_store_dir_max_length(false), 120);

    let mut found = modules_manifest();
    found.layout_version = Some(5);
    let manifest = read(found);
    assert_eq!(
        manifest.virtual_store_dir_max_length(false),
        default_virtual_store_dir_max_length(false)
    );
}

#[test]
fn read_backwards_compatible_manifest_shamefully_hoist_true() {
    let mut found = modules_manifest();
    found.shamefully_hoist = Some(true);
    found.layout_version = Some(5);
    found.node_linker = Some(s("isolated"));
    found.virtual_store_dir = Some(s(".pnpm"));

    let manifest = read(found);

    assert_eq!(manifest.shamefully_hoist, Some(true));
    assert_eq!(manifest.public_hoist_pattern, Some(texts(&["*"])));
}

#[test]
fn read_backwards_compatible_manifest_shamefully_hoist_false() {
    let mut found = modules_manifest();
    found.shamefully_hoist = Some(false);
    found.layout_version = Some(5);
    found.node_linker = Some(s("isolated"));
    found.virtual_store_dir = Some(s(".pnpm"));

    let manifest = read(found);

    assert_eq!(manifest.shamefully_hoist, Some(false));
    assert_eq!(manifest.public_hoist_pattern, Some(Vec::<String>::new()));
}

#[test]
fn read_backwards_compatible_shamefully_hoist_with_existing_public_hoist_pattern() {
    let mut found = modules_manifest();
    found.shamefully_hoist = Some(true);
    found.public_hoist_pattern = Some(texts(&["@types/*"]));
    found.layout_version = Some(5);
    found.virtual_store_dir = Some(s(".pnpm"));

    let manifest = read(found);

    assert_eq!(manifest.shamefully_hoist, Some(true));
    assert_eq!(manifest.public_hoist_pattern, Some(texts(&["@types/*"])));
}

#[test]
fn hoisted_dependencies_written_correctly() {
    let mut config = project_config();
    config.hoist = true;
    config.hoist_pattern = texts(&["*"]);

    let packages = packages(vec![
        (path("lodash", "4.17.21", ""), snapshot()),
        (path("@babel/core", "7.23.0", ""), snapshot()),
    ]);
    let manifest = write_manifest(
        &config,
        &[DependencyGroup::Prod],
        &[],
        Some(&packages),
        &[],
        surroundings(registries("https://registry.npmjs.org/")),
    );

    let hoisted = manifest.hoisted_dependencies.expect("hoisted dependencies");
    for i in 0..hoisted.len() {
        assert!(!hoisted.key_at(i).starts_with('/'));
    }
    let lodash = hoisted.get_text("lodash@4.17.21").expect("lodash");
    assert_eq!(lodash.get_text("lodash"), Some(&s("private")));
    let babel = hoisted.get_text("@babel/core@7.23.0").expect("@babel/core");
    assert_eq!(babel.get_text("@babel/core"), Some(&s("private")));
}

#[test]
fn hoisted_dependencies_excludes_direct_dependencies() {
    let mut config = project_config();
    config.hoist = true;
    config.hoist_pattern = texts(&["*"]);

    let packages = packages(vec![(path("lodash", "4.17.21", ""), snapshot())]);
    let manifest = write_manifest(
        &config,
        &[DependencyGroup::Prod],
        &[],
        Some(&packages),
        &["lodash"],
        surroundings(registries("https://registry.npmjs.org/")),
    );

    assert!(manifest.hoisted_dependencies.is_none());
}

#[test]
fn roundtrip_preserves_registries() {
    let mut registries = registries("https://custom.registry.example/");
    registries.insert(s("@myorg"), s("https://myorg.example/"));
    let manifest = read(write_manifest(
        &project_config(),
        &[DependencyGroup::Prod],
        &[],
        None,
        &[],
        surroundings(registries),
    ));

    let registries = manifest.registries.expect("registries");
    assert_eq!(registries.get_text("default"), Some(&s("https://custom.registry.example/")));
    assert!(registries.contains_text("@myorg"));
    assert!(registries.contains_text("@jsr"));
}

#[test]
fn read_manifest_fills_pruned_at_when_missing() {
    let mut found = modules_manifest();
    found.layout_version = Some(5);
    found.node_linker = Some(s("isolated"));

    let manifest = read(found);
    assert_eq!(manifest.pruned_at, Some(s("Tue, 14 Nov 2023 22:13:20 GMT")));
}

#[test]
fn read_manifest_fills_virtual_store_dir_max_length_when_missing() {
    let mut found = modules_manifest();
    found.layout_version = Some(5);

    let manifest = read(found);
    assert_eq!(
        manifest.virtual_store_dir_max_length,
        Some(default_virtual_store_dir_max_length(false))
    );
}

#[test]
fn marks_are_numbers_or_dates() {
    assert_eq!(parse_number("12"), Some(12));
    assert_eq!(parse_number("+12"), Some(12));
    assert_eq!(parse_number(""), None);
    assert_eq!(parse_number("-1"), None);
    assert_eq!(parse_number("18446744073709551616"), None);
    assert_eq!(parse_number("18446744073709551615"), Some(u64::MAX));
    assert!(!cache_expired("1000", 2, 1119));
    assert!(cache_expired("1000", 2, 1120));
    assert!(!cache_expired("Tue, 14 Nov 2023 22:13:20 GMT", 1, NOW + 59));
    assert!(cache_expired("Tue, 14 Nov 2023 22:13:20 GMT", 1, NOW + 60));
    assert!(!cache_expired("2000", 1, 1000));
    assert!(cache_expired("yesterday", 1, 1000));
    assert!(!cache_expired("0", u64::MAX, 1_000_000));
}

#[test]
fn groups_are_told_apart() {
    let included = included_dependencies(&vec![DependencyGroup::Dev, DependencyGroup::Peer]);
    assert!(!included.dependencies);
    assert!(included.dev_dependencies);
    assert!(!included.optional_dependencies);
}

#[test]
fn the_virtual_store_is_written_relative_to_the_modules() {
    assert_eq!(relative_virtual_store_dir("/p/node_modules", "/p/node_modules/.pnpm", None), ".pnpm");
    assert_eq!(relative_virtual_store_dir("/p/node_modules", "/p/node_modules", None), ".");
    assert_eq!(relative_virtual_store_dir("/p/node_modules", "/ws/.pnpm", None), "/ws/.pnpm");
    assert_eq!(
        relative_virtual_store_dir("/p", "/p/.pnpm", Some(r"\\?\C:\p\.pnpm")),
        r"C:\p\.pnpm"
    );
}

#[test]
fn what_was_hoisted_is_found_again() {
    let entry = |name: &str, is_dir, resolves, scoped: &[(&str, bool)]| HoistDirEntry {
        name: s(name),
        is_dir,
        resolves,
        scoped: scoped.iter().map(|(name, resolves)| (s(name), *resolves)).collect(),
    };
    let entries = collect_hoist_dir_entries(&vec![
        entry(".bin", true, true, &[]),
        entry(".pnpm", true, true, &[]),
        entry(".ignored_foo", true, true, &[]),
        entry("@s", true, true, &[("a", true), ("b", false)]),
        entry("@file", false, true, &[]),
    ]);
    let listed: Vec<String> =
        entries.iter().map(|entry| format!("{} {}", entry.alias, entry.resolves)).collect();
    assert_eq!(listed, texts(&["foo true", "@s/a true", "@s/b false", "@file true"]));

    let packages = packages(vec![
        (path("foo", "1.0.0", ""), snapshot()),
        (path("@s/a", "2.0.0", ""), snapshot()),
        (path("@s/b", "2.0.0", ""), snapshot()),
    ]);
    let mut hoisted = TextMap::new();
    assert!(collect_hoisted_dependencies(
        &entries,
        &packages,
        &texts(&["foo"]),
        "private",
        &mut hoisted
    ));
    assert_eq!(keys(&hoisted), texts(&["@s/a@2.0.0"]));
    let aliases = hoisted.get_text("@s/a@2.0.0").expect("aliases");
    assert_eq!(aliases.get_text("@s/a"), Some(&s("private")));
    let mut none = TextMap::new();
    assert!(!collect_hoisted_dependencies(&vec![], &packages, &vec![], "private", &mut none));
}

#[test]
fn a_manifest_of_other_settings_does_not_fit() {
    let config = project_config();
    let groups = vec![DependencyGroup::Prod];
    let fits = |manifest: &ModulesManifest, config: &Npmrc, store: &str| {
        modules_manifest_is_compatible(manifest, config, store, &groups, false)
    };
    let manifest = write_plain(&config, &groups);
    assert!(fits(&manifest, &config, "/project/store/v10"));
    assert!(!fits(&manifest, &config, "/other/store/v10"));
    let mut other = project_config();
    other.public_hoist_pattern = texts(&["*"]);
    assert!(!fits(&manifest, &other, "/project/store/v10"));
    let mut other = project_config();
    other.node_linker = NodeLinker::Hoisted;
    assert!(!fits(&manifest, &other, "/project/store/v10"));
    assert!(!modules_manifest_is_compatible(
        &manifest,
        &config,
        "/project/store/v10",
        &vec![DependencyGroup::Dev],
        false
    ));
}

#[test]
fn the_first_answer_on_the_package_manager_stays() {
    let mut name = PackageManagerName::new();
    assert!(!name.is_known());
    assert_eq!(name.settle(Some("10.1.0"), "0.1.0"), "pnpm@10.1.0");
    assert!(name.is_known());
    assert_eq!(name.settle(None, "0.1.0"), "pnpm@10.1.0");
    assert_eq!(name.settle(Some("11.0.0"), "0.2.0"), "pnpm@10.1.0");
    let mut name = PackageManagerName::new();
    assert_eq!(name.settle(None, "0.1.0"), "pacquet@0.1.0");
    assert_eq!(name.settle(Some("10.1.0"), "0.1.0"), "pacquet@0.1.0");
    assert_eq!(pnpm_version_in(" 10.1.0\n"), Some("10.1.0"));
    assert_eq!(pnpm_version_in(" \n"), None);
}

#[test]
fn what_is_written_is_read_back_wherever_the_modules_lie() {
    let mut config = project_config();
    config.virtual_store_dir = s("/elsewhere/store/.pnpm/");
    for modules_dir in ["/elsewhere/store", "/elsewhere", "node_modules", ".", "", "/other"] {
        let written = build_modules_manifest(
            modules_dir,
            &config,
            &vec![DependencyGroup::Optional],
            skipped_packages(&texts(&["b@1.0.0", "a@1.0.0", "b@1.0.0"]), None, &vec![]),
            None,
            surroundings(registries("https://registry.npmjs.org/")),
        );
        let manifest = complete_modules_manifest(written, modules_dir, 0, false);
        assert_eq!(manifest.skipped, texts(&["a@1.0.0", "b@1.0.0"]));
        assert_eq!(manifest.layout_version, Some(5));
        let included = manifest.included.expect("included");
        assert!(!included.dependencies && included.optional_dependencies);
        let resolved = manifest.resolved_virtual_store_dir(modules_dir, false);
        assert!(is_same_path(
            &resolved,
            &config.virtual_store_dir,
            false,
        ), "{modules_dir}: {resolved}");
    }
}

#[test]
fn a_manifest_of_windows_reads_back() {
    let mut config = project_config();
    config.modules_dir = s(r"C:\project\node_modules");
    config.virtual_store_dir = s(r"C:\project\node_modules\.pnpm");
    let mut around = surroundings(registries("https://registry.npmjs.org/"));
    around.place_on_windows = Some(s(r"\\?\C:\project\node_modules\.pnpm"));
    let store_dir = around.store_dir.clone();
    let groups = vec![DependencyGroup::Prod];
    let manifest = write_manifest(&config, &groups, &[], None, &[], around);
    let complete = complete_modules_manifest(manifest, &config.modules_dir, 100, true);
    assert_eq!(
        complete.resolved_virtual_store_dir(&config.modules_dir, true),
        r"C:\project\node_modules\.pnpm"
    );
    assert!(modules_manifest_is_compatible(&complete, &config, &store_dir, &groups, true));
    config.virtual_store_dir = s(r"D:\elsewhere\.pnpm");
    assert!(!modules_manifest_is_compatible(&complete, &config, &store_dir, &groups, true));
}

#[test]
fn a_mark_that_is_filled_in_stands_for_the_second() {
    let complete = complete_modules_manifest(modules_manifest(), "/ws/node_modules", 60, false);
    assert_eq!(complete.pruned_at.as_deref(), Some("Thu, 01 Jan 1970 00:01:00 GMT"));
    assert!(!should_prune_orphaned_virtual_store_entries(Some(&complete), 1, 119));
    assert!(should_prune_orphaned_virtual_store_entries(Some(&complete), 1, 120));
}

#[test]
fn without_an_age_the_mark_is_not_read() {
    let mut manifest = modules_manifest();
    manifest.pruned_at = Some(s("18446744073709551615"));
    assert!(should_prune_orphaned_virtual_store_entries(Some(&manifest), 0, 5));
}
