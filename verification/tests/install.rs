use pacquet_package_manager::config::{
    LinkWorkspacePackages, NodeLinker, Npmrc, PackageImportMethod, SaveWorkspaceProtocol,
};
use pacquet_package_manager::current_lockfile::{
    current_lockfile_for_installers,
    current_lockfile_for_installers_preserving_unselected_importers,
};
use pacquet_package_manager::install::{
    FinishingStep, InstallCase, InstallOptions, InstallStart, InstallWay, LastInstallation,
    TargetPackages, direct_dependency_names, direct_root_dependencies_ready,
    direct_workspace_links_match_current_config, examine_frozen_importer, examine_lockfile,
    expected_current_lockfile, expected_workspace_dependency_for_install,
    filter_installable_workspace_targets, find_install_way, finishing_steps, install_refusal,
    install_start, manifest_has_local_directory_dependency, persisted_install_state_is_reusable,
    persisted_state_fits, recorded_project, should_prefer_frozen_lockfile_path,
    should_print_summary, snapshot_for_importer, workspace_needs_virtual_store,
};
use pacquet_package_manager::install_frozen_lockfile::readiness_probes;
use pacquet_package_manager::json::Json;
use pacquet_package_manager::lockfile::{
    DependencyGroup, DependencyPath, Lockfile, LockfileResolution, PackageMap, PackageSnapshot,
    PkgNameVerPeer, PkgVerPeer, ProjectSnapshot, ResolvedDependencyMap, ResolvedDependencySpec,
    ResolvedDependencyVersion, RootProjectSnapshot,
};
use pacquet_package_manager::lockfile_check::{
    RuntimeLockfileConfig, collect_runtime_lockfile_config,
};
use pacquet_package_manager::modules_manifest::{
    ModulesManifest, Surroundings, build_modules_manifest, complete_modules_manifest,
    modules_manifest_is_compatible, should_remove_entry,
};
use pacquet_package_manager::pnpmfile::dependencies_from_manifest_value;
use pacquet_package_manager::progress_reporter::InstallReporter;
use pacquet_package_manager::semver::Version;
use pacquet_package_manager::table::TextMap;
use pacquet_package_manager::value::Value;
use pacquet_package_manager::workspace::{WorkspaceAnswers, WorkspaceQuery, workspace_query};

fn s(text: &str) -> String {
    text.to_string()
}

fn texts(list: &[&str]) -> Vec<String> {
    list.iter().map(|text| text.to_string()).collect()
}

fn map(entries: &[(&str, &str)]) -> TextMap<String> {
    let mut map = TextMap::new();
    for (key, value) in entries {
        map.insert(key.to_string(), value.to_string());
    }
    map
}

fn obj(fields: Vec<(&str, Json)>) -> Json {
    Json::Object(fields.into_iter().map(|(name, value)| (name.to_string(), value)).collect())
}

fn txt(text: &str) -> Json {
    Json::Text(text.to_string())
}

fn text_obj(fields: &[(&str, &str)]) -> Json {
    Json::Object(
        fields.iter().map(|(name, text)| (name.to_string(), Json::Text(text.to_string()))).collect(),
    )
}

fn ver(text: &str) -> Version {
    Version::parse(text).expect("a version")
}

fn suffix(name: &str, version: &str, peer: &str) -> PkgVerPeer {
    let store_name = format!("{name}@{version}{peer}");
    PkgVerPeer {
        version: ver(version),
        peer: peer.to_string(),
        store_name: store_name.replace('/', "+").replace('(', "_").replace(')', ""),
    }
}

fn package(name: &str, version: &str, peer: &str) -> PkgNameVerPeer {
    PkgNameVerPeer { name: name.to_string(), suffix: suffix(name, version, peer) }
}

fn path(name: &str, version: &str, peer: &str) -> DependencyPath {
    DependencyPath::registry(None, package(name, version, peer))
}

fn snapshot() -> PackageSnapshot {
    PackageSnapshot {
        resolution: LockfileResolution::Tarball {
            tarball: "file:dummy.tgz".to_string(),
            integrity: None,
        },
        id: None,
        name: None,
        version: None,
        engines: None,
        cpu: None,
        os: None,
        libc: None,
        deprecated: None,
        has_bin: None,
        prepare: None,
        requires_build: None,
        bundled_dependencies: None,
        peer_dependencies: None,
        peer_dependencies_meta: None,
        dependencies: None,
        optional_dependencies: None,
        transitive_peer_dependencies: None,
        dev: None,
        optional: None,
    }
}

fn packages(entries: Vec<(DependencyPath, PackageSnapshot)>) -> PackageMap {
    let mut packages = PackageMap::new();
    for (path, snapshot) in entries {
        packages.insert(path, snapshot);
    }
    packages
}

fn spec(specifier: &str, version: ResolvedDependencyVersion) -> ResolvedDependencySpec {
    ResolvedDependencySpec { specifier: specifier.to_string(), version }
}

fn plain(name: &str, version: &str, peer: &str) -> ResolvedDependencyVersion {
    ResolvedDependencyVersion::PkgVerPeer(suffix(name, version, peer))
}

fn alias(name: &str, version: &str, peer: &str) -> ResolvedDependencyVersion {
    ResolvedDependencyVersion::PkgNameVerPeer(package(name, version, peer))
}

fn link(target: &str) -> ResolvedDependencyVersion {
    ResolvedDependencyVersion::Link(target.to_string())
}

fn specs(entries: Vec<(&str, ResolvedDependencySpec)>) -> ResolvedDependencyMap {
    let mut specs = ResolvedDependencyMap::new();
    for (name, spec) in entries {
        specs.insert(name.to_string(), spec);
    }
    specs
}

fn project(dependencies: Vec<(&str, ResolvedDependencySpec)>) -> ProjectSnapshot {
    let mut project = ProjectSnapshot::empty();
    project.dependencies = Some(specs(dependencies));
    project
}

fn importers(entries: Vec<(&str, ProjectSnapshot)>) -> RootProjectSnapshot {
    let mut importers = TextMap::new();
    for (id, project) in entries {
        importers.insert(id.to_string(), project);
    }
    RootProjectSnapshot::Multi(importers)
}

fn lockfile(project_snapshot: RootProjectSnapshot, packages: Option<PackageMap>) -> Lockfile {
    Lockfile {
        lockfile_version: (9, 0),
        settings: None,
        never_built_dependencies: None,
        ignored_optional_dependencies: None,
        overrides: None,
        package_extensions_checksum: None,
        patched_dependencies: None,
        pnpmfile_checksum: None,
        catalogs: None,
        time: None,
        extra_fields: TextMap::new(),
        project_snapshot,
        packages,
    }
}

fn config() -> Npmrc {
    Npmrc {
        modules_dir: "node_modules".to_string(),
        virtual_store_dir: "node_modules/.pnpm".to_string(),
        store_dir: "/store".to_string(),
        node_linker: NodeLinker::Isolated,
        package_import_method: PackageImportMethod::Auto,
        link_workspace_packages: LinkWorkspacePackages::False,
        save_workspace_protocol: SaveWorkspaceProtocol::Rolling,
        hoist: true,
        hoist_pattern: vec!["*".to_string()],
        public_hoist_pattern: Vec::new(),
        shamefully_hoist: false,
        symlink: true,
        prefer_symlinked_executables: None,
        disable_relink_local_dir_deps: false,
        lockfile: true,
        prefer_frozen_lockfile: true,
        lockfile_include_tarball_url: false,
        auto_install_peers: true,
        exclude_links_from_lockfile: false,
        peers_suffix_max_length: 1000,
        inject_workspace_packages: false,
        dedupe_injected_deps: true,
        dedupe_peer_dependents: true,
        resolve_peers_from_workspace_root: true,
        strict_peer_dependencies: false,
        modules_cache_max_age: 10080,
    }
}

const NOW: u64 = 1_700_000_000;
const STORE: &str = "/ws/store/v10";

fn project_config() -> Npmrc {
    let mut config = config();
    config.modules_dir = s("/ws/node_modules");
    config.virtual_store_dir = s("/ws/node_modules/.pnpm");
    config
}

fn prod() -> Vec<DependencyGroup> {
    vec![DependencyGroup::Prod]
}

/// What the last installation left in `node_modules` about itself.
fn last_manifest(config: &Npmrc, registries: TextMap<String>) -> ModulesManifest {
    let left = build_modules_manifest(
        &config.modules_dir,
        config,
        &prod(),
        Vec::new(),
        None,
        Surroundings {
            package_manager: s("pacquet@0.0.1"),
            registries,
            store_dir: s(STORE),
            now: NOW,
            place_on_windows: None,
        },
    );
    complete_modules_manifest(left, &config.modules_dir, NOW, false)
}

fn is_compatible(manifest: &ModulesManifest, config: &Npmrc) -> bool {
    modules_manifest_is_compatible(manifest, config, STORE, &prod(), false)
}

fn dep_package() -> PackageMap {
    let mut snapshot = snapshot();
    snapshot.resolution = LockfileResolution::Registry { integrity: s("sha512-Bw==") };
    snapshot.optional = Some(false);
    packages(vec![(path("dep", "1.0.0", ""), snapshot)])
}

fn dep_project() -> ProjectSnapshot {
    project(vec![("dep", spec("^1.0.0", plain("dep", "1.0.0", "")))])
}

fn lockfile_with_dependency() -> Lockfile {
    lockfile(importers(vec![(".", dep_project())]), Some(dep_package()))
}

fn last_installation(config: &Npmrc, current: Option<Lockfile>) -> LastInstallation {
    LastInstallation {
        modules_manifest: Some(last_manifest(config, map(&[]))),
        current_lockfile: current,
        store_dir: s(STORE),
        on_windows: false,
    }
}

#[test]
fn manifest_has_local_directory_dependency_ignores_registry_and_tarball_specs() {
    let manifest = obj(vec![
        ("name", txt("app")),
        ("version", txt("1.0.0")),
        (
            "dependencies",
            text_obj(&[
                ("registry-dep", "1.0.0"),
                ("tarball-dep", "file:../pkg.tgz"),
                ("local-dir-dep", "file:../pkg"),
            ]),
        ),
    ]);

    assert!(manifest_has_local_directory_dependency(&manifest, &prod()));
}

#[test]
fn manifest_has_local_directory_dependency_returns_false_without_file_directory_specs() {
    let manifest = obj(vec![
        ("name", txt("app")),
        ("version", txt("1.0.0")),
        (
            "dependencies",
            text_obj(&[
                ("registry-dep", "1.0.0"),
                ("linked-dep", "link:../pkg"),
                ("tarball-dep", "file:../pkg.tgz"),
            ]),
        ),
    ]);

    assert!(!manifest_has_local_directory_dependency(&manifest, &prod()));
}

#[test]
fn should_prefer_frozen_lockfile_path_allows_linked_dependencies() {
    assert!(should_prefer_frozen_lockfile_path(true, true, false));
}

#[test]
fn should_prefer_frozen_lockfile_path_disables_headless_for_local_file_directories() {
    assert!(!should_prefer_frozen_lockfile_path(true, true, true));
}

#[test]
fn recreate_modules_dir_if_incompatible_removes_pnpm_managed_entries() {
    let mut config = project_config();
    let manifest = last_manifest(&config, map(&[]));

    config.node_linker = NodeLinker::Hoisted;
    assert!(!is_compatible(&manifest, &config));

    let removed = |name: &str| {
        should_remove_entry(
            name,
            &format!("/ws/node_modules/{name}"),
            &config.virtual_store_dir,
            false,
        )
    };
    assert!(!removed(".keep"));
    assert!(removed(".modules.yaml"));
    assert!(removed("dep"));
    assert!(removed(".pnpm"));
}

#[test]
fn recreate_modules_dir_if_incompatible_keeps_compatible_layout() {
    let config = project_config();
    assert!(is_compatible(&last_manifest(&config, map(&[])), &config));
}

#[test]
fn recreate_modules_dir_if_incompatible_when_hoist_pattern_changes() {
    let mut config = project_config();
    config.hoist_pattern = texts(&["*eslint*"]);
    let manifest = last_manifest(&config, map(&[]));

    config.hoist_pattern = texts(&["*babel*"]);
    assert!(!is_compatible(&manifest, &config));
    assert!(should_remove_entry("dep", "/ws/node_modules/dep", &config.virtual_store_dir, false));
    assert!(should_remove_entry(
        ".pnpm",
        "/ws/node_modules/.pnpm",
        &config.virtual_store_dir,
        false,
    ));
}

#[test]
fn recreate_modules_dir_if_incompatible_when_registry_config_changes() {
    let config = project_config();
    let manifest = last_manifest(
        &config,
        map(&[("default", "https://default.example/"), ("@foo", "https://foo.example/")]),
    );
    assert!(is_compatible(&manifest, &config));
}

#[test]
fn recreate_modules_dir_if_incompatible_when_virtual_store_dir_max_length_changes() {
    let config = project_config();
    let mut manifest = last_manifest(&config, map(&[]));
    manifest.virtual_store_dir_max_length = Some(64);
    assert!(!is_compatible(&manifest, &config));
}

#[test]
fn persisted_install_state_is_reusable_when_modules_manifest_and_current_lockfile_match() {
    let config = project_config();
    let lockfile = lockfile_with_dependency();
    let current =
        current_lockfile_for_installers(&lockfile, &texts(&["."]), &prod(), &vec![]);
    let present = texts(&[
        "/ws/node_modules/.pnpm",
        "/ws/node_modules/dep",
        "/ws/node_modules/.pnpm/dep@1.0.0/node_modules/dep",
    ]);

    assert!(persisted_install_state_is_reusable(
        &lockfile,
        &config,
        ".",
        &prod(),
        &last_installation(&config, Some(current)),
        &present,
    ));
}

#[test]
fn filter_installable_workspace_targets_unions_importer_packages() {
    let target = |importer_id: &str, name: &str| {
        let mut snapshot = snapshot();
        snapshot.resolution = LockfileResolution::Registry { integrity: s("sha512-Bw==") };
        TargetPackages {
            importer_id: s(importer_id),
            project_snapshot: project(vec![(name, spec("1.0.0", plain(name, "1.0.0", "")))]),
            packages: Some(packages(vec![(path(name, "1.0.0", ""), snapshot)])),
            skipped: Vec::new(),
        }
    };

    let (filtered_targets, filtered_packages, skipped) = filter_installable_workspace_targets(
        true,
        vec![target(".", "is-positive"), target("packages/app", "is-negative")],
    );

    assert_eq!(
        filtered_targets.iter().map(|target| target.importer_id.as_str()).collect::<Vec<_>>(),
        vec![".", "packages/app"]
    );
    assert!(skipped.is_empty());
    let filtered_packages = filtered_packages.expect("filtered packages");
    assert_eq!(filtered_packages.len(), 2);
}

#[test]
fn direct_workspace_links_match_current_config_requires_relink_for_registry_and_alias_specs() {
    let manifest = obj(vec![(
        "dependencies",
        text_obj(&[("is-positive", "2.0.0"), ("negative", "npm:is-negative@1.0.0")]),
    )]);
    let mut config = config();
    config.link_workspace_packages = LinkWorkspacePackages::Direct;

    let packages = [
        ("is-positive", "2.0.0", "/workspace/is-positive"),
        ("is-negative", "1.0.0", "/workspace/is-negative"),
    ];
    let mut root_dirs = Vec::new();
    for (name, specifier) in dependencies_from_manifest_value(&manifest, &prod()) {
        let by_plain_spec = match workspace_query(&config, &name, &specifier, 0) {
            WorkspaceQuery::ByPlainSpec { name, specifier } => packages
                .iter()
                .position(|package| package.0 == name && package.1 == specifier),
            _ => None,
        };
        let answers = WorkspaceAnswers {
            by_path: None,
            by_protocol: Err(String::new()),
            by_plain_spec,
        };
        let found = expected_workspace_dependency_for_install(&config, &specifier, 0, &answers);
        root_dirs.push(found.map(|i| s(packages[i].2)));
    }
    assert_eq!(
        root_dirs,
        vec![Some(s("/workspace/is-positive")), Some(s("/workspace/is-negative"))]
    );

    let matches = |snapshot: &ProjectSnapshot| {
        direct_workspace_links_match_current_config(
            "/workspace/project/package.json",
            &manifest,
            snapshot,
            &prod(),
            &root_dirs,
            false,
        )
    };
    let registry_snapshot = project(vec![
        ("is-positive", spec("2.0.0", plain("is-positive", "2.0.0", ""))),
        ("negative", spec("npm:is-negative@1.0.0", alias("is-negative", "1.0.0", ""))),
    ]);
    assert!(!matches(&registry_snapshot));

    let linked_snapshot = project(vec![
        ("is-positive", spec("2.0.0", link("link:../is-positive"))),
        ("negative", spec("npm:is-negative@1.0.0", link("link:../is-negative"))),
    ]);
    assert!(matches(&linked_snapshot));
}

#[test]
fn persisted_install_state_is_reusable_when_current_lockfile_contains_extra_importers() {
    let mut config = config();
    config.modules_dir = s("/ws/packages/app/node_modules");
    config.virtual_store_dir = s("/ws/node_modules/.pnpm");

    let lockfile = lockfile(
        importers(vec![
            ("packages/app", dep_project()),
            ("packages/other", ProjectSnapshot::empty()),
        ]),
        Some(dep_package()),
    );
    let mut current =
        current_lockfile_for_installers(&lockfile, &texts(&["packages/app"]), &prod(), &vec![]);
    if let RootProjectSnapshot::Multi(importers) = &mut current.project_snapshot {
        importers.insert(s("packages/other"), ProjectSnapshot::empty());
    }
    let present = texts(&[
        "/ws/node_modules/.pnpm",
        "/ws/packages/app/node_modules/dep",
        "/ws/node_modules/.pnpm/dep@1.0.0/node_modules/dep",
    ]);

    assert!(persisted_install_state_is_reusable(
        &lockfile,
        &config,
        "packages/app",
        &prod(),
        &last_installation(&config, Some(current)),
        &present,
    ));
}

#[test]
fn persisted_install_state_is_not_reusable_when_virtual_store_package_is_missing() {
    let config = project_config();
    let lockfile = lockfile_with_dependency();
    let current =
        current_lockfile_for_installers(&lockfile, &texts(&["."]), &prod(), &vec![]);

    assert!(!persisted_install_state_is_reusable(
        &lockfile,
        &config,
        ".",
        &prod(),
        &last_installation(&config, Some(current)),
        &texts(&["/ws/node_modules/.pnpm", "/ws/node_modules/dep"]),
    ));
}

#[test]
fn persisted_install_state_is_not_reusable_when_current_lockfile_differs() {
    let config = project_config();
    let mut current = lockfile_with_dependency();
    current.packages = Some(packages(vec![]));

    assert!(!persisted_install_state_is_reusable(
        &lockfile_with_dependency(),
        &config,
        ".",
        &prod(),
        &last_installation(&config, Some(current)),
        &texts(&["/ws/node_modules/.pnpm"]),
    ));
}

#[test]
fn persisted_install_state_is_not_reusable_when_current_lockfile_is_missing() {
    let config = project_config();
    let last = LastInstallation {
        modules_manifest: None,
        current_lockfile: None,
        store_dir: s(STORE),
        on_windows: false,
    };

    assert!(!persisted_install_state_is_reusable(
        &lockfile_with_dependency(),
        &config,
        ".",
        &prod(),
        &last,
        &texts(&[]),
    ));
}

fn runtime() -> RuntimeLockfileConfig {
    collect_runtime_lockfile_config(&config(), None, None, None)
}

fn dep_manifest(range: &str) -> Json {
    obj(vec![("dependencies", text_obj(&[("dep", range)]))])
}

fn frozen_lockfile() -> Lockfile {
    let mut lockfile = lockfile_with_dependency();
    if let RootProjectSnapshot::Multi(importers) = &mut lockfile.project_snapshot {
        let mut project = dep_project();
        project.specifiers = Some(map(&[("dep", "^1.0.0")]));
        importers.insert(s("."), project);
    }
    lockfile
}

struct Case {
    config: Npmrc,
    lockfile: Option<Lockfile>,
    options: InstallOptions,
    manifest: Json,
    state_is_reusable: bool,
}

fn options() -> InstallOptions {
    InstallOptions { frozen_lockfile: false, lockfile_only: false, force: false }
}

fn case() -> Case {
    Case {
        config: project_config(),
        lockfile: Some(frozen_lockfile()),
        options: options(),
        manifest: dep_manifest("^1.0.0"),
        state_is_reusable: false,
    }
}

fn way(case: &Case) -> InstallWay {
    found_way(case).expect("a way")
}

fn found_way(case: &Case) -> Option<InstallWay> {
    let root_config: Result<(), String> = Ok(());
    find_install_way(&InstallCase {
        config: &case.config,
        options: case.options,
        lockfile: case.lockfile.as_ref(),
        importer_id: ".",
        runtime: &runtime(),
        manifest: &case.manifest,
        manifest_path: "/ws/package.json",
        dependency_groups: &prod(),
        links_match: true,
        root_config: &root_config,
        state_is_reusable: case.state_is_reusable,
    })
}

#[test]
fn a_lockfile_that_fits_is_installed() {
    assert!(matches!(way(&case()), InstallWay::Frozen));
    assert!(matches!(way(&Case { state_is_reusable: true, ..case() }), InstallWay::Nothing));
    let mut without = project_config();
    without.lockfile = false;
    assert!(matches!(way(&Case { config: without, ..case() }), InstallWay::WithoutLockfile));
    assert!(matches!(way(&Case { lockfile: None, ..case() }), InstallWay::WithLockfile));
    assert!(matches!(
        way(&Case { manifest: dep_manifest("^2.0.0"), ..case() }),
        InstallWay::WithLockfile
    ));
}

#[test]
fn a_frozen_lockfile_is_not_written() {
    let frozen = InstallOptions { frozen_lockfile: true, ..options() };
    assert!(matches!(way(&Case { options: frozen, ..case() }), InstallWay::Frozen));
    assert!(matches!(way(&Case { options: frozen, lockfile: None, ..case() }),
        InstallWay::Refused { message } if message
            == "Cannot install with --frozen-lockfile because pnpm-lock.yaml was not found"));
    assert!(matches!(way(&Case { options: frozen, manifest: dep_manifest("^2.0.0"), ..case() }),
        InstallWay::Refused { message } if message
            == "Cannot install with --frozen-lockfile because pnpm-lock.yaml is not up to date with /ws/package.json (specifiers in the lockfile don't match specifiers in package.json)"));
    let mut elsewhere = lockfile(importers(vec![]), None);
    elsewhere.overrides = None;
    assert!(matches!(way(&Case { options: frozen, lockfile: Some(elsewhere), ..case() }),
        InstallWay::Refused { message } if message == "Cannot find importer `.` in pnpm-lock.yaml"));
    let mut outdated = frozen_lockfile();
    outdated.pnpmfile_checksum = Some(s("sum"));
    assert!(matches!(way(&Case { options: frozen, lockfile: Some(outdated), ..case() }),
        InstallWay::Refused { message } if message
            == "Cannot proceed with the frozen installation. The current \"pnpmfileChecksum\" configuration doesn't match the value found in the lockfile"));
}

#[test]
fn force_installs_what_is_there() {
    let force = InstallOptions { force: true, ..options() };
    assert!(matches!(
        way(&Case { options: force, state_is_reusable: true, ..case() }),
        InstallWay::Frozen
    ));
}

#[test]
fn with_a_lockfile_only_nothing_is_installed() {
    let only = InstallOptions { lockfile_only: true, ..options() };
    assert!(matches!(way(&Case { options: only, ..case() }), InstallWay::Nothing));
    assert_eq!(finishing_steps(&config(), true), Vec::new());
}

#[test]
fn an_installation_may_have_nothing_to_do() {
    let mut config = project_config();
    assert!(matches!(install_start(&config, options(), true, false, true), InstallStart::UpToDate));
    assert!(matches!(install_start(&config, options(), true, false, false), InstallStart::GoOn));
    assert!(matches!(install_start(&config, options(), true, true, true), InstallStart::GoOn));
    let force = InstallOptions { force: true, ..options() };
    assert!(matches!(install_start(&config, force, true, false, true), InstallStart::GoOn));
    config.lockfile = false;
    let only = InstallOptions { lockfile_only: true, ..options() };
    assert!(matches!(install_start(&config, only, true, false, true),
        InstallStart::Refused { message } if message
            == "Cannot generate a pnpm-lock.yaml because lockfile is set to false"));
}

#[test]
fn an_installation_is_finished_step_by_step() {
    let mut config = config();
    assert_eq!(
        finishing_steps(&config, false),
        vec![
            FinishingStep::Hoist,
            FinishingStep::LinkBins,
            FinishingStep::WriteModulesManifest,
            FinishingStep::WritePnpManifest,
        ]
    );
    config.strict_peer_dependencies = true;
    assert!(finishing_steps(&config, false).contains(&FinishingStep::ValidatePeers));
    assert!(should_print_summary(true, true, InstallReporter::Default));
    assert!(!should_print_summary(false, true, InstallReporter::Default));
    assert!(!should_print_summary(true, false, InstallReporter::Default));
    assert!(!should_print_summary(true, true, InstallReporter::Silent));
    assert_eq!(direct_dependency_names(&dep_manifest("1.0.0"), &prod()), texts(&["dep"]));
}

#[test]
fn an_installation_that_is_repeated_has_nothing_to_do() {
    let config = project_config();
    let lockfile = lockfile_with_dependency();
    let kept = current_lockfile_for_installers_preserving_unselected_importers(
        &lockfile, None, &vec![], &texts(&["."]), &prod(), &vec![],
    );
    let mut present = readiness_probes(
        &config,
        &dep_project(),
        lockfile.packages.as_ref(),
        &prod(),
        false,
    );
    present.push(config.virtual_store_dir.clone());
    assert!(persisted_install_state_is_reusable(
        &lockfile, &config, ".", &prod(), &last_installation(&config, Some(kept)), &present,
    ));
}

#[test]
fn the_importers_of_a_lockfile_are_found() {
    let single = RootProjectSnapshot::Single(dep_project());
    assert!(snapshot_for_importer(&single, ".").is_some());
    assert!(snapshot_for_importer(&single, "packages/a").is_none());
    assert!(recorded_project(&single, "packages/a").is_some());
    let multi = importers(vec![("packages/a", dep_project())]);
    assert!(recorded_project(&multi, "packages/a").is_some());
    assert!(recorded_project(&multi, ".").is_none());
}

#[test]
fn a_workspace_is_filled_where_something_is_missing() {
    let config = project_config();
    let packages = dep_package();
    let present = texts(&[
        "/ws/node_modules/.pnpm",
        "/ws/node_modules/dep",
        "/ws/node_modules/.pnpm/dep@1.0.0/node_modules/dep",
    ]);
    let needs = |force, present: &Vec<String>| {
        workspace_needs_virtual_store(
            force, &config, &vec![dep_project()], Some(&packages), &prod(), present,
            false,
        )
    };
    assert!(!needs(false, &present));
    assert!(needs(true, &present));
    assert!(needs(false, &texts(&["/ws/node_modules/.pnpm"])));
    assert!(direct_root_dependencies_ready(
        &config,
        &dep_project(),
        Some(&packages),
        &prod(),
        &present,
        false,
    ));
    assert!(!direct_root_dependencies_ready(
        &config,
        &dep_project(),
        Some(&packages),
        &prod(),
        &vec![],
        false,
    ));
    let expected = expected_current_lockfile(
        &lockfile_with_dependency(), ".", &prod(), &last_manifest(&config, map(&[])),
    );
    assert!(persisted_state_fits(&expected, &config, ".", &prod(), &expected, &present, false));
}

#[test]
fn a_lockfile_that_may_not_be_written_is_refused_at_once() {
    let options = |lockfile_only: bool| InstallOptions {
        frozen_lockfile: false,
        lockfile_only,
        force: false,
    };
    let mut config = config();
    assert_eq!(install_refusal(&config, options(true)), None);
    config.lockfile = false;
    assert_eq!(install_refusal(&config, options(false)), None);
    assert_eq!(
        install_refusal(&config, options(true)),
        Some(s("Cannot generate a pnpm-lock.yaml because lockfile is set to false"))
    );
}

#[test]
fn packages_of_several_importers_keep_their_directories() {
    let target = |version: &str| TargetPackages {
        importer_id: s("."),
        project_snapshot: ProjectSnapshot::empty(),
        packages: Some(packages(vec![(path("a", version, ""), snapshot())])),
        skipped: vec![],
    };
    let (_, kept, _) = filter_installable_workspace_targets(
        true,
        vec![target("1.0.0+x"), target("1.0.0+y"), target("2.0.0")],
    );
    let kept = kept.expect("packages");
    let names: Vec<&str> = (0..kept.len())
        .map(|i| kept.key_at(i).package_specifier.to_virtual_store_name())
        .collect();
    assert_eq!(names, ["a@1.0.0+x", "a@2.0.0"]);
}

#[test]
fn a_lockfile_that_cannot_be_read_shows_no_way() {
    let mut project = project(vec![("x", spec("~x", plain("x", "1.0.0", "")))]);
    project.specifiers = Some(map(&[("x", "~x")]));
    let manifest = obj(vec![("dependencies", text_obj(&[("x", "~x")]))]);
    let ok: Result<(), String> = Ok(());
    let unread = lockfile(RootProjectSnapshot::Single(Value::duplicate(&project)), None);
    let read = lockfile(RootProjectSnapshot::Single(ProjectSnapshot::empty()), None);
    let config = config();
    assert_eq!(examine_lockfile(&unread, ".", &config, &runtime(), &manifest, true, &ok), None);
    assert_eq!(
        examine_lockfile(&read, ".", &config, &runtime(), &manifest, true, &ok),
        Some(false)
    );
    assert!(examine_frozen_importer(
        &unread, &project, &config, &runtime(), &manifest, "/ws/package.json", &ok,
    )
    .is_none());
    let refused = examine_frozen_importer(
        &read, &ProjectSnapshot::empty(), &config, &runtime(), &manifest, "/ws/package.json", &ok,
    )
    .expect("an answer");
    assert!(refused.expect_err("a refusal").contains("/ws/package.json"));
}
