use pacquet_package_manager::config::{
    LinkWorkspacePackages, NodeLinker, Npmrc, PackageImportMethod, SaveWorkspaceProtocol,
};
use pacquet_package_manager::installability::Machine;
use pacquet_package_manager::lockfile::{
    DependencyPath, LockfileResolution, PackageSnapshot, PkgNameVerPeer, PkgVerPeer,
};
use pacquet_package_manager::package_import::{
    ImportAction, ImportFacts, NoTarball, VersionSource, cas_paths_from_index, import_actions,
    import_paths, is_executable_mode, needs_fetch, needs_fresh_metadata, package_arrival,
    representative_file_name, representative_path, save_path, snapshot_package_id,
    tarball_is_missing, tarball_of_snapshot, version_source,
};
use pacquet_package_manager::registry::PackageVersion;
use pacquet_package_manager::semver::Version;
use pacquet_package_manager::table::TextMap;

fn s(text: &str) -> String {
    text.to_string()
}

fn texts(list: &[&str]) -> Vec<String> {
    list.iter().map(|text| text.to_string()).collect()
}

fn ver(text: &str) -> Version {
    Version::parse(text).expect("a version")
}

fn suffix(name: &str, version: &str, peer: &str) -> PkgVerPeer {
    let store_name = format!("{name}@{version}{peer}");
    PkgVerPeer {
        version: ver(version),
        peer: peer.to_string(),
        store_name: store_name.replace('/', "+").replace('(', "_").replace(')', ""),
    }
}

fn package(name: &str, version: &str, peer: &str) -> PkgNameVerPeer {
    PkgNameVerPeer { name: name.to_string(), suffix: suffix(name, version, peer) }
}

fn path(name: &str, version: &str, peer: &str) -> DependencyPath {
    DependencyPath::registry(None, package(name, version, peer))
}

fn local_path(name: &str, reference: &str) -> DependencyPath {
    let store_name = format!("{name}@{reference}").replace([':', '/'], "+");
    DependencyPath::local_file(name.to_string(), reference.to_string(), store_name)
}

fn snapshot() -> PackageSnapshot {
    PackageSnapshot {
        resolution: LockfileResolution::Tarball {
            tarball: "file:dummy.tgz".to_string(),
            integrity: None,
        },
        id: None,
        name: None,
        version: None,
        engines: None,
        cpu: None,
        os: None,
        libc: None,
        deprecated: None,
        has_bin: None,
        prepare: None,
        requires_build: None,
        bundled_dependencies: None,
        peer_dependencies: None,
        peer_dependencies_meta: None,
        dependencies: None,
        optional_dependencies: None,
        transitive_peer_dependencies: None,
        dev: None,
        optional: None,
    }
}

fn config() -> Npmrc {
    Npmrc {
        modules_dir: "node_modules".to_string(),
        virtual_store_dir: "node_modules/.pnpm".to_string(),
        store_dir: "/store".to_string(),
        node_linker: NodeLinker::Isolated,
        package_import_method: PackageImportMethod::Auto,
        link_workspace_packages: LinkWorkspacePackages::False,
        save_workspace_protocol: SaveWorkspaceProtocol::Rolling,
        hoist: true,
        hoist_pattern: vec!["*".to_string()],
        public_hoist_pattern: Vec::new(),
        shamefully_hoist: false,
        symlink: true,
        prefer_symlinked_executables: None,
        disable_relink_local_dir_deps: false,
        lockfile: true,
        prefer_frozen_lockfile: true,
        lockfile_include_tarball_url: false,
        auto_install_peers: true,
        exclude_links_from_lockfile: false,
        peers_suffix_max_length: 1000,
        inject_workspace_packages: false,
        dedupe_injected_deps: true,
        dedupe_peer_dependents: true,
        resolve_peers_from_workspace_root: true,
        strict_peer_dependencies: false,
        modules_cache_max_age: 10080,
    }
}

fn release(name: &str, version: &str) -> PackageVersion {
    PackageVersion {
        name: name.to_string(),
        version: ver(version),
        tarball: String::new(),
        integrity: None,
        virtual_store_name: format!("{name}@{version}").replace('/', "+"),
        regular_dependencies: TextMap::new(),
        optional_dependencies: TextMap::new(),
        peer_dependencies: None,
        optional_peers: Vec::new(),
        engines: None,
        cpu: None,
        os: None,
        libc: None,
        deprecated: None,
        has_bin: false,
    }
}

fn machine() -> Machine {
    Machine {
        os: "linux".to_string(),
        cpu: "x64".to_string(),
        libc: "glibc".to_string(),
        node: Version::parse("20.11.0"),
    }
}

#[test]
fn representative_prefers_package_json() {
    let files = texts(&["index.js", "package.json", "README.md"]);
    assert_eq!(representative_file_name(&files), Some("package.json"));
}

#[test]
fn representative_falls_back_to_lexicographically_smallest() {
    let files = texts(&["z.js", "a.js", "m.js"]);
    assert_eq!(representative_file_name(&files), Some("a.js"));
}

#[test]
fn cas_paths_from_index_resolves_existing_store_files() {
    let files = vec![(s("package.json"), Some(s("/store/files/9f/86d081")))];
    let cas_paths = cas_paths_from_index(&files).expect("resolve cas paths");
    assert_eq!(cas_paths.get_text("package.json"), Some(&s("/store/files/9f/86d081")));
}

fn facts() -> ImportFacts {
    ImportFacts {
        force: false,
        has_patch: false,
        exists: false,
        has_manifest: false,
        is_indexed: false,
        is_imported: false,
        store_is_complete: false,
    }
}

#[test]
fn should_import_package_from_shared_store_without_downloading() {
    let actions = import_actions(
        &config(),
        ImportFacts { is_indexed: true, store_is_complete: true, ..facts() },
    );
    assert_eq!(
        actions,
        vec![
            ImportAction::CountReused,
            ImportAction::ImportFiles,
            ImportAction::Link,
            ImportAction::CountAdded,
        ]
    );
}

#[test]
fn a_package_that_is_nowhere_is_downloaded() {
    assert_eq!(
        import_actions(&config(), facts()),
        vec![
            ImportAction::Download,
            ImportAction::CountDownloaded,
            ImportAction::ImportFiles,
            ImportAction::ApplyPatch,
            ImportAction::Link,
            ImportAction::CountAdded,
        ]
    );
}

#[test]
fn a_package_that_is_there_is_spared() {
    let mut config = config();
    config.symlink = false;
    assert_eq!(import_actions(&config, ImportFacts { has_manifest: true, ..facts() }), vec![]);
    assert_eq!(
        import_actions(&config, ImportFacts { is_indexed: true, is_imported: true, ..facts() }),
        vec![ImportAction::CountReused]
    );
    let anew = import_actions(
        &config,
        ImportFacts { has_patch: true, exists: true, has_manifest: true, ..facts() },
    );
    assert_eq!(anew[0], ImportAction::Clear);
    assert!(anew.contains(&ImportAction::ApplyPatch));
}

#[test]
fn packages_have_places() {
    let package = release("@scope/pkg", "1.0.0");
    let mut config = config();
    config.virtual_store_dir = s("/ws/.pnpm");
    let paths = import_paths(&config, &package, "/ws/node_modules", "alias", false);
    assert_eq!(paths.save_path, "/ws/.pnpm/@scope+pkg@1.0.0/node_modules/@scope/pkg");
    assert_eq!(paths.symlink_path, "/ws/node_modules/alias");
    assert_eq!(paths.package_id, "@scope/pkg@1.0.0");
    assert_eq!(save_path("/s", "a@1", "a", false), "/s/a@1/node_modules/a");
    assert_eq!(
        representative_path("/s/a", &texts(&["b.js", "a.js"]), false),
        Some(s("/s/a/a.js"))
    );
    assert_eq!(representative_path("/s/a", &texts(&[]), false), None);
}

#[test]
fn a_file_that_the_store_lacks_spoils_the_index() {
    let files = vec![(s("a"), Some(s("/store/a"))), (s("b"), None)];
    assert!(cas_paths_from_index(&files).is_none());
    assert!(is_executable_mode(0o755));
    assert!(is_executable_mode(0o010));
    assert!(!is_executable_mode(0o644));
}

#[test]
fn versions_come_from_where_they_are_asked_for() {
    assert!(matches!(version_source("a", "https://x/a.tgz", true), VersionSource::Tarball { spec_text }
        if spec_text == "https://x/a.tgz"));
    assert!(matches!(version_source("a", "pnpm/pnpm", false), VersionSource::Git { tarball }
        if tarball == "https://codeload.github.com/pnpm/pnpm/tar.gz/HEAD"));
    assert!(matches!(version_source("a", "github:pnpm", false), VersionSource::UnsupportedGit { .. }));
    assert!(matches!(version_source("a", "npm:b@^1.0.0", false), VersionSource::Metadata { name, range }
        if name == "b" && range == "^1.0.0"));
    assert!(needs_fresh_metadata(false, true, true, false));
    assert!(!needs_fresh_metadata(true, true, true, false));
    assert!(!needs_fresh_metadata(false, true, true, true));
    assert!(!needs_fetch(true, false));
    assert!(!needs_fetch(false, true));
    assert!(needs_fetch(false, false));
}

#[test]
fn what_arrives_is_told_and_imported() {
    let mut package = release("pkg", "1.0.0");
    package.deprecated = Some(s("old"));
    package.os = Some(texts(&["darwin"]));
    let arrival = package_arrival(&package, true, true, &machine());
    assert_eq!(arrival.deprecation, Some(s("old")));
    assert!(!arrival.import);
    let arrival = package_arrival(&package, false, false, &machine());
    assert_eq!(arrival.deprecation, None);
    assert!(arrival.import);
}

#[test]
fn tarballs_of_a_lockfile_are_found() {
    let mut snapshot = snapshot();
    snapshot.resolution = LockfileResolution::Registry { integrity: s("sha512-Bw==") };
    assert_eq!(
        tarball_of_snapshot(&path("@scope/pkg", "1.0.0", "(a@1.0.0)"), &snapshot, "https://r.example/"),
        (s("https://r.example/@scope/pkg/-/pkg-1.0.0.tgz"), s("sha512-Bw=="))
    );
    let custom = DependencyPath::registry(Some(s("https://own.example")), package("pkg", "2.0.0", ""));
    assert_eq!(
        tarball_of_snapshot(&custom, &snapshot, "https://r.example/").0,
        "https://own.example/pkg/-/pkg-2.0.0.tgz"
    );
    snapshot.resolution = LockfileResolution::Tarball {
        tarball: s("https://x/a.tgz"),
        integrity: Some(s("sha512-CA==")),
    };
    assert_eq!(
        tarball_of_snapshot(&custom, &snapshot, "https://r.example/"),
        (s("https://x/a.tgz"), s("sha512-CA=="))
    );
}

#[test]
fn the_store_knows_packages_without_their_peers() {
    assert_eq!(snapshot_package_id(&path("@s/a", "1.0.0+b", "(p@1.0.0)")), "@s/a@1.0.0+b");
    assert_eq!(snapshot_package_id(&local_path("lib", "file:lib.tgz")), "lib@file:lib.tgz");
}

#[test]
fn only_known_tarballs_are_fetched() {
    let with = |resolution: LockfileResolution| {
        let mut package = snapshot();
        package.resolution = resolution;
        package
    };
    let registry = path("a", "1.0.0", "");
    let local = local_path("a", "file:a");
    let known = || LockfileResolution::Registry { integrity: s("sha512-x") };
    let tarball = |integrity: Option<String>| {
        LockfileResolution::Tarball { tarball: s("https://r/a.tgz"), integrity }
    };
    assert_eq!(tarball_is_missing(&registry, &with(known())), None);
    assert_eq!(tarball_is_missing(&local, &with(known())), Some(NoTarball::Unsupported));
    assert_eq!(tarball_is_missing(&local, &with(tarball(Some(s("sha512-x"))))), None);
    assert_eq!(
        tarball_is_missing(&registry, &with(tarball(None))),
        Some(NoTarball::WithoutIntegrity)
    );
    let directory = LockfileResolution::Directory { directory: s("a") };
    assert_eq!(tarball_is_missing(&local, &with(directory)), Some(NoTarball::Unsupported));
    let git = LockfileResolution::Git { repo: s("r"), commit: s("c") };
    assert_eq!(tarball_is_missing(&registry, &with(git)), Some(NoTarball::Unsupported));
}
