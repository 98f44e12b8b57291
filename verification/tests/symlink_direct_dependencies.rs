use pacquet_package_manager::config::{
    LinkWorkspacePackages, NodeLinker, Npmrc, PackageImportMethod, SaveWorkspaceProtocol,
};
use pacquet_package_manager::create_virtual_store::dependency_layout_is_present;
use pacquet_package_manager::json::Json;
use pacquet_package_manager::lockfile::{
    DependencyPath, LockfileResolution, PackageMap, PackageSnapshot, PackageSnapshotDependency,
    PkgNameVerPeer, PkgVerPeer, ProjectSnapshot, ResolvedDependencySpec, ResolvedDependencyVersion,
};
use pacquet_package_manager::semver::Version;
use pacquet_package_manager::symlink_direct_dependencies::{
    DependencyEntry, DirectLink, EntryLink, LayoutNext, MaterializeWalk, create_symlink_layout,
    dependency_copies, dependency_source_dir, direct_link, layout_link_next, link_is_needed,
    link_target_path, link_target_with_publish_config_directory, local_link_target,
    should_materialize_workspace_dependency, virtual_store_around,
};
use pacquet_package_manager::table::TextMap;

fn s(text: &str) -> String {
    text.to_string()
}

fn texts(list: &[&str]) -> Vec<String> {
    list.iter().map(|text| text.to_string()).collect()
}

fn obj(fields: Vec<(&str, Json)>) -> Json {
    Json::Object(fields.into_iter().map(|(name, value)| (name.to_string(), value)).collect())
}

fn txt(text: &str) -> Json {
    Json::Text(text.to_string())
}

fn ver(text: &str) -> Version {
    Version::parse(text).expect("a version")
}

fn suffix(name: &str, version: &str, peer: &str) -> PkgVerPeer {
    let store_name = format!("{name}@{version}{peer}");
    PkgVerPeer {
        version: ver(version),
        peer: peer.to_string(),
        store_name: store_name.replace('/', "+").replace('(', "_").replace(')', ""),
    }
}

fn package(name: &str, version: &str, peer: &str) -> PkgNameVerPeer {
    PkgNameVerPeer { name: name.to_string(), suffix: suffix(name, version, peer) }
}

fn local_path(name: &str, reference: &str) -> DependencyPath {
    let store_name = format!("{name}@{reference}").replace([':', '/'], "+");
    DependencyPath::local_file(name.to_string(), reference.to_string(), store_name)
}

fn snapshot() -> PackageSnapshot {
    PackageSnapshot {
        resolution: LockfileResolution::Tarball {
            tarball: "file:dummy.tgz".to_string(),
            integrity: None,
        },
        id: None,
        name: None,
        version: None,
        engines: None,
        cpu: None,
        os: None,
        libc: None,
        deprecated: None,
        has_bin: None,
        prepare: None,
        requires_build: None,
        bundled_dependencies: None,
        peer_dependencies: None,
        peer_dependencies_meta: None,
        dependencies: None,
        optional_dependencies: None,
        transitive_peer_dependencies: None,
        dev: None,
        optional: None,
    }
}

fn packages(entries: Vec<(DependencyPath, PackageSnapshot)>) -> PackageMap {
    let mut packages = PackageMap::new();
    for (path, snapshot) in entries {
        packages.insert(path, snapshot);
    }
    packages
}

fn spec(specifier: &str, version: ResolvedDependencyVersion) -> ResolvedDependencySpec {
    ResolvedDependencySpec { specifier: specifier.to_string(), version }
}

fn plain(name: &str, version: &str, peer: &str) -> ResolvedDependencyVersion {
    ResolvedDependencyVersion::PkgVerPeer(suffix(name, version, peer))
}

fn link(target: &str) -> ResolvedDependencyVersion {
    ResolvedDependencyVersion::Link(target.to_string())
}

fn config() -> Npmrc {
    Npmrc {
        modules_dir: "node_modules".to_string(),
        virtual_store_dir: "node_modules/.pnpm".to_string(),
        store_dir: "/store".to_string(),
        node_linker: NodeLinker::Isolated,
        package_import_method: PackageImportMethod::Auto,
        link_workspace_packages: LinkWorkspacePackages::False,
        save_workspace_protocol: SaveWorkspaceProtocol::Rolling,
        hoist: true,
        hoist_pattern: vec!["*".to_string()],
        public_hoist_pattern: Vec::new(),
        shamefully_hoist: false,
        symlink: true,
        prefer_symlinked_executables: None,
        disable_relink_local_dir_deps: false,
        lockfile: true,
        prefer_frozen_lockfile: true,
        lockfile_include_tarball_url: false,
        auto_install_peers: true,
        exclude_links_from_lockfile: false,
        peers_suffix_max_length: 1000,
        inject_workspace_packages: false,
        dedupe_injected_deps: true,
        dedupe_peer_dependents: true,
        resolve_peers_from_workspace_root: true,
        strict_peer_dependencies: false,
        modules_cache_max_age: 10080,
    }
}

fn shown<T: std::fmt::Debug>(value: &T) -> String {
    format!("{value:?}")
}

fn entry(name: &str, leads_to: Option<&str>) -> DependencyEntry {
    DependencyEntry {
        link: EntryLink {
            name: s(name),
            is_link: leads_to.is_some(),
            target: leads_to.map(|target| target.to_string()),
        },
        has_manifest: true,
        scoped: Vec::new(),
    }
}

#[test]
fn materialize_virtual_store_package_preserves_workspace_links() {
    let source = "/ws/.pnpm/project-2@file+pkg/node_modules/project-2";
    let destination = "/ws/project/node_modules/project-2";
    assert_eq!(dependency_source_dir(source, false), "/ws/.pnpm/project-2@file+pkg/node_modules");

    let entries =
        vec![entry("project-2", None), entry("project-1", Some("/ws/packages/project-1"))];
    let steps = dependency_copies(source, destination, &entries, false);

    assert_eq!(steps.len(), 1);
    assert!(steps[0].preserve);
    assert_eq!(steps[0].to, "/ws/project/node_modules/project-2/node_modules/project-1");
}

#[test]
fn materialize_virtual_store_package_recurses_into_virtual_store_links() {
    let source = "/ws/.pnpm/project-2@file+pkg/node_modules/project-2";
    let nested = "/ws/.pnpm/project-1@file+pkg/node_modules/project-1";
    let destination = "/ws/project/node_modules/project-2";

    let mut walk = MaterializeWalk::new(source, destination);
    let mut copied = Vec::new();
    while let Some((from, to)) = walk.next_package() {
        let lies_at = if from.ends_with("node_modules/project-1") { nested } else { &from };
        if !walk.enter(lies_at) {
            continue;
        }
        let entries = if lies_at == source {
            vec![entry("project-2", None), entry("project-1", Some(nested))]
        } else if lies_at == nested {
            vec![entry("project-1", None), entry("is-number", None)]
        } else {
            Vec::new()
        };
        let steps = dependency_copies(lies_at, &to, &entries, false);
        assert!(steps.iter().all(|step| !step.preserve));
        copied.push(to);
        walk.add_copies(&steps);
    }

    assert_eq!(
        copied,
        texts(&[
            "/ws/project/node_modules/project-2",
            "/ws/project/node_modules/project-2/node_modules/project-1",
            "/ws/project/node_modules/project-2/node_modules/project-1/node_modules/is-number",
        ])
    );
}

fn workspace_config() -> Npmrc {
    let mut config = config();
    config.modules_dir = s("/ws/app/node_modules");
    config.virtual_store_dir = s("/ws/node_modules/.pnpm");
    config
}

#[test]
fn links_lead_to_the_store_or_beside_the_modules() {
    let config = workspace_config();
    let packages = packages(vec![(local_path("lib", "file:lib"), snapshot())]);
    let target = |name: &str, link: &str| local_link_target(
        &config,
        Some(&packages),
        name,
        link,
        false,
    );
    assert_eq!(
        target("lib", "file:lib"),
        (s("/ws/node_modules/.pnpm/lib@file+lib/node_modules/lib"), true)
    );
    assert_eq!(target("other", "file:lib"), (s("/ws/app/lib"), false));
    assert_eq!(target("lib", "link:../lib"), (s("/ws/app/../lib"), false));
}

#[test]
fn packages_may_publish_a_directory() {
    let manifest = |linked: bool, directory: &str| {
        obj(vec![(
            "publishConfig",
            obj(vec![("linkDirectory", Json::Bool(linked)), ("directory", txt(directory))]),
        )])
    };
    let target = |manifest: &Json| link_target_with_publish_config_directory(
        "/lib",
        Some(manifest),
        false,
    );
    assert_eq!(target(&manifest(true, "dist")), "/lib/dist");
    assert_eq!(target(&manifest(false, "dist")), "/lib");
    assert_eq!(target(&manifest(true, "")), "/lib");
    assert_eq!(link_target_with_publish_config_directory("/lib", None, false), "/lib");
}

#[test]
fn direct_dependencies_are_linked_as_they_ask() {
    let mut config = workspace_config();
    let mut project = ProjectSnapshot::empty();
    let shown_link = |config: &Npmrc, project: &ProjectSnapshot, name: &str, wanted, exists| {
        shown(&direct_link(config, project, None, name, &wanted, None, exists, false))
    };
    let store = s("/ws/node_modules/.pnpm/foo@1.0.0/node_modules/foo");
    let registry = || spec("^1", plain("foo", "1.0.0", ""));
    assert_eq!(
        shown_link(&config, &project, "foo", registry(), false),
        shown(&DirectLink::LinkPackage { source: store })
    );
    assert_eq!(
        shown_link(&config, &project, "foo", registry(), true),
        shown(&DirectLink::Leave)
    );
    let linked = || spec("link:../lib", link("link:../lib"));
    assert_eq!(
        shown_link(&config, &project, "lib", linked(), false),
        shown(&DirectLink::Symlink { source: s("/ws/app/../lib") })
    );
    let injected = || spec("workspace:*", link("file:../lib"));
    assert_eq!(
        shown_link(&config, &project, "lib", injected(), true),
        shown(&DirectLink::ImportCopy { source: s("/ws/app/../lib") })
    );
    assert!(!should_materialize_workspace_dependency(
        &project,
        "lib",
        "workspace:*",
        &link("file:../lib"),
        &config
    ));
    project.dependencies_meta = Some(obj(vec![("lib", obj(vec![("injected", Json::Bool(true))]))]));
    assert!(should_materialize_workspace_dependency(
        &project,
        "lib",
        "workspace:*",
        &link("file:../lib"),
        &config
    ));
    config.disable_relink_local_dir_deps = true;
    assert_eq!(
        shown_link(&config, &project, "lib", injected(), true),
        shown(&DirectLink::Leave)
    );
    config.symlink = false;
    assert_eq!(
        shown_link(&config, &project, "lib", linked(), false),
        shown(&DirectLink::Leave)
    );
}

#[test]
fn the_store_around_a_package_is_found() {
    assert_eq!(virtual_store_around("/ws/.pnpm/a@1.0.0/node_modules/a", false), "/ws/.pnpm");
    assert_eq!(virtual_store_around("/ws/packages/a", false), "/ws/packages");
    assert_eq!(link_target_path(
        "/ws/node_modules/a",
        "../../lib",
        false,
    ), "/ws/node_modules/../../lib");
    assert_eq!(link_target_path("/ws/node_modules/a", "/lib", false), "/lib");
}

#[test]
fn the_dependencies_of_a_package_lie_beside_it() {
    let mut dependencies = TextMap::new();
    dependencies.insert(s("a"), PackageSnapshotDependency::PkgVerPeer(suffix("a", "1.0.0", "")));
    dependencies.insert(s("b"), PackageSnapshotDependency::PkgNameVerPeer(package("c", "2.0.0", "")));
    dependencies.insert(s("l"), PackageSnapshotDependency::Link(s("link:packages/l")));
    dependencies.insert(s("f"), PackageSnapshotDependency::Link(s("file:packages/f")));
    let names = vec![String::new(), String::new(), String::new(), s("f@file+packages+f")];
    let links = create_symlink_layout(
        &dependencies,
        &names,
        "/v",
        "/ws",
        "/v/x@1.0.0/node_modules",
        false,
    );
    let links: Vec<(&str, &str)> =
        links.iter().map(|(from, to)| (from.as_str(), to.as_str())).collect();
    assert_eq!(
        links,
        vec![
            ("/v/a@1.0.0/node_modules/a", "/v/x@1.0.0/node_modules/a"),
            ("/v/c@2.0.0/node_modules/c", "/v/x@1.0.0/node_modules/b"),
            ("/ws/packages/l", "/v/x@1.0.0/node_modules/l"),
            ("/v/f@file+packages+f/node_modules/f", "/v/x@1.0.0/node_modules/f"),
        ]
    );
    assert!(link_is_needed(false, None, None, false));
    assert!(link_is_needed(true, Some("/a"), Some("/b"), false));
    assert!(link_is_needed(true, None, Some("/b"), false));
    assert!(!link_is_needed(true, Some("/a"), Some("/a"), false));
}

#[test]
fn scoped_dependencies_are_copied_one_by_one() {
    let source = "/ws/.pnpm/p@1.0.0/node_modules/p";
    let mut scope = entry("@s", None);
    scope.has_manifest = false;
    scope.scoped = vec![
        EntryLink { name: s("a"), is_link: true, target: Some(s("/ws/.pnpm/a@1/node_modules/a")) },
        EntryLink { name: s("b"), is_link: true, target: Some(s("/elsewhere/b")) },
    ];
    let steps = dependency_copies(source, "/d", &vec![entry(".bin", None), scope], false);
    let steps: Vec<(bool, &str, &str)> =
        steps.iter().map(|step| (step.preserve, step.from.as_str(), step.to.as_str())).collect();
    assert_eq!(
        steps,
        vec![
            (false, "/ws/.pnpm/p@1.0.0/node_modules/@s/a", "/d/node_modules/@s/a"),
            (true, "/ws/.pnpm/p@1.0.0/node_modules/@s/b", "/d/node_modules/@s/b"),
        ]
    );
}

#[test]
fn once_it_is_linked_the_layout_is_there() {
    let mut dependencies = TextMap::new();
    dependencies.insert(s("a"), PackageSnapshotDependency::PkgVerPeer(suffix("a", "1.0.0", "")));
    dependencies.insert(s("@s/l"), PackageSnapshotDependency::Link(s("link:packages/l")));
    let names = vec![String::new(), String::new()];
    let dir = "/v/x@1.0.0/node_modules";
    let links = create_symlink_layout(&dependencies, &names, "/v", "/ws", dir, false);
    let mut made: Vec<String> = Vec::new();
    assert!(!dependency_layout_is_present(&dependencies, dir, &made, false));
    for (_, link) in links {
        made.push(link);
    }
    assert!(dependency_layout_is_present(&dependencies, dir, &made, false));
}

#[test]
fn a_layout_link_is_tried_again_on_windows_alone() {
    assert_eq!(layout_link_next(true, 1, true), LayoutNext::Done);
    assert_eq!(layout_link_next(false, 1, true), LayoutNext::WaitAndRetry);
    assert_eq!(layout_link_next(false, 2, true), LayoutNext::WaitAndRetry);
    assert_eq!(layout_link_next(false, 3, true), LayoutNext::GiveUp);
    assert_eq!(layout_link_next(true, 3, true), LayoutNext::Done);
    assert_eq!(layout_link_next(false, 1, false), LayoutNext::GiveUp);
}
