use pacquet_package_manager::config::{
    LinkWorkspacePackages, NodeLinker, Npmrc, PackageImportMethod, SaveWorkspaceProtocol,
};
use pacquet_package_manager::install_with_lockfile::{
    ChildStep, DependencyStep, DirectStep, PeerStep, PeerSuffixes, ResolvedChild,
    ResolvedDependency, ResolvedDirectDependencies, ResolvedPackage, ResolvedPeer,
    append_peer_suffix_to_local_reference, build_project_snapshot, collect_local_peers,
    dependency_concurrency, dependency_step, direct_dependency_step, finish_local_directory,
    finish_package, insert_snapshot_dependency, local_child_step, local_peer_step, local_plan,
    merge_resolved_peer_suffixes, package_dependency_entries, project_dependencies_meta,
    requested_dependency_range, requested_peer_range, resolved_dependency_version,
    resolved_version_to_snapshot_dependency, should_include_dependency_in_lockfile,
    slashed_reference, take_up_package, to_dependency_path, to_package_snapshot, to_pkg_ver_peer,
    unique_direct_dependencies,
};
use pacquet_package_manager::json::Json;
use pacquet_package_manager::lockfile::{
    DependencyGroup, LockfileResolution, PackageMap, PackageSnapshot, PackageSnapshotDependency,
    PkgNameVerPeer, PkgVerPeer, ResolvedDependencyVersion,
};
use pacquet_package_manager::manifest_check::satisfies_package_manifest;
use pacquet_package_manager::package_snapshots::{PackageSnapshots, ResolvedPackages};
use pacquet_package_manager::registry::PackageVersion;
use pacquet_package_manager::semver::Version;
use pacquet_package_manager::snapshots::{
    direct_dependency_virtual_store_location, package_dependency_map,
};
use pacquet_package_manager::table::TextMap;
use pacquet_package_manager::value::Value;

fn s(text: &str) -> String {
    text.to_string()
}

fn texts(list: &[&str]) -> Vec<String> {
    list.iter().map(|text| text.to_string()).collect()
}

fn map(entries: &[(&str, &str)]) -> TextMap<String> {
    let mut map = TextMap::new();
    for (key, value) in entries {
        map.insert(key.to_string(), value.to_string());
    }
    map
}

fn keys<V: Value>(map: &TextMap<V>) -> Vec<String> {
    (0..map.len()).map(|i| map.key_at(i).clone()).collect()
}

fn pairs(list: &[(&str, &str)]) -> Vec<(String, String)> {
    list.iter().map(|(a, b)| (a.to_string(), b.to_string())).collect()
}

fn obj(fields: Vec<(&str, Json)>) -> Json {
    Json::Object(fields.into_iter().map(|(name, value)| (name.to_string(), value)).collect())
}

fn txt(text: &str) -> Json {
    Json::Text(text.to_string())
}

fn text_obj(fields: &[(&str, &str)]) -> Json {
    Json::Object(
        fields.iter().map(|(name, text)| (name.to_string(), Json::Text(text.to_string()))).collect(),
    )
}

fn ver(text: &str) -> Version {
    Version::parse(text).expect("a version")
}

fn suffix(name: &str, version: &str, peer: &str) -> PkgVerPeer {
    let store_name = format!("{name}@{version}{peer}");
    PkgVerPeer {
        version: ver(version),
        peer: peer.to_string(),
        store_name: store_name.replace('/', "+").replace('(', "_").replace(')', ""),
    }
}

fn package(name: &str, version: &str, peer: &str) -> PkgNameVerPeer {
    PkgNameVerPeer { name: name.to_string(), suffix: suffix(name, version, peer) }
}

fn snapshot() -> PackageSnapshot {
    PackageSnapshot {
        resolution: LockfileResolution::Tarball {
            tarball: "file:dummy.tgz".to_string(),
            integrity: None,
        },
        id: None,
        name: None,
        version: None,
        engines: None,
        cpu: None,
        os: None,
        libc: None,
        deprecated: None,
        has_bin: None,
        prepare: None,
        requires_build: None,
        bundled_dependencies: None,
        peer_dependencies: None,
        peer_dependencies_meta: None,
        dependencies: None,
        optional_dependencies: None,
        transitive_peer_dependencies: None,
        dev: None,
        optional: None,
    }
}

fn plain(name: &str, version: &str, peer: &str) -> ResolvedDependencyVersion {
    ResolvedDependencyVersion::PkgVerPeer(suffix(name, version, peer))
}

fn alias(name: &str, version: &str, peer: &str) -> ResolvedDependencyVersion {
    ResolvedDependencyVersion::PkgNameVerPeer(package(name, version, peer))
}

fn link(target: &str) -> ResolvedDependencyVersion {
    ResolvedDependencyVersion::Link(target.to_string())
}

fn config() -> Npmrc {
    Npmrc {
        modules_dir: "node_modules".to_string(),
        virtual_store_dir: "node_modules/.pnpm".to_string(),
        store_dir: "/store".to_string(),
        node_linker: NodeLinker::Isolated,
        package_import_method: PackageImportMethod::Auto,
        link_workspace_packages: LinkWorkspacePackages::False,
        save_workspace_protocol: SaveWorkspaceProtocol::Rolling,
        hoist: true,
        hoist_pattern: vec!["*".to_string()],
        public_hoist_pattern: Vec::new(),
        shamefully_hoist: false,
        symlink: true,
        prefer_symlinked_executables: None,
        disable_relink_local_dir_deps: false,
        lockfile: true,
        prefer_frozen_lockfile: true,
        lockfile_include_tarball_url: false,
        auto_install_peers: true,
        exclude_links_from_lockfile: false,
        peers_suffix_max_length: 1000,
        inject_workspace_packages: false,
        dedupe_injected_deps: true,
        dedupe_peer_dependents: true,
        resolve_peers_from_workspace_root: true,
        strict_peer_dependencies: false,
        modules_cache_max_age: 10080,
    }
}

fn release(name: &str, version: &str) -> PackageVersion {
    PackageVersion {
        name: name.to_string(),
        version: ver(version),
        tarball: String::new(),
        integrity: None,
        virtual_store_name: format!("{name}@{version}").replace('/', "+"),
        regular_dependencies: TextMap::new(),
        optional_dependencies: TextMap::new(),
        peer_dependencies: None,
        optional_peers: Vec::new(),
        engines: None,
        cpu: None,
        os: None,
        libc: None,
        deprecated: None,
        has_bin: false,
    }
}

fn app_manifest(dependencies: &[(&str, &str)]) -> Json {
    obj(vec![
        ("name", txt("app")),
        ("version", txt("1.0.0")),
        ("dependencies", text_obj(dependencies)),
    ])
}

fn resolved(entries: Vec<(&str, &str, ResolvedDependencyVersion)>) -> ResolvedDirectDependencies {
    let mut resolved = ResolvedDirectDependencies::new();
    for (name, range, version) in entries {
        resolved.insert((s(name), s(range)), ResolvedPackage::new(version));
    }
    resolved
}

#[test]
fn build_project_snapshot_excludes_external_link_when_config_enabled() {
    let manifest = app_manifest(&[("external-link", "link:../external"), ("is-number", "^7.0.0")]);
    let resolved = resolved(vec![
        ("external-link", "link:../external", link("link:../external")),
        ("is-number", "^7.0.0", plain("is-number", "7.0.0", "")),
    ]);

    let snapshot = build_project_snapshot(&manifest, &vec![DependencyGroup::Prod], &resolved, true);

    let deps = snapshot.dependencies.expect("dependencies map");
    let specifiers = snapshot.specifiers.expect("specifiers map");
    assert!(deps.contains_text("is-number"));
    assert!(!deps.contains_text("external-link"));
    assert!(specifiers.contains_text("is-number"));
    assert!(!specifiers.contains_text("external-link"));
}

#[test]
fn build_project_snapshot_keeps_workspace_protocol_link_when_excluding_links() {
    let manifest = app_manifest(&[("workspace-pkg", "workspace:*")]);
    let resolved =
        resolved(vec![("workspace-pkg", "workspace:*", link("link:../workspace-pkg"))]);

    let snapshot = build_project_snapshot(&manifest, &vec![DependencyGroup::Prod], &resolved, true);

    let deps = snapshot.dependencies.expect("dependencies map");
    let specifiers = snapshot.specifiers.expect("specifiers map");
    assert!(deps.contains_text("workspace-pkg"));
    assert_eq!(specifiers.get_text("workspace-pkg"), Some(&s("workspace:*")));
}

#[test]
fn build_project_snapshot_preserves_dependencies_meta() {
    let mut manifest = app_manifest(&[("workspace-pkg", "workspace:*")]);
    if let Json::Object(fields) = &mut manifest {
        fields.push((
            s("dependenciesMeta"),
            obj(vec![("workspace-pkg", obj(vec![("injected", Json::Bool(true))]))]),
        ));
    }
    let resolved =
        resolved(vec![("workspace-pkg", "workspace:*", link("link:../workspace-pkg"))]);

    let snapshot =
        build_project_snapshot(&manifest, &vec![DependencyGroup::Prod], &resolved, false);

    let dependencies_meta = snapshot.dependencies_meta.expect("dependenciesMeta");
    let injected = dependencies_meta.get("workspace-pkg").and_then(|meta| meta.get("injected"));
    assert_eq!(injected.and_then(|value| value.as_bool()), Some(true));
}

#[test]
fn append_peer_suffix_to_local_reference_appends_sorted_resolved_peers() {
    let mut resolved_peers = PeerSuffixes::new();
    resolved_peers.insert("is-number", &plain("is-number", "7.0.0", ""));
    resolved_peers.insert("is-even", &plain("is-even", "1.0.0", ""));

    assert_eq!(
        append_peer_suffix_to_local_reference("file:../src", &resolved_peers),
        "file:../src(is-even@1.0.0)(is-number@7.0.0)"
    );
}

#[test]
fn append_peer_suffix_to_local_reference_strips_link_prefix_from_workspace_peer() {
    let mut resolved_peers = PeerSuffixes::new();
    resolved_peers.insert("project-1", &link("link:packages/project-1"));

    assert_eq!(
        append_peer_suffix_to_local_reference("file:packages/project-2", &resolved_peers),
        "file:packages/project-2(project-1@packages/project-1)"
    );
}

#[test]
fn to_package_snapshot_preserves_deprecated_message() {
    let mut package_version = release("pkg", "1.0.0");
    package_version.tarball = s("https://registry.npmjs.org/pkg/-/pkg-1.0.0.tgz");
    package_version.integrity = Some(s("sha512-deadbeef"));
    package_version.deprecated = Some(s("use pkg2"));

    let snapshot = to_package_snapshot(
        &config(),
        &package_version,
        TextMap::new(),
        TextMap::new(),
        false,
        "https://registry.npmjs.org/",
        false,
    );

    assert_eq!(snapshot.deprecated.as_deref(), Some("use pkg2"));
}

#[test]
fn unique_direct_dependencies_dedupes_same_name_and_spec_across_groups() {
    let manifest = obj(vec![
        ("dependencies", text_obj(&[("foo", "^1.0.0")])),
        ("devDependencies", text_obj(&[("foo", "^1.0.0"), ("bar", "^2.0.0")])),
    ]);

    let items = unique_direct_dependencies(
        &manifest,
        &vec![DependencyGroup::Prod, DependencyGroup::Dev],
    );

    assert_eq!(
        items,
        vec![
            (DependencyGroup::Prod, s("foo"), s("^1.0.0")),
            (DependencyGroup::Dev, s("bar"), s("^2.0.0")),
        ]
    );
}

#[test]
fn dependencies_are_written_as_they_were_resolved() {
    let mut package = release("pkg", "1.2.3");
    assert_eq!(to_pkg_ver_peer(&package).text(), "1.2.3");
    assert_eq!(to_dependency_path(&package).text(), "/pkg@1.2.3");
    assert!(matches!(resolved_dependency_version("pkg", &package),
        ResolvedDependencyVersion::PkgVerPeer(suffix) if suffix.text() == "1.2.3"));
    assert!(matches!(resolved_dependency_version("alias", &package),
        ResolvedDependencyVersion::PkgNameVerPeer(target) if target.text() == "pkg@1.2.3"));
    assert!(matches!(resolved_version_to_snapshot_dependency(&link("link:../a")),
        PackageSnapshotDependency::Link(target) if target == "link:../a"));

    let mut needed = TextMap::new();
    let mut optional = TextMap::new();
    insert_snapshot_dependency(&mut needed, &mut optional, "a", &plain("a", "1.0.0", ""), false);
    insert_snapshot_dependency(&mut needed, &mut optional, "b", &alias("c", "2.0.0", ""), true);
    assert_eq!(keys(&needed), texts(&["a"]));
    assert_eq!(optional.get_text("b").expect("an optional one").text, "c@2.0.0");

    package.integrity = Some(s("sha512-Bw=="));
    package.has_bin = true;
    let kept = to_package_snapshot(
        &config(), &package, needed, optional, true, "https://registry.npmjs.org/", true,
    );
    assert_eq!((kept.has_bin, kept.requires_build, kept.optional), (Some(true), Some(true), Some(true)));
    assert_eq!(kept.dependencies.expect("dependencies").len(), 1);
}

#[test]
fn a_tarball_that_stands_elsewhere_is_written_down() {
    let mut package = release("pkg", "1.0.0");
    package.integrity = Some(s("sha512-Bw=="));
    package.tarball = s("https://registry.npmjs.org/pkg/-/pkg-1.0.0.tgz");
    let resolution = |config: &Npmrc, package: &PackageVersion| {
        to_package_snapshot(
            config, package, TextMap::new(), TextMap::new(), false, "https://registry.npmjs.org/", false,
        )
        .resolution
    };
    let mut config = config();
    assert!(matches!(resolution(&config, &package),
        LockfileResolution::Registry { integrity } if integrity == "sha512-Bw=="));
    config.lockfile_include_tarball_url = true;
    assert!(matches!(resolution(&config, &package), LockfileResolution::Tarball { .. }));
    config.lockfile_include_tarball_url = false;
    package.tarball = s("https://elsewhere.example/pkg.tgz");
    assert!(matches!(resolution(&config, &package),
        LockfileResolution::Tarball { tarball, .. } if tarball == "https://elsewhere.example/pkg.tgz"));
}

#[test]
fn links_are_left_out_of_the_lockfile() {
    assert!(should_include_dependency_in_lockfile("link:../a", &link("link:../a"), false));
    assert!(!should_include_dependency_in_lockfile("link:../a", &link("link:../a"), true));
    assert!(should_include_dependency_in_lockfile("workspace:*", &link("link:../a"), true));
    assert!(should_include_dependency_in_lockfile("file:../a", &link("file:../a"), true));
}

#[test]
fn a_package_is_taken_up_once_and_then_needed() {
    let mut resolved_packages = ResolvedPackages::new();
    let mut package_snapshots = PackageSnapshots::new();
    let mut package = release("pkg", "1.0.0");
    package.integrity = Some(s("sha512-Bw=="));
    package.regular_dependencies = map(&[("dep", "^1.0.0")]);
    package.peer_dependencies = Some(map(&[("peer", "^2.0.0")]));
    let taken = take_up_package(
        &config(), &mut resolved_packages, &mut package_snapshots, "pkg", &package, true, false,
    );
    assert_eq!(
        taken.dependencies,
        Some(vec![(false, s("dep"), s("^1.0.0")), (false, s("peer"), s("^2.0.0"))])
    );
    assert_eq!(package_dependency_entries(&package, false).len(), 1);

    let children = vec![ResolvedDependency {
        optional: false,
        name: s("dep"),
        version: plain("dep", "1.0.0", ""),
    }];
    finish_package(
        &config(), &mut package_snapshots, &package, &children, true, "https://registry.npmjs.org/", false,
    );
    assert_eq!(package_snapshots.len(), 1);
    assert_eq!(package_snapshots.value_at(0).optional, Some(true));

    let again = take_up_package(
        &config(), &mut resolved_packages, &mut package_snapshots, "pkg", &package, false, false,
    );
    assert_eq!(again.dependencies, None);
    assert_eq!(package_snapshots.value_at(0).optional, None);
    let skipped = take_up_package(
        &config(), &mut resolved_packages, &mut package_snapshots, "b", &release("b", "1.0.0"), true, true,
    );
    assert_eq!(skipped.dependencies, Some(Vec::new()));
}

#[test]
fn ranges_are_overridden_by_the_root() {
    let peers = map(&[("react", "^17.0.0")]);
    let range = requested_dependency_range(
        &config(), &map(&[("react", "^18.0.0")]), &map(&[]), Some(&peers), "react", "^17.0.0",
    );
    assert_eq!(range, "^18.0.0");
    let range = requested_dependency_range(
        &config(), &map(&[("react", "^18.0.0")]), &map(&[("react", "19.0.0")]), Some(&peers), "react", "^17.0.0",
    );
    assert_eq!(range, "19.0.0");
    assert_eq!(requested_peer_range(&map(&[("a", "2")]), &map(&[]), "a", "1"), "2");
    assert_eq!(requested_peer_range(&map(&[("a", "2")]), &map(&[("a", "3")]), "a", "1"), "3");
    assert!(matches!(dependency_step("/ws", s("^1.0.0"), Some("/ws/a"), false),
        DependencyStep::Linked { version: ResolvedDependencyVersion::Link(target) } if target == "link:a"));
    assert!(matches!(dependency_step("/ws", s("^1.0.0"), None, false),
        DependencyStep::Resolve { range } if range == "^1.0.0"));
    assert_eq!(dependency_concurrency(Some(1)), 4);
    assert_eq!(dependency_concurrency(Some(8)), 8);
    assert_eq!(dependency_concurrency(Some(64)), 32);
    assert_eq!(dependency_concurrency(None), 16);
}

#[test]
fn a_local_package_is_planned() {
    let manifest = obj(vec![
        ("name", txt("own-name")),
        ("dependencies", text_obj(&[("a", "1")])),
        ("devDependencies", text_obj(&[("b", "2")])),
        ("peerDependencies", text_obj(&[("c", "3")])),
    ]);
    let plan = local_plan(Some(&manifest), "given-name");
    assert_eq!(plan.package_name, "own-name");
    assert_eq!(plan.children, pairs(&[("a", "1")]));
    assert_eq!(plan.peers.expect("peers").get_text("c"), Some(&s("3")));
    let plan = local_plan(None, "given-name");
    assert_eq!(plan.package_name, "given-name");
    assert!(plan.children.is_empty());
}

#[test]
fn peers_of_a_local_package_are_come_by() {
    let mut config = config();
    let step = |config: &Npmrc, available, range: &str, root: Result<Option<String>, String>| {
        local_peer_step(config, available, "/ws/app/package.json", "/ws", s(range), root, false)
    };
    assert!(matches!(step(&config, true, "workspace:*", Ok(Some(s("/ws/lib")))),
        Ok(PeerStep::Linked { version: ResolvedDependencyVersion::Link(target) }) if target == "link:lib"));
    assert!(matches!(step(&config, false, "^1.0.0", Ok(None)),
        Ok(PeerStep::Resolve { range }) if range == "^1.0.0"));
    assert!(matches!(step(&config, false, "file:../lib", Ok(None)), Ok(PeerStep::Snapshot { .. })));
    assert!(matches!(step(&config, true, "^1.0.0", Err(s("gone"))), Err(message) if message == "gone"));
    config.auto_install_peers = false;
    assert!(matches!(step(&config, false, "^1.0.0", Ok(None)), Ok(PeerStep::Absent)));
}

#[test]
fn children_of_a_local_package_are_come_by() {
    let step = |range: &str, root: Result<Option<String>, String>| {
        local_child_step("/ws/lib/package.json", "/ws", range, s(range), root, false)
    };
    assert!(matches!(step("link:../a", Ok(None)),
        Ok(ChildStep::Symlink { version: ResolvedDependencyVersion::Link(target) }) if target == "link:../a"));
    assert!(matches!(step("workspace:*", Ok(Some(s("/ws/a")))),
        Ok(ChildStep::Snapshot { path, reference }) if path == "/ws/a" && reference == "file:a"));
    assert!(matches!(step("^1.0.0", Ok(None)), Ok(ChildStep::Resolve { range }) if range == "^1.0.0"));
    assert!(matches!(step("^1.0.0", Err(s("gone"))), Err(message) if message == "gone"));
    assert!(matches!(step("link:../a", Err(s("gone"))), Ok(ChildStep::Symlink { .. })));
    assert_eq!(slashed_reference("/ws", "/ws/a", false), "file:a");
}

#[test]
fn a_local_package_is_referred_to_with_its_peers() {
    let mut package_snapshots = PackageSnapshots::new();
    let plan = local_plan(None, "lib");
    let peers = vec![ResolvedPeer {
        name: s("peer"),
        package: ResolvedPackage::new(plain("peer", "1.0.0", "")),
    }];
    let children = vec![ResolvedChild {
        name: s("child"),
        package: ResolvedPackage::new(plain("child", "2.0.0", "")),
        is_link: false,
    }];
    let package = finish_local_directory(
        &mut package_snapshots, plan, "file:packages/lib", &peers, &children, s("lib@file+packages+lib"),
    );
    assert!(matches!(&package.version,
        ResolvedDependencyVersion::Link(target) if target == "file:packages/lib(peer@1.0.0)"));
    assert_eq!(package_snapshots.key_at(0).text(), "/lib@file:packages/lib(peer@1.0.0)");
    let kept = package_snapshots.value_at(0);
    assert!(matches!(kept.resolution,
        LockfileResolution::Directory { directory } if directory == "packages/lib"));
    assert_eq!(keys(&kept.dependencies.expect("dependencies")), texts(&["peer", "child"]));

    let mut all = collect_local_peers(&peers, &children);
    let mut others = PeerSuffixes::new();
    others.insert("peer", &plain("peer", "9.0.0", ""));
    others.insert("new", &plain("new", "1.0.0", ""));
    merge_resolved_peer_suffixes(&mut all, &others);
    assert_eq!(
        append_peer_suffix_to_local_reference("file:a", &all),
        "file:a(new@1.0.0)(peer@1.0.0)"
    );
}

#[test]
fn direct_dependencies_are_come_by() {
    let manifest = obj(vec![]);
    let mut config = config();
    config.modules_dir = s("/ws/app/node_modules");
    let step = |config: &Npmrc, group, range: &str, only, root: Result<Option<String>, String>| {
        direct_dependency_step(
            config, &manifest, "/ws/app/package.json", "/ws", group, "dep", range, only, root,
            false,
        )
    };
    let prod = DependencyGroup::Prod;
    assert!(matches!(step(&config, prod, "link:../a", false, Ok(None)),
        Ok(DirectStep::LinkDirectory { target, at: Some(at), .. })
            if target == "/ws/app/../a" && at == "/ws/app/node_modules/dep"));
    assert!(matches!(step(&config, prod, "link:../a", true, Ok(None)),
        Ok(DirectStep::LinkDirectory { at: None, .. })));
    assert!(matches!(step(&config, prod, "file:../a", false, Ok(None)), Ok(DirectStep::CopyDirectory { .. })));
    assert!(matches!(step(&config, prod, "workspace:*", false, Ok(Some(s("/ws/a")))),
        Ok(DirectStep::LinkWorkspacePackage { version: ResolvedDependencyVersion::Link(target), .. })
            if target == "link:../a"));
    assert!(matches!(step(&config, DependencyGroup::Optional, "^1.0.0", true, Ok(None)),
        Ok(DirectStep::Resolve { optional: true })));
    assert!(matches!(step(&config, prod, "^1.0.0", false, Ok(None)), Ok(DirectStep::Install { optional: false })));
    assert!(matches!(step(&config, prod, "workspace:*", false, Err(s("gone"))), Err(message) if message == "gone"));
    config.inject_workspace_packages = true;
    assert!(matches!(step(&config, prod, "workspace:*", false, Ok(Some(s("/ws/a")))),
        Ok(DirectStep::CopyWorkspacePackage { path, reference }) if path == "/ws/a" && reference == "file:a"));
}

#[test]
fn empty_meta_is_not_written_down() {
    assert!(project_dependencies_meta(&obj(vec![("dependenciesMeta", obj(vec![]))])).is_none());
    assert!(project_dependencies_meta(&obj(vec![])).is_none());
    let manifest = obj(vec![("publishConfig", text_obj(&[("directory", "dist")]))]);
    let snapshot = build_project_snapshot(
        &manifest, &vec![DependencyGroup::Prod], &ResolvedDirectDependencies::new(), false,
    );
    assert_eq!(snapshot.publish_directory, Some(s("dist")));
    assert!(snapshot.specifiers.is_none());
}

#[test]
fn what_is_written_fits_the_manifest() {
    let manifest = obj(vec![
        ("dependencies", text_obj(&[("a", "^1.0.0"), ("b", "link:../b")])),
        ("devDependencies", text_obj(&[("c", "~2.0.0")])),
        ("optionalDependencies", text_obj(&[("d", "3.0.0")])),
    ]);
    let resolved = resolved(vec![
        ("a", "^1.0.0", plain("a", "1.5.0", "")),
        ("b", "link:../b", link("link:../b")),
        ("c", "~2.0.0", plain("c", "2.0.7", "(a@1.5.0)")),
        ("d", "3.0.0", plain("d", "3.0.0", "")),
    ]);
    let groups =
        vec![DependencyGroup::Prod, DependencyGroup::Dev, DependencyGroup::Optional];
    for exclude in [false, true] {
        let snapshot = build_project_snapshot(&manifest, &groups, &resolved, exclude);
        for auto_install_peers in [false, true] {
            assert_eq!(
                satisfies_package_manifest(&snapshot, &manifest, auto_install_peers, exclude, true),
                Ok(())
            );
        }
    }
}

#[test]
fn resolved_versions_lead_to_where_packages_are_put() {
    let mut package = release("pkg", "1.0.0+build.7");
    package.virtual_store_name = s("pkg@1.0.0+build.7_short");
    package.integrity = Some(s("sha512-x"));
    for name in ["pkg", "other"] {
        let taken = take_up_package(
            &config(),
            &mut ResolvedPackages::new(),
            &mut PackageSnapshots::new(),
            name,
            &package,
            false,
            false,
        );
        assert_eq!(
            taken.version.text(),
            if name == "pkg" { "1.0.0+build.7" } else { "pkg@1.0.0+build.7" }
        );
        assert_eq!(
            direct_dependency_virtual_store_location(name, &taken.version, None),
            Some((s(name), s("pkg@1.0.0+build.7_short"), s("pkg")))
        );
    }
    let key = to_dependency_path(&package);
    assert_eq!(key.package_specifier.to_virtual_store_name(), "pkg@1.0.0+build.7_short");
    assert_eq!(key.package_specifier.text(), "pkg@1.0.0+build.7");

    let mut snapshots = PackageSnapshots::new();
    finish_package(&config(), &mut snapshots, &package, &vec![], false, "https://r/", false);
    let held = snapshots.key_at(0).package_specifier.to_virtual_store_name();
    assert_eq!(held, "pkg@1.0.0+build.7_short");

    // A build tag does not tell two keys apart, and the first key stays.
    let mut rebuilt = release("pkg", "1.0.0+build.8");
    rebuilt.integrity = Some(s("sha512-y"));
    finish_package(&config(), &mut snapshots, &rebuilt, &vec![], true, "https://r/", false);
    assert_eq!(snapshots.len(), 1);
    assert_eq!(snapshots.key_at(0).text(), "/pkg@1.0.0+build.7");
    assert_eq!(snapshots.value_at(0).optional, Some(true));
}

#[test]
fn a_local_package_is_put_where_it_is_said() {
    let mut snapshots = PackageSnapshots::new();
    let plan = local_plan(None, "lib");
    finish_local_directory(&mut snapshots, plan, "file:lib", &vec![], &vec![], s("lib@file+lib"));
    let key = snapshots.key_at(0);
    assert_eq!(key.package_specifier.to_virtual_store_name(), "lib@file+lib");
    let mut all = PackageMap::new();
    snapshots.add_to(&mut all);
    assert_eq!(all.key_at(0).package_specifier.to_virtual_store_name(), "lib@file+lib");
}

#[test]
fn an_optional_link_is_no_dependency_that_is_read_back() {
    let mut needed = TextMap::new();
    let mut optional = TextMap::new();
    insert_snapshot_dependency(&mut needed, &mut optional, "a", &link("link:../a"), true);
    insert_snapshot_dependency(&mut needed, &mut optional, "b", &plain("b", "1.0.0", ""), true);
    insert_snapshot_dependency(&mut needed, &mut optional, "c", &link("link:../c"), false);
    let kept = optional.get_text("a").expect("a reference");
    assert_eq!(kept.text, "link:../a");
    assert!(kept.dependency.is_none());
    let mut package = snapshot();
    package.dependencies = Some(needed);
    package.optional_dependencies = Some(optional);
    assert_eq!(keys(&package_dependency_map(&package)), texts(&["c", "b"]));
}

#[test]
fn local_dependencies_of_windows_are_referred_to() {
    assert_eq!(slashed_reference(r"C:\ws", r"C:\ws\a", true), "file:a");
    assert!(matches!(dependency_step(r"C:\ws", s("^1.0.0"), Some(r"C:\ws\a"), true),
        DependencyStep::Linked { version: ResolvedDependencyVersion::Link(target) } if target == "link:a"));
}
