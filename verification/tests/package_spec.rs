use pacquet_package_manager::config::{
    LinkWorkspacePackages, NodeLinker, Npmrc, PackageImportMethod, SaveWorkspaceProtocol,
};
use pacquet_package_manager::json::Json;
use pacquet_package_manager::lockfile::{
    DependencyGroup, Lockfile, PackageMap, PkgVerPeer, ProjectSnapshot, ResolvedDependencyMap,
    ResolvedDependencySpec, ResolvedDependencyVersion, RootProjectSnapshot,
};
use pacquet_package_manager::package_spec::{
    AddCase, AddError, AddStep, AliasRequest, LocalFound, alias_request, alias_to_manifest,
    entries_to_add, find_direct_dependency_spec_in_snapshot,
    find_existing_workspace_direct_dependency_spec, format_add_summary, local_path_candidate,
    parse_npm_alias_spec, parses_as_tag, range_to_manifest, render_added_workspace_spec,
    resolve_local_path_spec, resolve_npm_alias_target_spec, resolve_package_spec, save_version,
    split_package_spec, workspace_spec_with_prefix,
};
use pacquet_package_manager::semver::Version;
use pacquet_package_manager::table::TextMap;
use pacquet_package_manager::workspace::{WorkspacePackageInfo, WorkspacePackages};

fn s(text: &str) -> String {
    text.to_string()
}

fn pairs(list: &[(&str, &str)]) -> Vec<(String, String)> {
    list.iter().map(|(a, b)| (a.to_string(), b.to_string())).collect()
}

fn text_obj(fields: &[(&str, &str)]) -> Json {
    Json::Object(
        fields.iter().map(|(name, text)| (name.to_string(), Json::Text(text.to_string()))).collect(),
    )
}

fn ver(text: &str) -> Version {
    Version::parse(text).expect("a version")
}

fn suffix(name: &str, version: &str, peer: &str) -> PkgVerPeer {
    let store_name = format!("{name}@{version}{peer}");
    PkgVerPeer {
        version: ver(version),
        peer: peer.to_string(),
        store_name: store_name.replace('/', "+").replace('(', "_").replace(')', ""),
    }
}

fn spec(specifier: &str, version: ResolvedDependencyVersion) -> ResolvedDependencySpec {
    ResolvedDependencySpec { specifier: specifier.to_string(), version }
}

fn plain(name: &str, version: &str, peer: &str) -> ResolvedDependencyVersion {
    ResolvedDependencyVersion::PkgVerPeer(suffix(name, version, peer))
}

fn link(target: &str) -> ResolvedDependencyVersion {
    ResolvedDependencyVersion::Link(target.to_string())
}

fn specs(entries: Vec<(&str, ResolvedDependencySpec)>) -> ResolvedDependencyMap {
    let mut specs = ResolvedDependencyMap::new();
    for (name, spec) in entries {
        specs.insert(name.to_string(), spec);
    }
    specs
}

fn project(dependencies: Vec<(&str, ResolvedDependencySpec)>) -> ProjectSnapshot {
    let mut project = ProjectSnapshot::empty();
    project.dependencies = Some(specs(dependencies));
    project
}

fn importers(entries: Vec<(&str, ProjectSnapshot)>) -> RootProjectSnapshot {
    let mut importers = TextMap::new();
    for (id, project) in entries {
        importers.insert(id.to_string(), project);
    }
    RootProjectSnapshot::Multi(importers)
}

fn lockfile(project_snapshot: RootProjectSnapshot, packages: Option<PackageMap>) -> Lockfile {
    Lockfile {
        lockfile_version: (9, 0),
        settings: None,
        never_built_dependencies: None,
        ignored_optional_dependencies: None,
        overrides: None,
        package_extensions_checksum: None,
        patched_dependencies: None,
        pnpmfile_checksum: None,
        catalogs: None,
        time: None,
        extra_fields: TextMap::new(),
        project_snapshot,
        packages,
    }
}

fn config() -> Npmrc {
    Npmrc {
        modules_dir: "node_modules".to_string(),
        virtual_store_dir: "node_modules/.pnpm".to_string(),
        store_dir: "/store".to_string(),
        node_linker: NodeLinker::Isolated,
        package_import_method: PackageImportMethod::Auto,
        link_workspace_packages: LinkWorkspacePackages::False,
        save_workspace_protocol: SaveWorkspaceProtocol::Rolling,
        hoist: true,
        hoist_pattern: vec!["*".to_string()],
        public_hoist_pattern: Vec::new(),
        shamefully_hoist: false,
        symlink: true,
        prefer_symlinked_executables: None,
        disable_relink_local_dir_deps: false,
        lockfile: true,
        prefer_frozen_lockfile: true,
        lockfile_include_tarball_url: false,
        auto_install_peers: true,
        exclude_links_from_lockfile: false,
        peers_suffix_max_length: 1000,
        inject_workspace_packages: false,
        dedupe_injected_deps: true,
        dedupe_peer_dependents: true,
        resolve_peers_from_workspace_root: true,
        strict_peer_dependencies: false,
        modules_cache_max_age: 10080,
    }
}

#[test]
fn split_package_spec_keeps_plain_names() {
    assert_eq!(split_package_spec("fastify"), ("fastify", None));
    assert_eq!(split_package_spec("@scope/pkg"), ("@scope/pkg", None));
}

#[test]
fn split_package_spec_extracts_requested_spec() {
    assert_eq!(split_package_spec("fastify@1.2.3"), ("fastify", Some("1.2.3")));
    assert_eq!(split_package_spec("fastify@latest"), ("fastify", Some("latest")));
    assert_eq!(split_package_spec("@scope/pkg@^1.0.0"), ("@scope/pkg", Some("^1.0.0")));
    assert_eq!(
        split_package_spec("say-hi@github:zkochan/hi#main"),
        ("say-hi", Some("github:zkochan/hi#main"))
    );
    assert_eq!(split_package_spec("@scope/pkg@workspace:*"), ("@scope/pkg", Some("workspace:*")));
}

#[test]
fn parse_npm_alias_spec_extracts_alias_and_target() {
    assert_eq!(
        parse_npm_alias_spec("hello-alias@npm:is-number@7.0.0"),
        Some(("hello-alias", "is-number", Some("7.0.0")))
    );
    assert_eq!(
        parse_npm_alias_spec("hello-alias@npm:is-number"),
        Some(("hello-alias", "is-number", None))
    );
    assert_eq!(
        parse_npm_alias_spec("@scope/alias@npm:@scope/pkg@^1.0.0"),
        Some(("@scope/alias", "@scope/pkg", Some("^1.0.0")))
    );
    assert_eq!(
        parse_npm_alias_spec("hello-alias@npm:@pnpm.e2e/hello-world-js-bin@1.0.0"),
        Some(("hello-alias", "@pnpm.e2e/hello-world-js-bin", Some("1.0.0")))
    );
    assert_eq!(
        parse_npm_alias_spec("hello-alias@npm:@pnpm.e2e/hello-world-js-bin"),
        Some(("hello-alias", "@pnpm.e2e/hello-world-js-bin", None))
    );
}

#[test]
fn resolve_local_relative_path_spec() {
    assert_eq!(local_path_candidate("/root/app", "../lib", false), "/root/app/../lib");
    let found = LocalFound::Manifest(text_obj(&[("name", "@repo/lib"), ("version", "1.0.0")]));

    let result = resolve_local_path_spec("/root/app", "../lib", &found, false)
        .expect("local path should resolve")
        .expect("local path should be detected");
    assert_eq!(result.0, "@repo/lib");
    assert_eq!(result.1, "link:../lib");

    let result = resolve_local_path_spec("/root/app", "../lib", &found, true)
        .expect("local path should resolve")
        .expect("local path should be detected");
    assert_eq!(result.1, r"link:..\lib");
}

#[test]
fn resolve_local_file_protocol_path_without_manifest_uses_directory_name() {
    let result = resolve_local_path_spec("/root/app", "file:./pkg", &LocalFound::NoManifest, false)
        .expect("local path should resolve")
        .expect("local path should be detected");
    assert_eq!(result.0, "pkg");
    assert_eq!(result.1, "file:pkg");
}

#[test]
fn resolve_local_link_protocol_path_strips_current_dir_prefix() {
    let found = LocalFound::Manifest(text_obj(&[("name", "pkg"), ("version", "1.0.0")]));
    let result = resolve_local_path_spec("/root/app", "link:./pkg", &found, false)
        .expect("local path should resolve")
        .expect("local path should be detected");
    assert_eq!(result.0, "pkg");
    assert_eq!(result.1, "link:pkg");
}

fn workspace() -> WorkspacePackages {
    let mut packages = WorkspacePackages::new();
    packages.insert(s("lib"), WorkspacePackageInfo { root_dir: s("/ws/lib"), version: s("1.2.3") });
    packages
}

fn ask(config: &Npmrc, lockfile: Option<&Lockfile>, package: &str, exact: bool, only: bool)
    -> Result<AddStep, AddError>
{
    resolve_package_spec(&AddCase {
        config,
        workspace_packages: &workspace(),
        lockfile,
        project_dir: "/ws/app",
        package,
        save_exact: exact,
        workspace_only: only,
        is_tarball: package.ends_with(".tgz"),
        local: &LocalFound::Absent,
        on_windows: false,
    })
}

fn done(step: Result<AddStep, AddError>) -> (String, String) {
    match step {
        Ok(AddStep::Done { name, spec_text }) => (name, spec_text),
        other => panic!("{other:?}"),
    }
}

#[test]
fn what_is_asked_for_decides_where_it_comes_from() {
    let config = config();
    let ask = |package: &str| ask(&config, None, package, false, false);
    assert!(matches!(ask("b@npm:a@1.0.0"), Ok(AddStep::Alias { alias, target, requested })
        if alias == "b" && target == "a" && requested == Some(s("1.0.0"))));
    assert!(matches!(ask("hi@github:o/r#main"), Ok(AddStep::GitAs { name, git, save })
        if name == "hi" && git == "github:o/r#main" && save == "github:o/r#main"));
    assert!(matches!(ask("https://x/a.tgz"), Ok(AddStep::Tarball { spec_text }) if spec_text == "https://x/a.tgz"));
    assert!(matches!(ask("pnpm/pnpm"), Ok(AddStep::Git { git, save })
        if git == "pnpm/pnpm" && save == "github:pnpm/pnpm"));
    assert!(matches!(ask("a"), Ok(AddStep::Latest { name }) if name == "a"));
    assert!(matches!(ask("a@latest"), Ok(AddStep::Tag { name, tag }) if name == "a" && tag == "latest"));
    assert!(matches!(ask("a@^1.0.0"), Ok(AddStep::Range { name, range }) if name == "a" && range == "^1.0.0"));
}

#[test]
fn the_protocol_of_the_workspace_stays_in_the_workspace() {
    let mut config = config();
    assert_eq!(done(ask(&config, None, "lib@workspace:*", false, false)), (s("lib"), s("workspace:*")));
    config.save_workspace_protocol = SaveWorkspaceProtocol::True;
    assert_eq!(done(ask(&config, None, "lib@workspace:~", false, false)), (s("lib"), s("workspace:~1.2.3")));
    let error = ask(&config, None, "other@workspace:*", false, false).expect_err("no such package");
    assert_eq!(error.message(), "\"other\" not found in the workspace");
    let error = ask(&config, None, "other", false, true).expect_err("no such package");
    assert!(matches!(error, AddError::WorkspacePackageNotFound { package } if package == "other"));
}

#[test]
fn packages_of_the_workspace_are_preferred() {
    let mut config = config();
    assert_eq!(done(ask(&config, None, "lib", false, false)), (s("lib"), s("workspace:^")));
    config.save_workspace_protocol = SaveWorkspaceProtocol::False;
    assert!(matches!(ask(&config, None, "lib", false, false), Ok(AddStep::Latest { .. })));
    config.link_workspace_packages = LinkWorkspacePackages::Direct;
    assert_eq!(done(ask(&config, None, "lib", false, false)), (s("lib"), s("^1.2.3")));
    assert_eq!(done(ask(&config, None, "lib", true, false)), (s("lib"), s("1.2.3")));
    assert_eq!(done(ask(&config, None, "lib", false, true)), (s("lib"), s("workspace:^1.2.3")));
}

#[test]
fn what_another_importer_asks_for_is_taken_over() {
    let lockfile = lockfile(
        importers(vec![
            ("a", project(vec![("x", spec("link:../x", link("link:../x")))])),
            ("b", project(vec![("x", spec("^4.0.0", plain("x", "4.1.0", "")))])),
        ]),
        None,
    );
    assert_eq!(
        find_existing_workspace_direct_dependency_spec(Some(&lockfile), "x"),
        Some(s("^4.0.0"))
    );
    assert_eq!(find_existing_workspace_direct_dependency_spec(Some(&lockfile), "y"), None);
    assert_eq!(find_existing_workspace_direct_dependency_spec(None, "x"), None);
    assert_eq!(done(ask(&config(), Some(&lockfile), "x", false, false)), (s("x"), s("^4.0.0")));
    let mut snapshot = ProjectSnapshot::empty();
    snapshot.dev_dependencies = Some(specs(vec![("d", spec("1", plain("d", "1.0.0", "")))]));
    assert_eq!(find_direct_dependency_spec_in_snapshot(&snapshot, "d"), Some(s("1")));
}

#[test]
fn specifiers_of_the_workspace_are_rendered() {
    assert_eq!(workspace_spec_with_prefix("1.2.3", "workspace:~"), "workspace:~1.2.3");
    assert_eq!(workspace_spec_with_prefix("1.2.3", "^"), "workspace:^1.2.3");
    assert_eq!(workspace_spec_with_prefix("1.2.3", "*"), "workspace:^1.2.3");
    assert_eq!(workspace_spec_with_prefix("1.2.3", ""), "workspace:^1.2.3");
    assert_eq!(workspace_spec_with_prefix("1.2.3", "latest"), "workspace:^1.2.3");
    assert_eq!(workspace_spec_with_prefix("1.2.3", ">=1"), "workspace:1.2.3");
    let rolling = |requested| render_added_workspace_spec(SaveWorkspaceProtocol::Rolling, "1.2.3", requested);
    assert_eq!(rolling(None), "workspace:^");
    assert_eq!(rolling(Some("~1")), "workspace:~");
    assert_eq!(rolling(Some("workspace:*")), "workspace:*");
    assert_eq!(
        render_added_workspace_spec(SaveWorkspaceProtocol::False, "1.2.3", None),
        "workspace:^1.2.3"
    );
    assert!(parses_as_tag("latest"));
    assert!(parses_as_tag("1.0.0"));
    assert!(!parses_as_tag("^1.0.0"));
}

#[test]
fn local_paths_may_lack_a_name() {
    let nameless = LocalFound::Manifest(text_obj(&[]));
    let error = resolve_local_path_spec("/ws", "./lib", &nameless, false).expect_err("no name");
    assert_eq!(error.message(), "Local dependency manifest at /ws/./lib/package.json is missing a package name");
    let error = resolve_local_path_spec(
        "/ws",
        "file:/",
        &LocalFound::NoManifest,
        false,
    ).expect_err("no path");
    assert!(matches!(error, AddError::LocalDependencyPathNotFound { path } if path == "file:/"));
    assert!(matches!(resolve_local_path_spec("/ws", "lib", &LocalFound::Absent, false), Ok(None)));
    let absolute = resolve_local_path_spec("/ws", "/a/lib", &LocalFound::NoManifest, false);
    assert!(matches!(absolute, Ok(Some((name, spec))) if name == "lib" && spec == "link:/a/lib"));
}

#[test]
fn errors_are_told() {
    assert_eq!(
        AddError::AddDependencyToManifest(s("x")).message(),
        "Failed to add package to manifest: x"
    );
    assert_eq!(AddError::ResolvePackage(s("x")).message(), "Failed to resolve package from registry: x");
    assert_eq!(
        AddError::NoMatchingVersion { package: s("a"), spec_text: s("^9") }.message(),
        "No version of a satisfies ^9"
    );
    assert_eq!(
        AddError::LocalDependencyPathNotFound { path: s("x") }.message(),
        "Cannot resolve local dependency path: x"
    );
    assert_eq!(
        AddError::LoadLocalDependencyManifest(s("p"), s("x")).message(),
        "Failed to load local dependency manifest at p: x"
    );
    assert_eq!(AddError::InstallDependencies(s("x")).message(), "Failed to install dependencies: x");
    assert_eq!(AddError::SaveManifest(s("x")).message(), "Failed save the manifest file: x");
}

#[test]
fn aliases_are_resolved() {
    assert!(matches!(alias_request(None), AliasRequest::Latest));
    assert!(matches!(alias_request(Some("latest")), AliasRequest::Tag(tag) if tag == "latest"));
    assert!(matches!(alias_request(Some("^1")), AliasRequest::Range(range) if range == "^1"));
    assert_eq!(resolve_npm_alias_target_spec(None, "1.2.3", false), "^1.2.3");
    assert_eq!(resolve_npm_alias_target_spec(Some("latest"), "1.2.3", true), "1.2.3");
    assert_eq!(resolve_npm_alias_target_spec(Some("1.0.0"), "1.0.0", false), "1.0.0");
    assert_eq!(resolve_npm_alias_target_spec(Some("^1"), "1.2.3", false), "^1");
    assert_eq!(alias_to_manifest("b", "a", "^1.2.3"), (s("b"), s("npm:a@^1.2.3")));
    assert_eq!(save_version("1.2.3", false), "^1.2.3");
    assert_eq!(save_version("1.2.3", true), "1.2.3");
    assert!(matches!(range_to_manifest("a", "^9", true), Ok((name, range)) if name == "a" && range == "^9"));
    assert!(matches!(range_to_manifest("a", "^9", false),
        Err(AddError::NoMatchingVersion { package, spec_text }) if package == "a" && spec_text == "^9"));
}

#[test]
fn what_was_added_is_summed_up() {
    let entries = entries_to_add(
        &pairs(&[("b", "^2.0.0"), ("a", "~1.0.0")]),
        &vec![DependencyGroup::Prod, DependencyGroup::Dev],
    );
    assert_eq!(entries.len(), 4);
    assert_eq!(entries[1], (DependencyGroup::Dev, s("b"), s("^2.0.0")));
    assert_eq!(
        format_add_summary(&entries, 2, 15, "0.0.1"),
        "Packages: +2\n++\n\ndependencies:\n+ b 2.0.0\n+ a 1.0.0\n\ndevDependencies:\n+ b 2.0.0\n+ a 1.0.0\n\nDone in 15ms using pacquet v0.0.1\n"
    );
    assert_eq!(
        format_add_summary(&vec![], 0, 7, "0.0.1"),
        "Already up to date\n\nDone in 7ms using pacquet v0.0.1\n"
    );
}

#[test]
fn the_parts_of_a_request_make_it_up_again() {
    for package in ["a@1", "@s/a@^1.0.0", "a@npm:b@1", "a", "@s/a", "a@"] {
        let (name, requested) = split_package_spec(package);
        let again = match requested {
            Some(requested) => format!("{name}@{requested}"),
            None => s(name),
        };
        assert_eq!(again, package);
    }
    assert_eq!(split_package_spec("@s/a@^1.0.0"), ("@s/a", Some("^1.0.0")));
}
