use pacquet_package_manager::config::{
    LinkWorkspacePackages, NodeLinker, Npmrc, PackageImportMethod, SaveWorkspaceProtocol,
};
use pacquet_package_manager::json::Json;
use pacquet_package_manager::link_bins::{
    BinDirEntry, BinFile, BinWalk, bin_dir_of, bin_directory_of_manifest, bin_directory_to_walk,
    bin_packages, bin_probes, bins_of_manifest, collect_bin_entries, collect_safe_bin_entry,
    create_unix_wrapper, create_windows_cmd_wrapper, create_windows_ps1_wrapper, default_bin_name,
    is_safe_bin_name, missing_bin_target, normalize_bin_name, shell_quote_posix,
    should_launch_with_node, unix_bin_file, windows_bin_files,
};
use pacquet_package_manager::lockfile::DependencyGroup;
use pacquet_package_manager::paths::join_paths;
use pacquet_package_manager::table::TextMap;

fn s(text: &str) -> String {
    text.to_string()
}

fn texts(list: &[&str]) -> Vec<String> {
    list.iter().map(|text| text.to_string()).collect()
}

fn map(entries: &[(&str, &str)]) -> TextMap<String> {
    let mut map = TextMap::new();
    for (key, value) in entries {
        map.insert(key.to_string(), value.to_string());
    }
    map
}

fn pairs(list: &[(&str, &str)]) -> Vec<(String, String)> {
    list.iter().map(|(a, b)| (a.to_string(), b.to_string())).collect()
}

fn obj(fields: Vec<(&str, Json)>) -> Json {
    Json::Object(fields.into_iter().map(|(name, value)| (name.to_string(), value)).collect())
}

fn txt(text: &str) -> Json {
    Json::Text(text.to_string())
}

fn text_obj(fields: &[(&str, &str)]) -> Json {
    Json::Object(
        fields.iter().map(|(name, text)| (name.to_string(), Json::Text(text.to_string()))).collect(),
    )
}

fn config() -> Npmrc {
    Npmrc {
        modules_dir: "node_modules".to_string(),
        virtual_store_dir: "node_modules/.pnpm".to_string(),
        store_dir: "/store".to_string(),
        node_linker: NodeLinker::Isolated,
        package_import_method: PackageImportMethod::Auto,
        link_workspace_packages: LinkWorkspacePackages::False,
        save_workspace_protocol: SaveWorkspaceProtocol::Rolling,
        hoist: true,
        hoist_pattern: vec!["*".to_string()],
        public_hoist_pattern: Vec::new(),
        shamefully_hoist: false,
        symlink: true,
        prefer_symlinked_executables: None,
        disable_relink_local_dir_deps: false,
        lockfile: true,
        prefer_frozen_lockfile: true,
        lockfile_include_tarball_url: false,
        auto_install_peers: true,
        exclude_links_from_lockfile: false,
        peers_suffix_max_length: 1000,
        inject_workspace_packages: false,
        dedupe_injected_deps: true,
        dedupe_peer_dependents: true,
        resolve_peers_from_workspace_root: true,
        strict_peer_dependencies: false,
        modules_cache_max_age: 10080,
    }
}

/// A path with `.` and `..` taken out.
fn normalized(path: &str) -> String {
    let mut parts: Vec<&str> = Vec::new();
    for part in path.split('/') {
        match part {
            "" | "." => {}
            ".." => {
                parts.pop();
            }
            part => parts.push(part),
        }
    }
    format!("/{}", parts.join("/"))
}

/// A tree of files, in which a link stands for where it leads.
struct Tree<'a> {
    files: &'a [&'a str],
    links: &'a [(&'a str, &'a str)],
}

impl Tree<'_> {
    fn leads_to(&self, path: &str) -> String {
        let path = normalized(path);
        for (link, target) in self.links {
            if path == *link {
                return target.to_string();
            }
            if let Some(rest) = path.strip_prefix(&format!("{link}/")) {
                return self.leads_to(&format!("{target}/{rest}"));
            }
        }
        path
    }

    fn is_dir(&self, path: &str) -> bool {
        self.files.iter().any(|file| file.starts_with(&format!("{}/", self.leads_to(path))))
    }

    fn is_file(&self, path: &str) -> bool {
        let path = self.leads_to(path);
        self.files.iter().any(|file| **file == path)
    }

    fn canonical(&self, path: &str) -> Option<String> {
        (self.is_dir(path) || self.is_file(path)).then_some(self.leads_to(path))
    }

    fn list(&self, dir: &str) -> Vec<String> {
        let prefix = format!("{}/", self.leads_to(dir));
        let links = self.links.iter().map(|(link, _)| *link);
        let mut names: Vec<String> = Vec::new();
        for path in self.files.iter().copied().chain(links) {
            if let Some(rest) = path.strip_prefix(&prefix) {
                let name = rest.split('/').next().unwrap_or_default().to_string();
                if !names.contains(&name) {
                    names.push(name);
                }
            }
        }
        names.into_iter().map(|name| format!("{dir}/{name}")).collect()
    }
}

/// The commands of the package at `/pkg`.
fn bins(manifest: &Json, tree: &Tree) -> Vec<(String, String)> {
    let manifest_path = "/pkg/package.json";
    let mut canonical = TextMap::new();
    for probe in bin_probes(manifest_path, manifest, false) {
        if let Some(place) = tree.canonical(&probe) {
            canonical.insert(probe, place);
        }
    }
    let mut files = Vec::new();
    if let Some((root, dir)) = bin_directory_to_walk(manifest_path, manifest, &canonical, false) {
        let mut walk = BinWalk::new(&root, &dir, false);
        while let Some(dir) = walk.next_dir() {
            if !walk.enter(tree.canonical(&dir).as_deref()) {
                continue;
            }
            for path in tree.list(&dir) {
                let entry = if tree.is_dir(&path) {
                    BinDirEntry::Directory
                } else {
                    BinDirEntry::File { canonical: tree.canonical(&path) }
                };
                walk.take_entry(&path, entry);
            }
        }
        files = walk.files;
    }
    collect_bin_entries(manifest_path, manifest, &canonical, &files, false)
}

fn bins_in(manifest: &Json, files: &[&str]) -> Vec<(String, String)> {
    let mut all = vec!["/pkg/package.json"];
    all.extend(files);
    bins(manifest, &Tree { files: &all, links: &[] })
}

fn with_bins(name: &str, bins: &[(&str, &str)]) -> Json {
    obj(vec![("name", txt(name)), ("bin", text_obj(bins))])
}

#[test]
fn string_bin_uses_unscoped_package_name() {
    let manifest = text_obj(&[("name", "@scope/hello"), ("bin", "bin/hello.js")]);
    assert_eq!(
        bins_in(&manifest, &["/pkg/bin/hello.js"]),
        pairs(&[("hello", "bin/hello.js")])
    );
}

#[test]
fn object_bin_preserves_all_entries() {
    let manifest =
        with_bins("hello", &[("hello", "bin/hello.js"), ("hello-alt", "bin/alt.js")]);
    let mut received = bins_in(&manifest, &["/pkg/bin/hello.js", "/pkg/bin/alt.js"]);
    received.sort();
    assert_eq!(received, pairs(&[("hello", "bin/hello.js"), ("hello-alt", "bin/alt.js")]));
}

fn with_directories(name: &str, dir: &str) -> Json {
    obj(vec![("name", txt(name)), ("directories", text_obj(&[("bin", dir)]))])
}

#[test]
fn directories_bin_uses_file_names_and_collects_recursively() {
    let manifest = with_directories("@scope/pkg-with-directories-bin", "bin");
    let mut entries = bins_in(&manifest, &["/pkg/bin/root", "/pkg/bin/nested/cli"]);
    entries.sort();
    assert_eq!(entries, pairs(&[("cli", "bin/nested/cli"), ("root", "bin/root")]));
}

#[test]
fn directories_bin_skips_path_traversal_outside_package_root() {
    assert!(bins_in(&with_directories("malicious", "../outside"), &[]).is_empty());
}

#[test]
fn directories_bin_skips_real_path_traversal_outside_package_root() {
    let manifest = with_directories("malicious", "../secret");
    assert!(bins_in(&manifest, &["/secret/secret.sh"]).is_empty());
}

#[test]
fn directories_bin_skips_symlink_cycles_without_recursing_forever() {
    let manifest = with_directories("@scope/pkg-with-directories-bin", "bin");
    let tree = Tree {
        files: &["/pkg/package.json", "/pkg/bin/nested/cli"],
        links: &[("/pkg/bin/nested/loop", "/pkg/bin")],
    };
    assert_eq!(bins(&manifest, &tree), pairs(&[("cli", "bin/nested/cli")]));
}

#[test]
fn object_bin_skips_path_traversal_outside_package_root() {
    let manifest = with_bins("pkg", &[("safe", "good.js"), ("unsafe", "../escape.js")]);
    assert_eq!(bins_in(&manifest, &["/pkg/good.js"]), pairs(&[("safe", "good.js")]));
}

#[test]
fn object_bin_accepts_scoped_name_and_skips_scoped_path_traversal_name() {
    let manifest = with_bins(
        "pkg",
        &[
            ("@scope/../../.npmrc", "./malicious.js"),
            ("@scope/../etc/passwd", "./evil.js"),
            ("@scope/legit", "./good.js"),
        ],
    );
    assert_eq!(bins_in(&manifest, &["/pkg/good.js"]), pairs(&[("legit", "./good.js")]));
}

#[test]
fn object_bin_normalizes_scoped_command_name() {
    let manifest = with_bins("@foo/a", &[("@foo/a", "./a")]);
    assert_eq!(bins_in(&manifest, &["/pkg/a"]), pairs(&[("a", "./a")]));
}

#[test]
fn object_bin_allows_dollar_command_name() {
    let manifest = with_bins("undollar", &[("$", "./undollar.js")]);
    assert_eq!(bins_in(&manifest, &["/pkg/undollar.js"]), pairs(&[("$", "./undollar.js")]));
}

#[test]
fn string_bin_skips_path_traversal_outside_package_root() {
    let manifest = text_obj(&[("name", "foo"), ("bin", "../bad")]);
    assert!(bins_in(&manifest, &[]).is_empty());
}

#[test]
fn object_bin_skips_dangerous_bin_names() {
    let manifest = with_bins(
        "foo",
        &[("../bad", "./bad"), ("..\\\\bad", "./bad"), ("good", "./good"), ("~/bad", "./bad")],
    );
    assert_eq!(bins_in(&manifest, &["/pkg/good"]), pairs(&[("good", "./good")]));
}

#[test]
fn shebang_node_script_is_detected() {
    let content = "#!/usr/bin/env node\nconsole.log('hello')\n";
    assert!(should_launch_with_node("/tmp/hello", Some(content), false));
}

#[test]
fn hoisted_node_linker_prefers_symlinked_executables_by_default() {
    let mut config = config();
    config.node_linker = NodeLinker::Hoisted;

    assert!(config.prefer_symlinked_executables_enabled());
}

#[test]
fn prefer_symlinked_executables_creates_symlink_for_non_node_binary() {
    let use_node = should_launch_with_node("/tmp/hello", Some("#!/bin/sh\necho hello\n"), false);
    let mut config = config();
    config.prefer_symlinked_executables = Some(true);

    let BinFile::Symlink { path, target } =
        unix_bin_file(&config, "/tmp/.bin", "hello", "/tmp/hello", use_node, false)
    else {
        panic!("expected a symlink");
    };
    assert_eq!(path, "/tmp/.bin/hello");
    assert_eq!(target, "/tmp/hello");
}

#[test]
fn prefer_symlinked_executables_symlinks_directories_bin_entry() {
    let name = "@scope/pkg-with-directories-bin";
    let project =
        obj(vec![("name", txt("app")), ("dependencies", text_obj(&[(name, "1.0.0")]))]);
    let mut config = config();
    config.modules_dir = s("/ws/node_modules");
    config.node_linker = NodeLinker::Hoisted;

    let dirs = bin_packages(&config, &project, &vec![DependencyGroup::Prod], false);
    assert_eq!(dirs, texts(&["/ws/node_modules/@scope/pkg-with-directories-bin"]));

    let entries = bins_in(&with_directories(name, "bin"), &["/pkg/bin/cli"]);
    assert_eq!(entries, pairs(&[("cli", "bin/cli")]));
    let target = join_paths(&dirs[0], &entries[0].1, false);
    let use_node = should_launch_with_node(&target, Some("#!/bin/sh\necho hi\n"), false);
    let BinFile::Symlink { path, .. } =
        unix_bin_file(&config, &bin_dir_of(&config, false), &entries[0].0, &target, use_node, false)
    else {
        panic!("expected a symlink");
    };
    assert_eq!(path, "/ws/node_modules/.bin/cli");
}

#[test]
fn bin_names_are_normalized_and_checked() {
    assert_eq!(normalize_bin_name("@scope/tool"), Some("tool"));
    assert_eq!(normalize_bin_name("@scope"), None);
    assert_eq!(normalize_bin_name("tool"), Some("tool"));
    assert!(is_safe_bin_name("a-b_c.d!~*'()"));
    assert!(is_safe_bin_name("$"));
    assert!(!is_safe_bin_name("$a"));
    assert!(!is_safe_bin_name("a/b"));
    assert!(!is_safe_bin_name("a b"));
    assert_eq!(default_bin_name("@scope/tool"), "tool");
    assert_eq!(default_bin_name("tool"), "tool");
}

#[test]
fn a_manifest_names_its_commands() {
    let by_text = text_obj(&[("name", "@scope/tool"), ("bin", "cli.js")]);
    assert_eq!(bins_of_manifest(&by_text), Some(pairs(&[("tool", "cli.js")])));
    let nameless = text_obj(&[("bin", "cli.js")]);
    assert_eq!(bins_of_manifest(&nameless), Some(Vec::new()));
    let by_directory = with_directories("tool", "bin");
    assert_eq!(bins_of_manifest(&by_directory), None);
    assert_eq!(bin_directory_of_manifest(&by_directory), Some("bin"));
    assert_eq!(bin_directory_of_manifest(&by_text), None);
}

#[test]
fn linked_bins_lie_in_the_package() {
    let canonical = map(&[
        ("/pkg", "/pkg"),
        ("/pkg/inside", "/pkg/inside"),
        ("/pkg/link", "/elsewhere/file"),
    ]);
    assert_eq!(
        collect_safe_bin_entry("/pkg", "tool", "inside", &canonical, false),
        Some((s("tool"), s("inside")))
    );
    assert_eq!(collect_safe_bin_entry("/pkg", "tool", "link", &canonical, false), None);
    assert_eq!(collect_safe_bin_entry("/pkg", "tool", "missing", &canonical, false), None);
    assert_eq!(collect_safe_bin_entry("/pkg", "bad/name", "inside", &canonical, false), None);
}

#[test]
fn node_runs_scripts_by_name_and_by_first_line() {
    assert!(should_launch_with_node("/a/cli.js", None, false));
    assert!(should_launch_with_node("/a/cli.cjs", None, false));
    assert!(should_launch_with_node("/a/cli.mjs", Some(""), false));
    assert!(!should_launch_with_node("/a/cli.sh", None, false));
    assert!(!should_launch_with_node("/a/cli", Some("#!/bin/sh\n# node\n"), false));
    assert!(!should_launch_with_node("/a/cli", Some("node\n"), false));
    assert!(!should_launch_with_node("/a/.js", None, false));
}

#[test]
fn a_shell_reads_what_was_quoted() {
    assert_eq!(shell_quote_posix(""), "''");
    assert_eq!(shell_quote_posix("/a/b-c_d.e:f@g+h=i"), "/a/b-c_d.e:f@g+h=i");
    assert_eq!(shell_quote_posix("/a b"), "'/a b'");
    assert_eq!(shell_quote_posix("it's"), "'it'\"'\"'s'");
}

#[test]
fn wrappers_run_the_target() {
    assert_eq!(
        create_unix_wrapper("/a/cli.js", true),
        "#!/bin/sh\nexec node /a/cli.js \"$@\"\n"
    );
    assert_eq!(create_unix_wrapper("/a b", false), "#!/bin/sh\nexec '/a b' \"$@\"\n");
    assert_eq!(
        create_windows_cmd_wrapper("C:\\a\"b", true),
        "@ECHO off\r\nnode \"C:\\a\"\"b\" %*\r\n"
    );
    assert_eq!(create_windows_cmd_wrapper("C:\\a", false), "@ECHO off\r\n\"C:\\a\" %*\r\n");
    assert_eq!(create_windows_ps1_wrapper("C:\\it's", true), "& node 'C:\\it''s' @args\r\n");
    assert_eq!(create_windows_ps1_wrapper("C:\\a", false), "& 'C:\\a' @args\r\n");
    assert_eq!(
        windows_bin_files("/bin", "tool", "C:\\a", false, false),
        pairs(&[
            ("/bin/tool.cmd", "@ECHO off\r\n\"C:\\a\" %*\r\n"),
            ("/bin/tool.ps1", "& 'C:\\a' @args\r\n"),
        ])
    );
}

#[test]
fn a_script_is_wrapped_even_where_links_are_preferred() {
    let mut config = config();
    config.prefer_symlinked_executables = Some(true);
    let file = unix_bin_file(&config, "/bin", "tool", "/a/cli.js", true, false);
    assert!(matches!(file, BinFile::Script { path, content }
        if path == "/bin/tool" && content == "#!/bin/sh\nexec node /a/cli.js \"$@\"\n"));
    config.prefer_symlinked_executables = Some(false);
    config.node_linker = NodeLinker::Hoisted;
    let file = unix_bin_file(&config, "/bin", "tool", "/a/cli", false, false);
    assert!(matches!(file, BinFile::Script { .. }));
    assert_eq!(missing_bin_target("/a/cli"), "bin target does not exist: /a/cli");
}

#[test]
fn only_the_probes_decide_which_commands_are_linked() {
    let manifest = obj(vec![("name", txt("tool")), ("bin", txt("cli.js"))]);
    let probes = bin_probes("/p/package.json", &manifest, false);
    assert_eq!(probes, texts(&["/p", "/p/cli.js"]));
    let known = map(&[("/p", "/real/p"), ("/p/cli.js", "/real/p/cli.js")]);
    let more = map(&[
        ("/p", "/real/p"),
        ("/p/cli.js", "/real/p/cli.js"),
        ("/p/other.js", "/elsewhere/other.js"),
    ]);
    let linked = collect_bin_entries("/p/package.json", &manifest, &known, &vec![], false);
    assert_eq!(linked, pairs(&[("tool", "cli.js")]));
    assert_eq!(collect_bin_entries("/p/package.json", &manifest, &more, &vec![], false), linked);
    let away = map(&[("/p", "/real/p"), ("/p/cli.js", "/elsewhere/cli.js")]);
    assert!(collect_bin_entries("/p/package.json", &manifest, &away, &vec![], false).is_empty());
}
