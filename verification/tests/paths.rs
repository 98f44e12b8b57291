use pacquet_package_manager::paths::{
    is_absolute_path, is_same_path, join_paths, nearest_named, parent_path, path_ancestors,
    path_components, path_file_name, path_is_within, strip_base, to_lockfile_importer_id,
    to_relative_path,
};

fn s(text: &str) -> String {
    text.to_string()
}

fn texts(list: &[&str]) -> Vec<String> {
    list.iter().map(|text| text.to_string()).collect()
}

#[test]
fn relative_path_from_project_to_workspace_package() {
    assert_eq!(to_relative_path("/repo/packages/app", "/repo/packages/lib", false), "../lib");
}

#[test]
fn paths_are_taken_apart() {
    assert_eq!(parent_path("/a/b", false), Some(s("/a")));
    assert_eq!(parent_path("/a", false), Some(s("/")));
    assert_eq!(parent_path("/", false), None);
    assert_eq!(parent_path("a", false), Some(s("")));
    assert_eq!(parent_path("", false), None);
    assert_eq!(path_ancestors("/a/b", false), texts(&["/a/b", "/a", "/"]));
    assert_eq!(path_components("/a/./b/../c", false), texts(&["/", "a", "b", "..", "c"]));
    assert_eq!(path_file_name("/a/b.txt", false), Some(s("b.txt")));
    assert_eq!(path_file_name("/a/..", false), None);
    assert_eq!(path_file_name("/", false), None);
}

#[test]
fn paths_are_joined() {
    assert_eq!(join_paths("/a", "b", false), "/a/b");
    assert_eq!(join_paths("/a/", "b", false), "/a/b");
    assert_eq!(join_paths("/a", "/b", false), "/b");
    assert_eq!(join_paths("", "b", false), "b");
    assert_eq!(join_paths("/a", "", false), "/a/");
    assert!(is_absolute_path("/a", false));
    assert!(!is_absolute_path("a", false));
}

#[test]
fn paths_are_compared_by_their_components() {
    assert!(is_same_path("/a//b/", "/a/./b", false));
    assert!(!is_same_path("/a/b", "/a/c", false));
    assert!(path_is_within("/a", "/a/b", false));
    assert!(path_is_within("/a", "/a", false));
    assert!(!path_is_within("/a", "/ab", false));
}

#[test]
fn the_way_from_one_path_leads_to_the_other() {
    assert_eq!(to_relative_path("/repo", "/repo/a/b", false), "a/b");
    assert_eq!(to_relative_path("/repo/a", "/repo", false), "..");
    assert_eq!(to_relative_path("/repo/a", "/repo/a", false), ".");
    assert_eq!(to_relative_path("/x/y", "/z", false), "../../z");
    assert_eq!(to_lockfile_importer_id("/repo", "/repo", false), ".");
    assert_eq!(to_lockfile_importer_id("/repo", "/repo/packages/app", false), "packages/app");
}

#[test]
fn what_is_left_of_a_path_leads_back() {
    assert_eq!(strip_base("/a/b", "/a/b/c/d", false), Some(s("c/d")));
    assert_eq!(strip_base("/a/b", "/a/b", false), Some(s("")));
    assert_eq!(strip_base("/a/b", "/a/bc", false), None);
    let rest = strip_base("/a/b", "/a/b//c", false).expect("a rest");
    assert!(is_same_path(&join_paths("/a/b", &rest, false), "/a/b//c", false));
}

#[test]
fn the_nearest_directory_of_a_name_is_found() {
    let dir = "/a/node_modules/b/node_modules/c";
    assert_eq!(nearest_named(
        dir,
        "node_modules",
        0,
        false,
    ), Some(s("/a/node_modules/b/node_modules")));
    assert_eq!(nearest_named("/a/b", "node_modules", 0, false), None);
}

#[test]
fn paths_of_windows_begin_with_a_drive_or_a_share() {
    for path in [
        r"C:\repo",
        "c:/repo",
        r"\\server\share",
        r"\\server\share\repo",
        "//server/share/repo",
        r"\\?\C:\repo",
        r"\\?\UNC\server\share",
        r"\\.\COM42",
    ] {
        assert!(is_absolute_path(path, true), "{path}");
    }
    for path in [r"\repo", "/repo", "C:repo", "repo", r"..\repo", r"\\server", ""] {
        assert!(!is_absolute_path(path, true), "{path}");
    }
    assert!(!is_absolute_path(r"C:\repo", false));
    assert!(!is_absolute_path(r"\\server\share", false));
}

#[test]
fn components_of_windows_are_parted_by_both_separators() {
    assert_eq!(path_components(r"c:\repo\packages/a\.\", true), texts(&["C:", r"\", "repo", "packages", "a"]));
    assert_eq!(path_components(r"\\server\share\a", true), texts(&["//server/share", r"\", "a"]));
    assert_eq!(path_components(r"\\server\share", true), texts(&["//server/share", r"\"]));
    assert_eq!(path_components(r"C:a", true), texts(&["C:", "a"]));
    assert_eq!(path_components(r".\a", true), texts(&[".", "a"]));
    assert_eq!(path_components(r"\a", true), texts(&[r"\", "a"]));
    assert_eq!(path_components(r"a\b", false), texts(&[r"a\b"]));
    assert!(is_same_path(r"c:\Repo\a", r"C:/Repo//a/", true));
    assert!(!is_same_path(r"C:\repo", r"C:\Repo", true));
    assert!(!is_same_path(r"C:\repo", r"D:\repo", true));
    assert!(!is_same_path(r"\\?\C:\repo", r"C:\repo", true));
    assert!(path_is_within(r"C:\repo", r"c:\repo\a", true));
    assert!(!path_is_within(r"C:\repo", r"C:\repository", true));
}

#[test]
fn paths_of_windows_are_joined() {
    assert_eq!(join_paths(r"C:\repo", "a", true), r"C:\repo\a");
    assert_eq!(join_paths(r"C:\repo\", "a", true), r"C:\repo\a");
    assert_eq!(join_paths("C:/repo/", "a", true), "C:/repo/a");
    assert_eq!(join_paths(r"C:\repo", r"D:\a", true), r"D:\a");
    assert_eq!(join_paths(r"C:\repo", "D:a", true), "D:a");
    assert_eq!(join_paths(r"C:\repo", r"\a", true), r"C:\a");
    assert_eq!(join_paths(r"\\server\share\repo", "/a", true), r"\\server\share/a");
    assert_eq!(join_paths("C:", "a", true), "C:a");
    assert_eq!(join_paths(r"\\?\C:\a\b", r"..\.\c/d", true), r"\\?\C:\a\c\d");
    assert_eq!(join_paths(r"\\?\C:\a", "/b", true), r"\\?\C:\b");
    assert_eq!(join_paths(r"\\?\C:", "..", true), r"\\?\C:\");
    assert_eq!(join_paths("", "a", true), "a");
    assert_eq!(join_paths("repo", "", true), r"repo\");
    assert_eq!(join_paths("/repo", r"C:\a", false), r"/repo/C:\a");
}

#[test]
fn paths_of_windows_have_parents_and_names() {
    assert_eq!(parent_path(r"C:\repo\a", true), Some(s(r"C:\repo")));
    assert_eq!(parent_path(r"C:\repo", true), Some(s(r"C:\")));
    assert_eq!(parent_path(r"C:\", true), None);
    assert_eq!(parent_path(r"\\server\share\a", true), Some(s(r"\\server\share\")));
    assert_eq!(parent_path(r"a\b", true), Some(s("a")));
    assert_eq!(path_ancestors(r"C:\a/b", true), texts(&[r"C:\a/b", r"C:\a", r"C:\"]));
    assert_eq!(path_file_name(r"C:\repo\a.js", true), Some(s("a.js")));
    assert_eq!(path_file_name(r"C:\", true), None);
    assert_eq!(path_file_name("C:", true), None);
    assert_eq!(
        nearest_named(r"C:\repo\node_modules\a\lib", "node_modules", 0, true),
        Some(s(r"C:\repo\node_modules"))
    );
}

#[test]
fn paths_of_windows_are_seen_from_others() {
    assert_eq!(to_relative_path(r"C:\repo\a", r"c:\repo\b\c", true), "../b/c");
    assert_eq!(to_relative_path(r"C:\repo", r"C:\repo", true), ".");
    assert_eq!(to_relative_path(r"C:\repo", r"D:\repo", true), r"D:\repo");
    assert_eq!(to_lockfile_importer_id(r"C:\repo", r"C:\repo\packages\a", true), "packages/a");
    assert_eq!(to_lockfile_importer_id(r"C:\repo", r"C:\repo", true), ".");
    assert_eq!(to_lockfile_importer_id(r"C:\repo", r"D:\repo\a", true), ".");
    assert_eq!(strip_base(r"C:\repo", r"c:\repo\bin\cli.js", true), Some(s("bin/cli.js")));
    assert_eq!(strip_base(r"\\server\share", r"\\server\share\a", true), Some(s("a")));
    assert_eq!(strip_base(r"C:\repo", r"D:\repo\a", true), None);
}
