use pacquet_package_manager::json::Json;
use pacquet_package_manager::lockfile::DependencyGroup;
use pacquet_package_manager::summary::{
    format_prefixed_summary_stats, format_summary, format_summary_dependency_line,
    format_summary_dependency_line_with_prefix, split_package_name_and_version,
};

fn obj(fields: Vec<(&str, Json)>) -> Json {
    Json::Object(fields.into_iter().map(|(name, value)| (name.to_string(), value)).collect())
}

fn text_obj(fields: &[(&str, &str)]) -> Json {
    Json::Object(
        fields.iter().map(|(name, text)| (name.to_string(), Json::Text(text.to_string()))).collect(),
    )
}

#[test]
fn summary_line_formats_npm_alias_like_pnpm() {
    assert_eq!(
        format_summary_dependency_line("hello-alias", "npm:@pnpm.e2e/hello-world-js-bin@^1.0.0"),
        "+ hello-alias <- @pnpm.e2e/hello-world-js-bin 1.0.0"
    );
}

#[test]
fn summary_line_formats_local_link_like_pnpm() {
    for spec in ["link:../local-pkg", r"link:..\local-pkg"] {
        let line = format_summary_dependency_line("local-pkg", spec);
        assert!(line.starts_with("+ local-pkg <- "));
        assert!(line.contains("local-pkg"));
    }
}

#[test]
fn prefixed_summary_stats_truncates_long_prefix_like_pnpm() {
    let line = format_prefixed_summary_stats("loooooooooooooooooooooooooooooooooong-pkg-4", 0, 1);
    assert!(line.starts_with("..."));
    assert!(line.contains("ong-pkg-4"));
    assert!(line.contains("|"));
}

#[test]
fn prefixed_summary_stats_caps_single_stat_symbol_bar() {
    let line = format_prefixed_summary_stats("pkg-1", 190, 0);
    assert_eq!(line, "pkg-1                                     | +190 ++++++++++++");
}

#[test]
fn prefixed_summary_stats_balances_added_and_removed_symbols() {
    let line = format_prefixed_summary_stats("pkg-1", 100, 1);
    assert_eq!(line, "pkg-1                                     | +100    -1 ++++++++-");
}

#[test]
fn prefixed_summary_stats_right_aligns_small_add_count_when_removed_dominates() {
    let line = format_prefixed_summary_stats("pkg-1", 1, 100);
    assert_eq!(line, "pkg-1                                     |    +1 -100 +--------");
}

#[test]
fn names_and_versions_are_parted() {
    assert_eq!(split_package_name_and_version("a@1.0.0"), ("a", Some("1.0.0")));
    assert_eq!(split_package_name_and_version("@s/a"), ("@s/a", None));
    assert_eq!(split_package_name_and_version("@s/a@^1"), ("@s/a", Some("^1")));
    assert_eq!(format_summary_dependency_line("a", "~1.0.0"), "+ a 1.0.0");
    assert_eq!(format_summary_dependency_line("a", "npm:b"), "+ a <- b");
    assert_eq!(format_summary_dependency_line("a", "file:../a"), "+ a <- ../a");
    assert_eq!(format_summary_dependency_line_with_prefix('-', "a", "1.0.0"), "- a 1.0.0");
    assert_eq!(
        format_prefixed_summary_stats("p", 0, 0),
        format!("{:<41} | ", "p")
    );
}

#[test]
fn an_installation_is_summed_up() {
    let manifest = obj(vec![
        ("dependencies", text_obj(&[("b", "^2.0.0"), ("a", "^1.0.0")])),
        ("devDependencies", text_obj(&[])),
    ]);
    let groups = vec![DependencyGroup::Prod, DependencyGroup::Dev];
    assert_eq!(
        format_summary(&manifest, &groups, 3, None, "1.5s", "0.0.1"),
        "Packages: +3\n+++\n\ndependencies:\n+ a 1.0.0\n+ b 2.0.0\n\nDone in 1.5s using pacquet v0.0.1\n"
    );
    assert_eq!(
        format_summary(&manifest, &groups, 0, None, "10ms", "0.0.1"),
        "Already up to date\n\nDone in 10ms using pacquet v0.0.1\n"
    );
    assert_eq!(
        format_summary(&manifest, &groups, 2, Some("pkg"), "10ms", "0.0.1"),
        format!("{:<41} | +2 ++\n", "pkg")
    );
    assert_eq!(format_summary(&manifest, &groups, 0, Some("pkg"), "10ms", "0.0.1"), "");
}
