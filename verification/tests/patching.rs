use pacquet_package_manager::json::Json;
use pacquet_package_manager::patching::{
    PatchStep, SelectedPatch, get_patch_info, group_patched_dependencies,
    manifest_patched_dependencies_for_lockfile, parse_patched_dependency_key, patch_applied,
    patch_step, raw_patched_dependencies, resolve_patch_file, selected_patch_for_package,
};
use pacquet_package_manager::table::TextMap;

fn s(text: &str) -> String {
    text.to_string()
}

fn map(entries: &[(&str, &str)]) -> TextMap<String> {
    let mut map = TextMap::new();
    for (key, value) in entries {
        map.insert(key.to_string(), value.to_string());
    }
    map
}

fn obj(fields: Vec<(&str, Json)>) -> Json {
    Json::Object(fields.into_iter().map(|(name, value)| (name.to_string(), value)).collect())
}

fn txt(text: &str) -> Json {
    Json::Text(text.to_string())
}

fn text_obj(fields: &[(&str, &str)]) -> Json {
    Json::Object(
        fields.iter().map(|(name, text)| (name.to_string(), Json::Text(text.to_string()))).collect(),
    )
}

#[test]
fn exact_patch_has_priority_over_legacy_bare_key() {
    let groups = group_patched_dependencies(
        "/ws",
        &map(&[("foo", "patches/foo.patch"), ("foo@1.0.0", "patches/foo@1.patch")]),
        false,
    )
    .expect("group patches");

    let patch = get_patch_info(&groups, "foo", "1.0.0").expect("get patch info").expect("patch");
    assert_eq!(patch.key, "foo@1.0.0");
    assert!(patch.strict);
}

#[test]
fn range_patch_matches_semver_and_remains_strict() {
    let groups = group_patched_dependencies(
        "/ws",
        &map(&[("foo@^1.0.0", "patches/foo.patch")]),
        false,
    )
        .expect("group patches");

    let patch = get_patch_info(&groups, "foo", "1.2.3").expect("get patch info").expect("patch");
    assert_eq!(patch.key, "foo@^1.0.0");
    assert!(patch.strict);
}

#[test]
fn overlapping_ranges_error_like_pnpm() {
    let groups = group_patched_dependencies(
        "/ws",
        &map(&[
            ("foo@^1.0.0", "patches/foo-a.patch"),
            ("foo@>=1.0.0 <2.0.0", "patches/foo-b.patch"),
        ]),
        false,
    )
    .expect("group patches");

    let error = get_patch_info(&groups, "foo", "1.2.3").expect_err("expected conflict");
    assert!(error.contains("Unable to choose between 2 version ranges"));
}

#[test]
fn bare_key_is_non_strict_legacy_match() {
    let groups = group_patched_dependencies("/ws", &map(&[("foo", "patches/foo.patch")]), false)
        .expect("group patches");

    let patch = get_patch_info(&groups, "foo", "9.9.9").expect("get patch info").expect("patch");
    assert_eq!(patch.key, "foo");
    assert_eq!(patch.file, "/ws/patches/foo.patch");
    assert!(!patch.strict);
}

#[test]
fn manifest_patched_dependencies_are_copied_to_lockfile_shape() {
    let manifest = obj(vec![
        ("name", txt("workspace")),
        (
            "pnpm",
            obj(vec![("patchedDependencies", text_obj(&[("foo@1.0.0", "patches/foo.patch")]))]),
        ),
    ]);
    let raw = raw_patched_dependencies("/ws/package.json", Some(&manifest)).expect("patches");

    let patched_dependencies =
        manifest_patched_dependencies_for_lockfile(
            "/ws",
            &raw,
            false,
        ).expect("lockfile patched deps");
    let kept = patched_dependencies.expect("patches");
    assert_eq!(kept.len(), 1);
    let file = kept.get_text("foo@1.0.0").and_then(|value| value.as_str());
    assert_eq!(file, Some("patches/foo.patch"));
}

#[test]
fn keys_name_a_package_and_what_is_patched() {
    assert_eq!(parse_patched_dependency_key("foo"), (s("foo"), None));
    assert_eq!(parse_patched_dependency_key("foo@1.0.0"), (s("foo"), Some(s("1.0.0"))));
    assert_eq!(parse_patched_dependency_key("@s/foo@^1"), (s("@s/foo"), Some(s("^1"))));
    assert_eq!(parse_patched_dependency_key("@s/foo"), (s("@s/foo"), None));
    assert_eq!(parse_patched_dependency_key("foo@"), (s("foo@"), None));
    assert_eq!(resolve_patch_file("/ws", "/abs.patch", false), "/abs.patch");
    assert_eq!(resolve_patch_file("/ws", "a.patch", false), "/ws/a.patch");
}

#[test]
fn a_key_that_stands_for_nothing_is_refused() {
    let error = group_patched_dependencies("/ws", &map(&[("foo@what?", "a.patch")]), false);
    assert!(matches!(error, Err(message) if message == "what? is not a valid semantic version range."));
    let error = manifest_patched_dependencies_for_lockfile(
        "/ws",
        &map(&[("foo@what?", "a.patch")]),
        false,
    );
    assert!(error.is_err());
    assert!(matches!(manifest_patched_dependencies_for_lockfile(
        "/ws",
        &map(&[]),
        false,
    ), Ok(None)));
}

#[test]
fn a_version_that_cannot_be_read_is_refused() {
    let groups = group_patched_dependencies(
        "/ws",
        &map(&[("foo@^1.0.0", "a.patch")]),
        false,
    ).expect("groups");
    let error = get_patch_info(&groups, "foo", "what?").expect_err("no version");
    assert!(error.starts_with("parse package version `what?` for foo: "));
    assert!(error.len() > "parse package version `what?` for foo: ".len());
    assert!(matches!(get_patch_info(&groups, "bar", "what?"), Ok(None)));
}

#[test]
fn a_star_is_strict_and_a_name_is_not() {
    let patch = selected_patch_for_package(
        "/ws",
        &map(&[("foo@*", "a.patch")]),
        "foo",
        "3.0.0",
        false,
    )
        .expect("patches")
        .expect("a patch");
    assert!(patch.strict);
    let none = selected_patch_for_package(
        "/ws",
        &map(&[("foo@^1.0.0", "a.patch")]),
        "foo",
        "3.0.0",
        false,
    );
    assert!(matches!(none, Ok(None)));
    assert!(matches!(selected_patch_for_package(
        "/ws",
        &map(&[]),
        "foo",
        "3.0.0",
        false,
    ), Ok(None)));
}

#[test]
fn manifests_name_patches_by_text() {
    let wrong = obj(vec![("pnpm", obj(vec![("patchedDependencies", txt("a"))]))]);
    assert!(matches!(raw_patched_dependencies("/ws/package.json", Some(&wrong)), Err(message)
        if message == "/ws/package.json: pnpm.patchedDependencies must be an object"));
    let wrong = obj(vec![(
        "pnpm",
        obj(vec![("patchedDependencies", obj(vec![("foo", Json::Bool(true))]))]),
    )]);
    assert!(matches!(raw_patched_dependencies("/ws/package.json", Some(&wrong)), Err(message)
        if message == "/ws/package.json: pnpm.patchedDependencies[\"foo\"] must be a string"));
    assert_eq!(raw_patched_dependencies("/ws/package.json", None).expect("none").len(), 0);
    assert_eq!(raw_patched_dependencies("/ws/package.json", Some(&obj(vec![]))).expect("none").len(), 0);
}

#[test]
fn a_patch_that_does_not_fit_is_refused_or_told() {
    let patch = |strict| SelectedPatch { key: s("foo"), file: s("/ws/a.patch"), strict };
    assert!(matches!(patch_step(&patch(true), "foo", "1.0.0", true, ""), PatchStep::Apply));
    assert!(matches!(patch_step(&patch(true), "foo", "1.0.0", false, " no\n"), PatchStep::Refuse { message }
        if message == "Could not apply patch /ws/a.patch to foo@1.0.0: no"));
    assert!(matches!(patch_step(&patch(false), "foo", "1.0.0", false, ""), PatchStep::Warn { message }
        if message == "Could not apply patch /ws/a.patch to foo@1.0.0"));
    assert_eq!(patch_applied(&patch(false), "foo", "1.0.0", true, "no"), Ok(()));
    assert_eq!(
        patch_applied(&patch(false), "foo", "1.0.0", false, "no"),
        Err(s("Could not apply patch /ws/a.patch to foo@1.0.0: no"))
    );
}

#[test]
fn the_parts_of_a_key_make_it_up_again() {
    for key in ["a@1", "@s/a@^1.0.0", "a", "@s/a", "@s/a@", "@odd@1"] {
        let (name, selector) = parse_patched_dependency_key(key);
        let again = match selector {
            Some(selector) => format!("{name}@{selector}"),
            None => name,
        };
        assert_eq!(again, key);
    }
}
