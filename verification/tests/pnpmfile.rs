use pacquet_package_manager::json::Json;
use pacquet_package_manager::lockfile::DependencyGroup;
use pacquet_package_manager::pnpmfile::{
    HookOutput, HookStep, NodeReply, dependencies_from_manifest_value,
    dependencies_from_manifest_value_grouped, group_name, hook_reply, hook_step,
    load_catalogs_from_workspace, pnpmfile_exports_value, resolve_catalog_specifier,
    resolve_pnpmfile_path, take_hook_output,
};
use pacquet_package_manager::table::TextMap;
use pacquet_package_manager::value::Value;

fn s(text: &str) -> String {
    text.to_string()
}

fn texts(list: &[&str]) -> Vec<String> {
    list.iter().map(|text| text.to_string()).collect()
}

fn keys<V: Value>(map: &TextMap<V>) -> Vec<String> {
    (0..map.len()).map(|i| map.key_at(i).clone()).collect()
}

fn obj(fields: Vec<(&str, Json)>) -> Json {
    Json::Object(fields.into_iter().map(|(name, value)| (name.to_string(), value)).collect())
}

fn txt(text: &str) -> Json {
    Json::Text(text.to_string())
}

fn text_obj(fields: &[(&str, &str)]) -> Json {
    Json::Object(
        fields.iter().map(|(name, text)| (name.to_string(), Json::Text(text.to_string()))).collect(),
    )
}

#[test]
fn read_package_hook_can_mutate_dependencies() {
    let step = hook_step("/ws", None, false, true, false);
    assert!(matches!(step, HookStep::Run { pnpmfile } if pnpmfile == "/ws/.pnpmfile.cjs"));

    let payload = obj(vec![
        ("name", txt("app")),
        ("version", txt("1.0.0")),
        ("dependencies", text_obj(&[("left-pad", "1.3.0")])),
    ]);
    let output = HookOutput {
        result: Some(obj(vec![
            ("name", txt("app")),
            ("version", txt("1.0.0")),
            ("dependencies", text_obj(&[("left-pad", "1.3.0"), ("addedByHook", "1.2.3")])),
        ])),
        logs: Vec::new(),
    };
    let (hooked, _) = take_hook_output("readPackage", &payload, output);

    let deps = dependencies_from_manifest_value(&hooked, &vec![DependencyGroup::Prod]);
    assert!(deps.iter().any(|(name, spec)| name == "left-pad" && spec == "1.3.0"));
    assert!(deps.iter().any(|(name, spec)| name == "addedByHook" && spec == "1.2.3"));
}

#[test]
fn ignore_pnpmfile_skips_hook_execution() {
    assert!(matches!(hook_step("/ws", None, true, true, false), HookStep::Skip));

    let payload = text_obj(&[("name", "app"), ("version", "1.0.0")]);
    let nothing = HookOutput { result: None, logs: Vec::new() };
    let (hooked, _) = take_hook_output("readPackage", &payload, nothing);
    assert!(hooked.get("dependencies").is_none());
}

#[test]
fn after_all_resolved_hook_can_add_top_level_field() {
    let payload = text_obj(&[("lockfileVersion", "9.0")]);
    let output = HookOutput {
        result: Some(text_obj(&[("lockfileVersion", "9.0"), ("foo", "bar")])),
        logs: Vec::new(),
    };
    let (hooked, _) = take_hook_output("afterAllResolved", &payload, output);
    assert_eq!(hooked.get("foo").and_then(|value| value.as_str()), Some("bar"));
}

#[test]
fn pnpmfile_context_log_is_reported() {
    let payload = text_obj(&[("name", "app")]);
    let output = HookOutput { result: None, logs: texts(&["hello from hook"]) };
    assert_eq!(output.logs, texts(&["hello from hook"]));

    let (_, lines) = take_hook_output("readPackage", &payload, output);
    assert_eq!(lines, texts(&["readPackage: hello from hook"]));
}

#[test]
fn pnpmfile_exports_value_detects_undefined_export() {
    let reply = NodeReply { succeeded: true, stdout: s("undefined"), stderr: String::new() };
    assert_eq!(
        pnpmfile_exports_value("/ws/.pnpmfile.cjs", Some(&reply)).expect("inspect pnpmfile"),
        Some(false)
    );
}

#[test]
fn a_pnpmfile_that_fails_is_told() {
    let failed = || NodeReply { succeeded: false, stdout: s("x"), stderr: s(" boom\n") };
    assert_eq!(
        pnpmfile_exports_value("/ws/p.cjs", Some(&failed())),
        Err(s("Failed to inspect pnpmfile /ws/p.cjs: boom"))
    );
    assert_eq!(pnpmfile_exports_value("/ws/p.cjs", None), Ok(None));
    let defined = NodeReply { succeeded: true, stdout: s("defined\n"), stderr: String::new() };
    assert_eq!(pnpmfile_exports_value("/ws/p.cjs", Some(&defined)), Ok(Some(true)));
    assert_eq!(
        hook_reply("readPackage", failed()),
        Err(s(".pnpmfile.cjs readPackage hook failed: boom"))
    );
    assert_eq!(hook_reply("readPackage", defined), Ok(s("defined\n")));
}

#[test]
fn a_pnpmfile_lies_where_it_is_said_to() {
    assert_eq!(resolve_pnpmfile_path("/ws", None, false), "/ws/.pnpmfile.cjs");
    assert_eq!(resolve_pnpmfile_path("/ws", Some("p.cjs"), false), "/ws/p.cjs");
    assert_eq!(resolve_pnpmfile_path("/ws", Some("/p.cjs"), false), "/p.cjs");
    assert!(matches!(hook_step("/ws", None, false, false, false), HookStep::Skip));
}

#[test]
fn specifiers_may_refer_to_a_catalog() {
    let workspace = obj(vec![
        ("catalog", text_obj(&[("react", "^18.0.0")])),
        ("catalogs", obj(vec![("old", text_obj(&[("react", "^16.0.0")]))])),
    ]);
    let catalogs = load_catalogs_from_workspace(Some(&workspace));
    assert_eq!(keys(&catalogs), texts(&["default", "old"]));
    let resolve = |spec: &str, name: &str| resolve_catalog_specifier(spec, name, &catalogs);
    assert_eq!(resolve("catalog:", "react"), Ok(s("^18.0.0")));
    assert_eq!(resolve("catalog:default", "react"), Ok(s("^18.0.0")));
    assert_eq!(resolve("catalog:old", "react"), Ok(s("^16.0.0")));
    assert_eq!(resolve("^1.0.0", "react"), Ok(s("^1.0.0")));
    assert!(resolve("catalog:", "vue").is_err());
    assert!(resolve("catalog:none", "react").is_err());
    assert_eq!(load_catalogs_from_workspace(None).len(), 0);
}

#[test]
fn dependencies_are_listed_by_group() {
    let manifest = obj(vec![
        ("dependencies", text_obj(&[("a", "1")])),
        ("devDependencies", text_obj(&[("b", "2")])),
    ]);
    assert_eq!(
        dependencies_from_manifest_value_grouped(
            &manifest,
            &vec![DependencyGroup::Dev, DependencyGroup::Prod]
        ),
        vec![(DependencyGroup::Dev, s("b"), s("2")), (DependencyGroup::Prod, s("a"), s("1"))]
    );
    assert_eq!(group_name(DependencyGroup::Prod), "dependencies");
    assert_eq!(group_name(DependencyGroup::Dev), "devDependencies");
    assert_eq!(group_name(DependencyGroup::Optional), "optionalDependencies");
    assert_eq!(group_name(DependencyGroup::Peer), "peerDependencies");
}
