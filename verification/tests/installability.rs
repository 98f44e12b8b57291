use pacquet_package_manager::installability::{
    Installability, Machine, check_list, check_package_snapshot_installability,
    check_package_version_installability, current_cpu, current_os, demands_are_readable,
    engine_warning, installability_for_values, node_version, platform_warning,
    should_skip_optional_package_version,
};
use pacquet_package_manager::lockfile::{LockfileResolution, PackageSnapshot};
use pacquet_package_manager::registry::PackageVersion;
use pacquet_package_manager::semver::Version;
use pacquet_package_manager::table::TextMap;

fn s(text: &str) -> String {
    text.to_string()
}

fn texts(list: &[&str]) -> Vec<String> {
    list.iter().map(|text| text.to_string()).collect()
}

fn map(entries: &[(&str, &str)]) -> TextMap<String> {
    let mut map = TextMap::new();
    for (key, value) in entries {
        map.insert(key.to_string(), value.to_string());
    }
    map
}

fn ver(text: &str) -> Version {
    Version::parse(text).expect("a version")
}

fn snapshot() -> PackageSnapshot {
    PackageSnapshot {
        resolution: LockfileResolution::Tarball {
            tarball: "file:dummy.tgz".to_string(),
            integrity: None,
        },
        id: None,
        name: None,
        version: None,
        engines: None,
        cpu: None,
        os: None,
        libc: None,
        deprecated: None,
        has_bin: None,
        prepare: None,
        requires_build: None,
        bundled_dependencies: None,
        peer_dependencies: None,
        peer_dependencies_meta: None,
        dependencies: None,
        optional_dependencies: None,
        transitive_peer_dependencies: None,
        dev: None,
        optional: None,
    }
}

fn release(name: &str, version: &str) -> PackageVersion {
    PackageVersion {
        name: name.to_string(),
        version: ver(version),
        tarball: String::new(),
        integrity: None,
        virtual_store_name: format!("{name}@{version}").replace('/', "+"),
        regular_dependencies: TextMap::new(),
        optional_dependencies: TextMap::new(),
        peer_dependencies: None,
        optional_peers: Vec::new(),
        engines: None,
        cpu: None,
        os: None,
        libc: None,
        deprecated: None,
        has_bin: false,
    }
}

fn machine() -> Machine {
    Machine {
        os: "linux".to_string(),
        cpu: "x64".to_string(),
        libc: "glibc".to_string(),
        node: Version::parse("20.11.0"),
    }
}

#[test]
fn skips_optional_on_unsupported_os() {
    let mut package = release("pkg", "1.0.0");
    package.os = Some(texts(&["definitely-not-this-os"]));
    assert_eq!(
        check_package_version_installability(&package, true, &machine()).installability,
        Installability::SkipOptional
    );
}

#[test]
fn skips_optional_snapshot_on_unsupported_cpu() {
    let mut snapshot = snapshot();
    snapshot.resolution = LockfileResolution::Registry { integrity: s("sha512-Bw==") };
    snapshot.name = Some(s("pkg"));
    snapshot.version = Some(s("1.0.0"));
    snapshot.cpu = Some(texts(&["definitely-not-this-cpu"]));
    snapshot.optional = Some(true);
    assert_eq!(
        check_package_snapshot_installability("pkg@1.0.0", &snapshot, true, &machine())
            .installability,
        Installability::SkipOptional
    );
}

#[test]
fn allows_blacklist_only_when_current_not_listed() {
    assert!(check_list(&texts(&["linux"]), &texts(&["!darwin"])));
    assert!(!check_list(&texts(&["linux"]), &texts(&["!linux"])));
}

#[test]
fn normalizes_windows_os_name_like_pnpm() {
    assert_eq!(current_os("windows"), "win32");
    assert_ne!(current_os("linux"), "windows");
    assert_ne!(current_os("macos"), "windows");
}

#[test]
fn machines_are_called_as_packages_call_them() {
    assert_eq!(current_os("macos"), "darwin");
    assert_eq!(current_os("linux"), "linux");
    assert_eq!(current_cpu("x86_64"), "x64");
    assert_eq!(current_cpu("x86"), "ia32");
    assert_eq!(current_cpu("aarch64"), "arm64");
    assert_eq!(current_cpu("riscv64"), "riscv64");
    assert_eq!(node_version("v20.11.0\n").expect("a version").text(), "20.11.0");
    assert!(node_version("none").is_none());
}

#[test]
fn lists_admit_what_they_name() {
    let here = texts(&["linux"]);
    assert!(check_list(&here, &texts(&["any"])));
    assert!(check_list(&here, &texts(&["linux", "darwin"])));
    assert!(!check_list(&here, &texts(&["darwin"])));
    assert!(check_list(&here, &texts(&["!darwin", "!win32"])));
    assert!(!check_list(&here, &texts(&["linux", "!linux"])));
    assert!(check_list(&here, &texts(&["", "!darwin"])));
    assert!(check_list(&here, &texts(&[])));
}

#[test]
fn an_unsupported_platform_is_told() {
    let warning = platform_warning("pkg@1.0.0", None, Some(&texts(&["darwin", "a\"b"])), None, &machine());
    assert_eq!(
        warning,
        Some(s("Unsupported platform for pkg@1.0.0: wanted {\"cpu\":[\"any\"],\"os\":[\"darwin\",\"a\\\"b\"],\"libc\":[\"any\"]} (current: {\"os\":\"linux\",\"cpu\":\"x64\",\"libc\":\"glibc\"})"))
    );
    assert_eq!(platform_warning("pkg@1.0.0", None, None, Some(&texts(&["glibc"])), &machine()), None);
    assert!(platform_warning("pkg@1.0.0", None, None, Some(&texts(&["musl"])), &machine()).is_some());
    let mut unknown = machine();
    unknown.libc = s("unknown");
    assert_eq!(platform_warning("pkg@1.0.0", None, None, Some(&texts(&["musl"])), &unknown), None);
}

#[test]
fn an_unsupported_engine_is_told() {
    let node = ver("20.11.0");
    let wants = |range: &str| map(&[("node", range)]);
    assert_eq!(engine_warning("pkg@1.0.0", Some(&wants(">=18")), Some(&node)), None);
    assert_eq!(
        engine_warning("pkg@1.0.0", Some(&wants(">=22")), Some(&node)),
        Some(s("Unsupported engine for pkg@1.0.0: wanted: {\"node\":\">=22\"} (current: {\"node\":\"20.11.0\"})"))
    );
    assert_eq!(engine_warning("pkg@1.0.0", Some(&wants(">=22")), None), None);
    assert_eq!(engine_warning("pkg@1.0.0", Some(&map(&[("npm", ">=99")])), Some(&node)), None);
    assert_eq!(engine_warning("pkg@1.0.0", None, Some(&node)), None);
    assert_eq!(engine_warning("pkg@1.0.0", Some(&wants("what?")), Some(&node)), None);
}

#[test]
fn a_needed_package_is_installed_with_a_warning() {
    let mut package = release("pkg", "1.0.0");
    package.cpu = Some(texts(&["arm64"]));
    let verdict = check_package_version_installability(&package, false, &machine());
    assert_eq!(verdict.installability, Installability::Install);
    assert!(verdict.warning.is_some());
    assert_eq!(verdict.info, None);

    let verdict = check_package_version_installability(&package, true, &machine());
    assert_eq!(
        verdict.info,
        Some(s("pkg@1.0.0 is an optional dependency and failed compatibility check. Excluding it from installation."))
    );
    assert!(should_skip_optional_package_version(&package, &machine()));
    assert!(!should_skip_optional_package_version(&release("pkg", "1.0.0"), &machine()));
    let quiet = installability_for_values(
        None, package.cpu.as_ref(), None, None, "pkg@1.0.0", true, false, &machine(),
    );
    assert_eq!(quiet.installability, Installability::SkipOptional);
    assert_eq!((quiet.warning, quiet.info), (None, None));
}

#[test]
fn lists_are_told_as_json() {
    let odd = texts(&["a\\b\u{8}\t\n\u{c}\r\u{b}\u{1f}\u{7f}\u{e9}", ""]);
    let warning = platform_warning("pkg@1.0.0", None, Some(&odd), None, &machine());
    assert_eq!(
        warning,
        Some(s("Unsupported platform for pkg@1.0.0: wanted {\"cpu\":[\"any\"],\"os\":[\"a\\\\b\\b\\t\\n\\f\\r\\u000b\\u001f\u{7f}\u{e9}\",\"\"],\"libc\":[\"any\"]} (current: {\"os\":\"linux\",\"cpu\":\"x64\",\"libc\":\"glibc\"})"))
    );
}

#[test]
fn the_range_of_node_counts_only_where_the_platform_fits() {
    let engines = map(&[("node", "~x")]);
    let elsewhere = texts(&["win32"]);
    assert!(!demands_are_readable(Some(&engines), None, None, None, &machine()));
    assert!(demands_are_readable(Some(&engines), None, Some(&elsewhere), None, &machine()));
    assert!(demands_are_readable(Some(&map(&[("node", ">=18")])), None, None, None, &machine()));
    let verdict = installability_for_values(
        Some(&engines), None, Some(&elsewhere), None, "a@1.0.0", true, false, &machine(),
    );
    assert_eq!(verdict.installability, Installability::SkipOptional);
}
