use pacquet_package_manager::registry_metadata_cache::{
    FetchedMetadata, MetadataStep, fetched_metadata, metadata_step, package_cache_file,
    registry_namespace,
};

#[test]
fn falls_back_to_cached_metadata_when_registry_fetch_fails() {
    let step = metadata_step("pkg", "/cache/pkg.json", true, false, false);
    assert!(matches!(step, MetadataStep::Fetch));
    let taken = fetched_metadata("pkg", Some("unreachable"), true);
    assert!(matches!(taken, FetchedMetadata::UseCached { warning } if warning
        == "Failed to fetch package metadata from registry for pkg, using cached metadata: unreachable"));
}

#[test]
fn cache_files_are_told_apart_by_registry_and_name() {
    assert_eq!(registry_namespace("https://registry.npmjs.org/"), "registry.npmjs.org");
    assert_eq!(registry_namespace("http://localhost:4873"), "localhost+4873");
    assert_eq!(registry_namespace("file:here"), "file+here");
    assert_eq!(
        package_cache_file("/cache", "https://registry.npmjs.org/", "@scope/pkg", false),
        "/cache/metadata-v1.3/registry.npmjs.org/@scope%2fpkg.json"
    );
}

#[test]
fn the_cache_serves_offline_installations() {
    let step = |cached, prefer, offline| {
        metadata_step("pkg", "/cache/pkg.json", cached, prefer, offline)
    };
    assert!(matches!(step(true, true, false), MetadataStep::UseCached));
    assert!(matches!(step(true, false, true), MetadataStep::UseCached));
    assert!(matches!(step(false, true, false), MetadataStep::Fetch));
    assert!(matches!(step(false, false, true), MetadataStep::Fail { message }
        if message == "Failed to resolve pkg in package mirror /cache/pkg.json"));
    assert!(matches!(fetched_metadata("pkg", None, true), FetchedMetadata::UseFresh));
    assert!(matches!(fetched_metadata("pkg", Some("gone"), false), FetchedMetadata::Fail { message }
        if message == "fetch package metadata from registry: gone"));
}

#[test]
fn packages_are_kept_apart() {
    let file = |name: &str| package_cache_file(
        "/cache",
        "https://registry.npmjs.org/",
        name,
        false,
    );
    assert_eq!(file("@s/a"), "/cache/metadata-v1.3/registry.npmjs.org/@s%2fa.json");
    assert_ne!(file("@s/a"), file("@sa"));
    assert_ne!(file("@s/a"), file("@s2fa"));
    assert_ne!(file("@s/af"), file("@s/a2f"));
    assert_eq!(file("@s/a"), file("@s%2fa"));
}
