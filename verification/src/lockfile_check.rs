//! Whether a lockfile still fits the settings and the manifests.
use crate::config::Npmrc;
use crate::json;
use crate::json::{Json, JsonModel};
use crate::lockfile;
use crate::lockfile::{Lockfile, LockfileModel, LockfileSettings};
use crate::object_hash;
use crate::table;
use crate::table::{Table, TextMap};
use crate::text;
use crate::value::Value;
use vstd::prelude::*;
use vstd::string::*;

verus! {

/// The catalogs of a workspace: for each its versions by alias.
pub type CatalogConfig = TextMap<TextMap<String>>;

pub type CatalogModel = Map<Seq<char>, Map<Seq<char>, Seq<char>>>;

/// What the settings and manifests of now ask of a lockfile.
#[derive(Debug)]
pub struct RuntimeLockfileConfig {
    pub settings: LockfileSettings,
    pub catalogs: CatalogConfig,
    pub overrides: Option<TextMap<String>>,
    pub package_extensions_checksum: Option<String>,
    pub pnpmfile_checksum: Option<String>,
}

/// The mathematical value of a [`RuntimeLockfileConfig`].
pub struct RuntimeModel {
    pub settings: LockfileSettings,
    pub catalogs: CatalogModel,
    pub overrides: Option<Map<Seq<char>, Seq<char>>>,
    pub package_extensions_checksum: Option<Seq<char>>,
    pub pnpmfile_checksum: Option<Seq<char>>,
}

impl DeepView for RuntimeLockfileConfig {
    type V = RuntimeModel;

    open spec fn deep_view(&self) -> RuntimeModel {
        RuntimeModel {
            settings: self.settings,
            catalogs: self.catalogs.deep_view(),
            overrides: self.overrides.deep_view(),
            package_extensions_checksum: self.package_extensions_checksum.deep_view(),
            pnpmfile_checksum: self.pnpmfile_checksum.deep_view(),
        }
    }
}

/// A map, or the empty one.
pub open spec fn or_empty<V>(map: Option<Map<Seq<char>, V>>) -> Map<Seq<char>, V> {
    match map {
        Some(map) => map,
        None => Map::empty(),
    }
}

/// The objects among the fields of an object, each as the texts among its
/// fields.
pub open spec fn nested_texts(value: JsonModel) -> CatalogModel {
    Map::new(
        |name: Seq<char>| json::field(value, name) is Some && json::field(value, name)->0 is Object,
        |name: Seq<char>| json::text_fields(json::field(value, name)->0),
    )
}

/// The catalogs of a workspace: those under `catalogs`, and `catalog`, which
/// goes by the name `default`.
pub open spec fn catalogs_of(workspace: Option<JsonModel>) -> CatalogModel {
    match workspace {
        None => Map::empty(),
        Some(root) => {
            let named = match json::field(root, "catalogs"@) {
                Some(catalogs) => nested_texts(catalogs),
                None => Map::empty(),
            };
            match json::field(root, "catalog"@) {
                Some(catalog) => {
                    let before = if named.dom().contains("default"@) {
                        named["default"@]
                    } else {
                        Map::empty()
                    };
                    named.insert("default"@, before.union_prefer_right(json::text_fields(catalog)))
                },
                None => named,
            }
        },
    }
}

/// The field of a field.
pub open spec fn path_field(value: Option<JsonModel>, first: Seq<char>, second: Seq<char>) -> Option<
    JsonModel,
> {
    match value {
        Some(value) => match json::field(value, first) {
            Some(inner) => json::field(inner, second),
            None => None,
        },
        None => None,
    }
}

/// The field of a value, if there is a value.
pub open spec fn field_of(value: Option<JsonModel>, name: Seq<char>) -> Option<JsonModel> {
    match value {
        Some(value) => json::field(value, name),
        None => None,
    }
}

/// The overrides: those of the workspace before those of the root manifest.
pub open spec fn overrides_of(workspace: Option<JsonModel>, package: Option<JsonModel>) -> Option<
    Map<Seq<char>, Seq<char>>,
> {
    let all = json::text_map(path_field(package, "pnpm"@, "overrides"@)).union_prefer_right(
        json::text_map(field_of(workspace, "overrides"@)),
    );
    if all == Map::<Seq<char>, Seq<char>>::empty() {
        None
    } else {
        Some(all)
    }
}

/// The fields of a value that is an object.
pub open spec fn object_fields(value: Option<JsonModel>) -> Map<Seq<char>, JsonModel> {
    match value {
        Some(JsonModel::Object(fields)) => fields,
        _ => Map::empty(),
    }
}

/// The fields of both objects, those of the second before those of the first.
pub open spec fn merged_objects(left: Option<JsonModel>, right: Option<JsonModel>) -> Option<
    JsonModel,
> {
    let all = object_fields(left).union_prefer_right(object_fields(right));
    if all == Map::<Seq<char>, JsonModel>::empty() {
        None
    } else {
        Some(JsonModel::Object(all))
    }
}

/// The checksum of a pnpmfile that exports something.
pub open spec fn pnpmfile_checksum_of(exports: Option<bool>, content: Option<Seq<char>>) -> Option<
    Seq<char>,
> {
    match (exports, content) {
        (Some(true), Some(content)) => Some(
            object_hash::checksum(text::replace_text(content, "\r\n"@, "\n"@)),
        ),
        _ => None,
    }
}

/// What the settings and manifests of now ask of a lockfile.
pub open spec fn runtime_config(
    config: Npmrc,
    workspace: Option<JsonModel>,
    package: Option<JsonModel>,
    pnpmfile_checksum: Option<Seq<char>>,
) -> RuntimeModel {
    RuntimeModel {
        settings: LockfileSettings {
            auto_install_peers: Some(config.auto_install_peers),
            exclude_links_from_lockfile: Some(config.exclude_links_from_lockfile),
            peers_suffix_max_length: Some(config.peers_suffix_max_length),
            inject_workspace_packages: Some(config.inject_workspace_packages),
        },
        catalogs: catalogs_of(workspace),
        overrides: overrides_of(workspace, package),
        package_extensions_checksum: object_hash::object_checksum(
            merged_objects(
                path_field(package, "pnpm"@, "packageExtensions"@),
                field_of(workspace, "packageExtensions"@),
            ),
        ),
        pnpmfile_checksum,
    }
}

/// The objects among the fields of an object, each as the texts among its
/// fields.
fn nested_string_map(value: &Json) -> (map: CatalogConfig)
    ensures
        map.deep_view() == nested_texts(value.deep_view()),
{
    let mut map: CatalogConfig = Table::new();
    let ghost model = value.deep_view();
    if let Json::Object(fields) = value {
        let ghost all = json::fields_model(fields@);
        let names = json::field_names(fields);
        let ghost listed = names.deep_view();
        let mut i: usize = 0;
        assert(model == JsonModel::Object(all));
        while i < names.len()
            invariant
                i <= names@.len(),
                listed == names.deep_view(),
                listed.to_set() == all.dom(),
                model == JsonModel::Object(all),
                all == json::fields_model(fields@),
                map.deep_view().submap_of(nested_texts(model)),
                forall|j: int|
                    0 <= j < i && nested_texts(model).dom().contains(#[trigger] listed[j])
                        ==> map.deep_view().dom().contains(listed[j]),
            decreases names@.len() - i,
        {
            let name = &names[i];
            assert(listed[i as int] == name@);
            if let Some(k) = json::find_field(fields, name.as_str()) {
                if let Json::Object(_) = &fields[k].1 {
                    let entries = json::json_string_map(Some(&fields[k].1));
                    let ghost before = map.deep_view();
                    map.insert(name.clone(), entries);
                    assert(nested_texts(model).dom().contains(name@));
                    assert(nested_texts(model)[name@] == entries.deep_view());
                    assert(map.deep_view().submap_of(nested_texts(model)));
                }
            }
            i = i + 1;
        }
        assert forall|name: Seq<char>| nested_texts(model).dom().contains(
            name,
        ) implies map.deep_view().dom().contains(name) by {
            assert(listed.to_set().contains(name));
            let j = listed.index_of(name);
            assert(listed[j] == name);
        }
    }
    assert(map.deep_view() =~= nested_texts(model));
    map
}

/// The field of a value, if there is a value.
fn get_field<'a>(value: Option<&'a Json>, name: &str) -> (found: Option<&'a Json>)
    ensures
        found.deep_view() == field_of(value.deep_view(), name@),
{
    match value {
        Some(value) => value.get(name),
        None => None,
    }
}

/// The field of a field.
fn get_path<'a>(value: Option<&'a Json>, first: &str, second: &str) -> (found: Option<&'a Json>)
    ensures
        found.deep_view() == path_field(value.deep_view(), first@, second@),
{
    get_field(get_field(value, first), second)
}

/// The catalogs of a workspace.
pub fn extract_catalogs(workspace_manifest: Option<&Json>) -> (catalogs: CatalogConfig)
    ensures
        catalogs.deep_view() == catalogs_of(workspace_manifest.deep_view()),
{
    let mut catalogs: CatalogConfig = match get_field(workspace_manifest, "catalogs") {
        Some(value) => nested_string_map(value),
        None => Table::new(),
    };
    if let Some(value) = get_field(workspace_manifest, "catalog") {
        let mut default: TextMap<String> = match catalogs.get_text("default") {
            Some(before) => before.duplicate(),
            None => Table::new(),
        };
        default.extend(&json::json_string_map(Some(value)));
        catalogs.insert(text::copy("default"), default);
    }
    catalogs
}

/// The overrides of a workspace.
pub fn extract_overrides_from_workspace(workspace_manifest: Option<&Json>) -> (overrides: TextMap<
    String,
>)
    ensures
        overrides.deep_view() == json::text_map(
            field_of(workspace_manifest.deep_view(), "overrides"@),
        ),
{
    json::json_string_map(get_field(workspace_manifest, "overrides"))
}

/// The overrides of the root manifest.
pub fn extract_overrides_from_package_json(package_json: Option<&Json>) -> (overrides: TextMap<
    String,
>)
    ensures
        overrides.deep_view() == json::text_map(
            path_field(package_json.deep_view(), "pnpm"@, "overrides"@),
        ),
{
    json::json_string_map(get_path(package_json, "pnpm", "overrides"))
}

proof fn lemma_fields_concat(first: Seq<(String, Json)>, second: Seq<(String, Json)>)
    ensures
        json::fields_model(first + second) == json::fields_model(second).union_prefer_right(
            json::fields_model(first),
        ),
    decreases second.len(),
{
    let a = json::fields_model(first);
    if second.len() == 0 {
        assert(first + second =~= first);
        assert(json::fields_model(second).union_prefer_right(a) =~= a);
    } else {
        let rest = second.drop_last();
        lemma_fields_concat(first, rest);
        assert((first + second).drop_last() =~= first + rest);
        assert((first + second).last() == second.last());
        assert(json::fields_model(first + second) =~= json::fields_model(
            second,
        ).union_prefer_right(a));
    }
}

/// The fields of a value that is an object.
fn copied_fields(value: Option<&Json>) -> (fields: Vec<(String, Json)>)
    ensures
        json::fields_model(fields@) == object_fields(value.deep_view()),
{
    if let Some(value) = value {
        let copy = value.duplicate();
        if let Json::Object(fields) = copy {
            return fields;
        }
    }
    Vec::new()
}

/// The fields of both objects, those of the second before those of the first.
pub fn merge_json_objects(left: Option<&Json>, right: Option<&Json>) -> (merged: Option<Json>)
    ensures
        merged.deep_view() == merged_objects(left.deep_view(), right.deep_view()),
{
    let mut fields = copied_fields(right);
    let mut others = copied_fields(left);
    let ghost a = fields@;
    let ghost b = others@;
    fields.append(&mut others);
    proof {
        lemma_fields_concat(a, b);
        assert(fields@ =~= a + b);
        json::lemma_no_fields(fields@);
    }
    if fields.len() == 0 {
        None
    } else {
        Some(Json::Object(fields))
    }
}

/// The checksum of a pnpmfile that exports something.
pub fn calculate_pnpmfile_checksum(exports_value: Option<bool>, content: Option<&str>) -> (sum:
    Option<String>)
    ensures
        sum.deep_view() == pnpmfile_checksum_of(exports_value, content.deep_view()),
{
    match (exports_value, content) {
        (Some(true), Some(content)) => {
            proof {
                reveal_strlit("\r\n");
            }
            let normalized = text::replace_all(content, "\r\n", "\n");
            Some(object_hash::text_checksum(normalized.as_str()))
        },
        _ => None,
    }
}

/// What the settings and manifests of now ask of a lockfile.
pub fn collect_runtime_lockfile_config(
    config: &Npmrc,
    workspace_manifest: Option<&Json>,
    root_package: Option<&Json>,
    pnpmfile_checksum: Option<String>,
) -> (runtime: RuntimeLockfileConfig)
    ensures
        runtime.deep_view() == runtime_config(
            *config,
            workspace_manifest.deep_view(),
            root_package.deep_view(),
            pnpmfile_checksum.deep_view(),
        ),
{
    let mut overrides = extract_overrides_from_package_json(root_package);
    overrides.extend(&extract_overrides_from_workspace(workspace_manifest));
    let overrides = if overrides.is_empty() {
        None
    } else {
        Some(overrides)
    };
    let package_extensions = merge_json_objects(
        get_path(root_package, "pnpm", "packageExtensions"),
        get_field(workspace_manifest, "packageExtensions"),
    );
    RuntimeLockfileConfig {
        settings: LockfileSettings {
            auto_install_peers: Some(config.auto_install_peers),
            exclude_links_from_lockfile: Some(config.exclude_links_from_lockfile),
            peers_suffix_max_length: Some(config.peers_suffix_max_length),
            inject_workspace_packages: Some(config.inject_workspace_packages),
        },
        catalogs: extract_catalogs(workspace_manifest),
        overrides,
        package_extensions_checksum: object_hash::hash_object_nullable_with_prefix(
            package_extensions.as_ref(),
        ),
        pnpmfile_checksum,
    }
}

/// An entry of a catalog in a lockfile is what the workspace says.
pub open spec fn entry_is_current(
    config: CatalogModel,
    catalog: Seq<char>,
    alias: Seq<char>,
    entry: JsonModel,
) -> bool {
    match json::as_text(json::field(entry, "specifier"@)) {
        Some(specifier) => config.dom().contains(catalog) && config[catalog].dom().contains(alias)
            && config[catalog][alias] == specifier,
        None => false,
    }
}

/// The entries of a catalog in a lockfile are what the workspace says.
pub open spec fn entries_are_current(
    config: CatalogModel,
    name: Seq<char>,
    entries: Map<Seq<char>, JsonModel>,
) -> bool {
    forall|alias: Seq<char>| #[trigger]
        entries.dom().contains(alias) ==> entry_is_current(config, name, alias, entries[alias])
}

/// A catalog of a lockfile is what the workspace says.
pub open spec fn catalog_is_current(
    config: CatalogModel,
    name: Seq<char>,
    catalog: JsonModel,
) -> bool {
    match catalog {
        JsonModel::Object(entries) => entries_are_current(config, name, entries),
        _ => false,
    }
}

/// Every one of some catalogs is what the workspace says.
pub open spec fn all_are_current(
    config: CatalogModel,
    catalogs: Map<Seq<char>, JsonModel>,
) -> bool {
    forall|name: Seq<char>| #[trigger]
        catalogs.dom().contains(name) ==> catalog_is_current(config, name, catalogs[name])
}

/// The catalogs of a lockfile are what the workspace says.
pub open spec fn catalogs_are_current(config: CatalogModel, snapshot: Option<JsonModel>) -> bool {
    match snapshot {
        None => true,
        Some(JsonModel::Object(catalogs)) => all_are_current(config, catalogs),
        Some(_) => false,
    }
}

fn is_current_entry(config: &CatalogConfig, catalog: &str, alias: &str, entry: &Json) -> (yes: bool)
    ensures
        yes == entry_is_current(config.deep_view(), catalog@, alias@, entry.deep_view()),
{
    let specifier = match entry.get("specifier") {
        Some(value) => value.as_str(),
        None => None,
    };
    match specifier {
        Some(specifier) => match config.get_text(catalog) {
            Some(entries) => match entries.get_text(alias) {
                Some(expected) => text::same_text(expected.as_str(), specifier),
                None => false,
            },
            None => false,
        },
        None => false,
    }
}

fn is_current_catalog(config: &CatalogConfig, name: &str, catalog: &Json) -> (yes: bool)
    ensures
        yes == catalog_is_current(config.deep_view(), name@, catalog.deep_view()),
{
    match catalog {
        Json::Object(fields) => {
            let ghost all = json::fields_model(fields@);
            let ghost model = config.deep_view();
            let aliases = json::field_names(fields);
            let ghost listed = aliases.deep_view();
            assert(catalog.deep_view() == JsonModel::Object(all));
            let mut i: usize = 0;
            while i < aliases.len()
                invariant
                    i <= aliases@.len(),
                    listed == aliases.deep_view(),
                    listed.to_set() == all.dom(),
                    all == json::fields_model(fields@),
                    model == config.deep_view(),
                    catalog.deep_view() == JsonModel::Object(all),
                    forall|j: int|
                        0 <= j < i ==> entry_is_current(
                            model,
                            name@,
                            #[trigger] listed[j],
                            all[listed[j]],
                        ),
                decreases aliases@.len() - i,
            {
                let alias = aliases[i].as_str();
                assert(listed[i as int] == alias@);
                assert(listed.to_set().contains(alias@));
                match json::find_field(fields, alias) {
                    Some(k) => {
                        if !is_current_entry(config, name, alias, &fields[k].1) {
                            assert(all.dom().contains(alias@));
                            assert(!entries_are_current(model, name@, all));
                            return false;
                        }
                    },
                    None => {
                        assert(false);
                    },
                }
                i = i + 1;
            }
            assert forall|alias: Seq<char>| #[trigger] all.dom().contains(
                alias,
            ) implies entry_is_current(model, name@, alias, all[alias]) by {
                assert(listed.to_set().contains(alias));
                let j = listed.index_of(alias);
                assert(listed[j] == alias);
            }
            true
        },
        _ => false,
    }
}

/// Whether the catalogs of a lockfile are what the workspace says.
pub fn all_catalogs_are_up_to_date(catalogs_config: &CatalogConfig, snapshot: Option<&Json>) -> (yes:
    bool)
    ensures
        yes == catalogs_are_current(catalogs_config.deep_view(), snapshot.deep_view()),
{
    let held = match snapshot {
        Some(held) => held,
        None => {
            return true;
        },
    };
    match held {
        Json::Object(fields) => {
            let ghost all = json::fields_model(fields@);
            let ghost model = catalogs_config.deep_view();
            let names = json::field_names(fields);
            let ghost listed = names.deep_view();
            assert(snapshot.deep_view() == Some(JsonModel::Object(all)));
            let mut i: usize = 0;
            while i < names.len()
                invariant
                    i <= names@.len(),
                    listed == names.deep_view(),
                    listed.to_set() == all.dom(),
                    all == json::fields_model(fields@),
                    model == catalogs_config.deep_view(),
                    snapshot.deep_view() == Some(JsonModel::Object(all)),
                    forall|j: int|
                        0 <= j < i ==> catalog_is_current(
                            model,
                            #[trigger] listed[j],
                            all[listed[j]],
                        ),
                decreases names@.len() - i,
            {
                let name = names[i].as_str();
                assert(listed[i as int] == name@);
                assert(listed.to_set().contains(name@));
                match json::find_field(fields, name) {
                    Some(k) => {
                        if !is_current_catalog(catalogs_config, name, &fields[k].1) {
                            assert(all.dom().contains(name@));
                            assert(!all_are_current(model, all));
                            return false;
                        }
                    },
                    None => {
                        assert(false);
                    },
                }
                i = i + 1;
            }
            assert forall|name: Seq<char>| #[trigger] all.dom().contains(
                name,
            ) implies catalog_is_current(model, name, all[name]) by {
                assert(listed.to_set().contains(name));
                let j = listed.index_of(name);
                assert(listed[j] == name);
            }
            true
        },
        _ => false,
    }
}

/// A value, or a default where there is none.
pub open spec fn value_or<T>(value: Option<T>, other: T) -> T {
    match value {
        Some(value) => value,
        None => other,
    }
}

/// The settings of a lockfile; without any, nothing is set.
pub open spec fn settings_of(lockfile: LockfileModel) -> LockfileSettings {
    value_or(
        lockfile.settings,
        LockfileSettings {
            auto_install_peers: None,
            exclude_links_from_lockfile: None,
            peers_suffix_max_length: None,
            inject_workspace_packages: None,
        },
    )
}

/// The first setting under which a lockfile was written that is not what it is
/// now.
pub open spec fn outdated_setting(lockfile: LockfileModel, runtime: RuntimeModel) -> Option<
    Seq<char>,
> {
    let then_settings = settings_of(lockfile);
    let now = runtime.settings;
    if !catalogs_are_current(runtime.catalogs, lockfile.catalogs) {
        Some("catalogs"@)
    } else if or_empty(lockfile.overrides) != or_empty(runtime.overrides) {
        Some("overrides"@)
    } else if lockfile.package_extensions_checksum != runtime.package_extensions_checksum {
        Some("packageExtensionsChecksum"@)
    } else if then_settings.auto_install_peers is Some && then_settings.auto_install_peers->0
        != value_or(now.auto_install_peers, false) {
        Some("settings.autoInstallPeers"@)
    } else if then_settings.exclude_links_from_lockfile is Some
        && then_settings.exclude_links_from_lockfile->0 != value_or(
        now.exclude_links_from_lockfile,
        false,
    ) {
        Some("settings.excludeLinksFromLockfile"@)
    } else if value_or(then_settings.peers_suffix_max_length, 1000) != value_or(
        now.peers_suffix_max_length,
        1000,
    ) {
        Some("settings.peersSuffixMaxLength"@)
    } else if lockfile.pnpmfile_checksum != runtime.pnpmfile_checksum {
        Some("pnpmfileChecksum"@)
    } else if value_or(then_settings.inject_workspace_packages, false) != value_or(
        now.inject_workspace_packages,
        false,
    ) {
        Some("settings.injectWorkspacePackages"@)
    } else {
        None
    }
}

fn map_or_empty(map: &Option<TextMap<String>>) -> (copy: TextMap<String>)
    ensures
        copy.deep_view() == or_empty(map.deep_view()),
{
    match map {
        Some(map) => map.duplicate(),
        None => Table::new(),
    }
}

/// The first setting under which a lockfile was written that is not what it is
/// now.
pub fn get_outdated_lockfile_setting(lockfile: &Lockfile, runtime: &RuntimeLockfileConfig) -> (setting:
    Option<&'static str>)
    ensures
        setting.deep_view() == outdated_setting(lockfile.deep_view(), runtime.deep_view()),
{
    if !all_catalogs_are_up_to_date(&runtime.catalogs, lockfile.catalogs.as_ref()) {
        return Some("catalogs");
    }
    if !map_or_empty(&lockfile.overrides).same(&map_or_empty(&runtime.overrides)) {
        return Some("overrides");
    }
    if !lockfile.package_extensions_checksum.same(&runtime.package_extensions_checksum) {
        return Some("packageExtensionsChecksum");
    }
    let before = match &lockfile.settings {
        Some(settings) => *settings,
        None => LockfileSettings {
            auto_install_peers: None,
            exclude_links_from_lockfile: None,
            peers_suffix_max_length: None,
            inject_workspace_packages: None,
        },
    };
    let now = &runtime.settings;
    if let Some(value) = before.auto_install_peers {
        if value != now.auto_install_peers.unwrap_or(false) {
            return Some("settings.autoInstallPeers");
        }
    }
    if let Some(value) = before.exclude_links_from_lockfile {
        if value != now.exclude_links_from_lockfile.unwrap_or(false) {
            return Some("settings.excludeLinksFromLockfile");
        }
    }
    if before.peers_suffix_max_length.unwrap_or(1000) != now.peers_suffix_max_length.unwrap_or(
        1000,
    ) {
        return Some("settings.peersSuffixMaxLength");
    }
    if !lockfile.pnpmfile_checksum.same(&runtime.pnpmfile_checksum) {
        return Some("pnpmfileChecksum");
    }
    if before.inject_workspace_packages.unwrap_or(false) != now.inject_workspace_packages.unwrap_or(
        false,
    ) {
        return Some("settings.injectWorkspacePackages");
    }
    None
}

/// A map that may be absent says something of a name.
pub open spec fn says<V>(map: Option<Map<Seq<char>, V>>, name: Seq<char>, value: V) -> bool {
    map is Some && map->0.dom().contains(name) && map->0[name] == value
}

/// Where a lockfile is found current, the overrides that it records are those that
/// are in force now: each of them is, with the same version, and no other is. One
/// that is in force and not recorded makes the lockfile outdated, even where it
/// records none at all.
pub proof fn law_current_lockfile_records_the_overrides(
    setting: Option<&'static str>,
    lockfile: Lockfile,
    runtime: RuntimeLockfileConfig,
    name: Seq<char>,
    version: Seq<char>,
)
    requires
        setting.deep_view() == outdated_setting(lockfile.deep_view(), runtime.deep_view()),
    ensures
        setting is None ==> (says(lockfile.overrides.deep_view(), name, version) <==> says(
            runtime.overrides.deep_view(),
            name,
            version,
        )),
        lockfile.overrides is None && says(runtime.overrides.deep_view(), name, version)
            ==> setting is Some,
        runtime.overrides is None && says(lockfile.overrides.deep_view(), name, version)
            ==> setting is Some,
{
    let recorded = or_empty(lockfile.overrides.deep_view());
    let wanted = or_empty(runtime.overrides.deep_view());
    assert(setting is None ==> (recorded.dom().contains(name) && recorded[name] == version
        <==> wanted.dom().contains(name) && wanted[name] == version));
}

/// Where a lockfile is found current, it was written with the package extensions
/// and the pnpmfile of now, and with the settings of now: one that it does not
/// record counts as the default where there is one, and else as unchanged.
pub proof fn law_current_lockfile_records_the_settings(
    setting: Option<&'static str>,
    lockfile: Lockfile,
    runtime: RuntimeLockfileConfig,
)
    requires
        setting.deep_view() == outdated_setting(lockfile.deep_view(), runtime.deep_view()),
        setting is None,
    ensures
        lockfile.package_extensions_checksum.deep_view()
            == runtime.package_extensions_checksum.deep_view(),
        lockfile.pnpmfile_checksum.deep_view() == runtime.pnpmfile_checksum.deep_view(),
        lockfile.settings matches Some(then) ==> {
            let now = runtime.settings;
            &&& then.auto_install_peers == Some(true) ==> now.auto_install_peers == Some(true)
            &&& then.auto_install_peers == Some(false) ==> now.auto_install_peers != Some(true)
            &&& then.exclude_links_from_lockfile == Some(true) ==> now.exclude_links_from_lockfile
                == Some(true)
            &&& then.exclude_links_from_lockfile == Some(false)
                ==> now.exclude_links_from_lockfile != Some(true)
            &&& then.peers_suffix_max_length is Some && now.peers_suffix_max_length is Some
                ==> then.peers_suffix_max_length == now.peers_suffix_max_length
            &&& then.inject_workspace_packages == Some(true) <==> now.inject_workspace_packages
                == Some(true)
        },
        lockfile.settings is None || lockfile.settings->0.peers_suffix_max_length is None ==> (
        runtime.settings.peers_suffix_max_length is None
            || runtime.settings.peers_suffix_max_length == Some(1000u64)),
        runtime.settings.peers_suffix_max_length is None ==> (lockfile.settings is None
            || lockfile.settings->0.peers_suffix_max_length is None
            || lockfile.settings->0.peers_suffix_max_length == Some(1000u64)),
        lockfile.settings is None ==> runtime.settings.inject_workspace_packages != Some(true),
{
}

/// Where a lockfile is found current, every entry of its catalogs is one of the
/// workspace, under the same catalog and name, with the same specifier.
pub proof fn law_current_lockfile_records_the_catalogs(
    setting: Option<&'static str>,
    lockfile: Lockfile,
    runtime: RuntimeLockfileConfig,
    catalogs: Map<Seq<char>, JsonModel>,
    catalog: Seq<char>,
    entries: Map<Seq<char>, JsonModel>,
    alias: Seq<char>,
)
    requires
        setting.deep_view() == outdated_setting(lockfile.deep_view(), runtime.deep_view()),
        lockfile.catalogs.deep_view() == Some(JsonModel::Object(catalogs)),
        catalogs.dom().contains(catalog),
    ensures
        setting is None ==> catalogs[catalog] is Object,
        setting is None && catalogs[catalog] == JsonModel::Object(entries)
            && entries.dom().contains(alias) ==> {
            &&& entries[alias] is Object
            &&& (entries[alias]->Object_0).dom().contains("specifier"@)
            &&& runtime.catalogs.deep_view().dom().contains(catalog)
            &&& runtime.catalogs.deep_view()[catalog].dom().contains(alias)
            &&& (entries[alias]->Object_0)["specifier"@] == JsonModel::Text(
                runtime.catalogs.deep_view()[catalog][alias],
            )
        },
{
    if setting is None && catalogs[catalog] == JsonModel::Object(entries)
        && entries.dom().contains(alias) {
        assert(catalog_is_current(runtime.catalogs.deep_view(), catalog, catalogs[catalog]));
        assert(entry_is_current(
            runtime.catalogs.deep_view(),
            catalog,
            alias,
            entries[alias],
        ));
    }
}

/// A lockfile that records what is in force is found current. Overrides that are
/// absent count as none, a setting that is not recorded counts as its default or as
/// unchanged, and a lockfile without catalogs agrees with any.
pub proof fn law_lockfile_that_agrees_is_current(
    setting: Option<&'static str>,
    lockfile: Lockfile,
    runtime: RuntimeLockfileConfig,
)
    requires
        setting.deep_view() == outdated_setting(lockfile.deep_view(), runtime.deep_view()),
        lockfile.catalogs.deep_view() matches Some(catalogs) ==> {
            &&& catalogs is Object
            &&& forall|catalog: Seq<char>| #[trigger]
                (catalogs->Object_0).dom().contains(catalog) ==> {
                    let entries = (catalogs->Object_0)[catalog];
                    let now = runtime.catalogs.deep_view()[catalog];
                    &&& entries is Object
                    &&& forall|alias: Seq<char>| #[trigger]
                        (entries->Object_0).dom().contains(alias) ==> {
                            let entry = (entries->Object_0)[alias];
                            &&& runtime.catalogs.deep_view().dom().contains(catalog)
                            &&& now.dom().contains(alias)
                            &&& entry is Object
                            &&& (entry->Object_0).dom().contains("specifier"@)
                            &&& (entry->Object_0)["specifier"@] == JsonModel::Text(now[alias])
                        }
                }
        },
        forall|name: Seq<char>, version: Seq<char>| #[trigger]
            says(lockfile.overrides.deep_view(), name, version) <==> says(
                runtime.overrides.deep_view(),
                name,
                version,
            ),
        lockfile.package_extensions_checksum.deep_view()
            == runtime.package_extensions_checksum.deep_view(),
        lockfile.pnpmfile_checksum.deep_view() == runtime.pnpmfile_checksum.deep_view(),
        lockfile.settings matches Some(then) ==> {
            let now = runtime.settings;
            &&& then.auto_install_peers is None || then.auto_install_peers
                == now.auto_install_peers
            &&& then.exclude_links_from_lockfile is None || then.exclude_links_from_lockfile
                == now.exclude_links_from_lockfile
            &&& then.peers_suffix_max_length == now.peers_suffix_max_length
                || then.peers_suffix_max_length is None && now.peers_suffix_max_length == Some(
                1000u64,
            )
            &&& then.inject_workspace_packages == now.inject_workspace_packages
                || then.inject_workspace_packages is None && now.inject_workspace_packages == Some(
                false,
            )
        },
        lockfile.settings is None ==> {
            &&& runtime.settings.peers_suffix_max_length is None
                || runtime.settings.peers_suffix_max_length == Some(1000u64)
            &&& runtime.settings.inject_workspace_packages != Some(true)
        },
    ensures
        setting is None,
{
    let recorded = or_empty(lockfile.overrides.deep_view());
    let wanted = or_empty(runtime.overrides.deep_view());
    assert forall|name: Seq<char>|
        #![trigger recorded.dom().contains(name)]
        #![trigger wanted.dom().contains(name)]
        recorded.dom().contains(name) <==> wanted.dom().contains(name) by {
        assert(says(lockfile.overrides.deep_view(), name, recorded[name]) <==> says(
            runtime.overrides.deep_view(),
            name,
            recorded[name],
        ));
        assert(says(lockfile.overrides.deep_view(), name, wanted[name]) <==> says(
            runtime.overrides.deep_view(),
            name,
            wanted[name],
        ));
    }
    assert forall|name: Seq<char>| recorded.dom().contains(name) implies recorded[name]
        == wanted[name] by {
        assert(says(lockfile.overrides.deep_view(), name, recorded[name]) <==> says(
            runtime.overrides.deep_view(),
            name,
            recorded[name],
        ));
    }
    assert(recorded =~= wanted);
    if let Some(JsonModel::Object(catalogs)) = lockfile.catalogs.deep_view() {
        let model = runtime.catalogs.deep_view();
        assert forall|catalog: Seq<char>| #[trigger]
            catalogs.dom().contains(catalog) implies catalog_is_current(
            model,
            catalog,
            catalogs[catalog],
        ) by {
            let entries = catalogs[catalog]->Object_0;
            assert forall|alias: Seq<char>| #[trigger]
                entries.dom().contains(alias) implies entry_is_current(
                model,
                catalog,
                alias,
                entries[alias],
            ) by {}
        }
    }
}

/// The setting that is told of a lockfile that is outdated is one that has changed.
pub proof fn law_outdated_setting_has_changed(
    setting: Option<&'static str>,
    lockfile: Lockfile,
    runtime: RuntimeLockfileConfig,
)
    requires
        setting.deep_view() == outdated_setting(lockfile.deep_view(), runtime.deep_view()),
        setting is Some,
    ensures
        ({
            let told = setting->0@;
            let then = match lockfile.settings {
                Some(then) => then,
                None => LockfileSettings {
                    auto_install_peers: None,
                    exclude_links_from_lockfile: None,
                    peers_suffix_max_length: None,
                    inject_workspace_packages: None,
                },
            };
            let now = runtime.settings;
            ||| told == "catalogs"@ && lockfile.catalogs is Some
            ||| told == "overrides"@ && lockfile.overrides.deep_view()
                != runtime.overrides.deep_view()
            ||| told == "packageExtensionsChecksum"@
                && lockfile.package_extensions_checksum.deep_view()
                != runtime.package_extensions_checksum.deep_view()
            ||| told == "settings.autoInstallPeers"@ && then.auto_install_peers is Some
                && then.auto_install_peers != now.auto_install_peers
            ||| told == "settings.excludeLinksFromLockfile"@
                && then.exclude_links_from_lockfile is Some && then.exclude_links_from_lockfile
                != now.exclude_links_from_lockfile
            ||| told == "settings.peersSuffixMaxLength"@ && then.peers_suffix_max_length
                != now.peers_suffix_max_length
            ||| told == "pnpmfileChecksum"@ && lockfile.pnpmfile_checksum.deep_view()
                != runtime.pnpmfile_checksum.deep_view()
            ||| told == "settings.injectWorkspacePackages"@ && then.inject_workspace_packages
                != now.inject_workspace_packages
        }),
{
}

/// An override of the workspace or of the root manifest is in force, and nothing
/// else is; where both say something of one name, the workspace does.
pub proof fn law_overrides_are_in_force(
    runtime: RuntimeLockfileConfig,
    config: Npmrc,
    workspace: Option<&Json>,
    package: Option<&Json>,
    pnpmfile_checksum: Option<String>,
    name: Seq<char>,
    version: Seq<char>,
)
    requires
        runtime.deep_view() == runtime_config(
            config,
            workspace.deep_view(),
            package.deep_view(),
            pnpmfile_checksum.deep_view(),
        ),
    ensures
        ({
            let by_workspace = match field_of(workspace.deep_view(), "overrides"@) {
                Some(JsonModel::Object(fields)) => fields,
                _ => Map::empty(),
            };
            let by_package = match path_field(package.deep_view(), "pnpm"@, "overrides"@) {
                Some(JsonModel::Object(fields)) => fields,
                _ => Map::empty(),
            };
            let in_workspace = by_workspace.dom().contains(name) && by_workspace[name] is Text;
            let in_package = by_package.dom().contains(name) && by_package[name] is Text;
            says(runtime.overrides.deep_view(), name, version) <==> (in_workspace
                && by_workspace[name] == JsonModel::Text(version) || !in_workspace && in_package
                && by_package[name] == JsonModel::Text(version))
        }),
        runtime.pnpmfile_checksum.deep_view() == pnpmfile_checksum.deep_view(),
        runtime.settings.auto_install_peers == Some(config.auto_install_peers),
        runtime.settings.exclude_links_from_lockfile == Some(config.exclude_links_from_lockfile),
        runtime.settings.peers_suffix_max_length == Some(config.peers_suffix_max_length),
        runtime.settings.inject_workspace_packages == Some(config.inject_workspace_packages),
{
    let all = json::text_map(
        path_field(package.deep_view(), "pnpm"@, "overrides"@),
    ).union_prefer_right(json::text_map(field_of(workspace.deep_view(), "overrides"@)));
    assert(all.dom().contains(name) ==> all != Map::<Seq<char>, Seq<char>>::empty());
}

/// The catalogs of a workspace are those that it names, and the one without a name,
/// which goes by `default` and comes before one that is named so.
pub proof fn law_catalogs_are_those_of_the_workspace(
    catalogs: CatalogConfig,
    workspace: Option<&Json>,
    catalog: Seq<char>,
    alias: Seq<char>,
    specifier: Seq<char>,
)
    requires
        catalogs.deep_view() == catalogs_of(workspace.deep_view()),
    ensures
        ({
            let root = match workspace.deep_view() {
                Some(JsonModel::Object(fields)) => fields,
                _ => Map::empty(),
            };
            let unnamed = if root.dom().contains("catalog"@) && root["catalog"@] is Object {
                root["catalog"@]->Object_0
            } else {
                Map::empty()
            };
            let all = if root.dom().contains("catalogs"@) && root["catalogs"@] is Object {
                root["catalogs"@]->Object_0
            } else {
                Map::empty()
            };
            let named = if all.dom().contains(catalog) && all[catalog] is Object {
                all[catalog]->Object_0
            } else {
                Map::empty()
            };
            let in_unnamed = catalog == "default"@ && unnamed.dom().contains(alias)
                && unnamed[alias] is Text;
            says(
                Some(
                    if catalogs.deep_view().dom().contains(catalog) {
                        catalogs.deep_view()[catalog]
                    } else {
                        Map::empty()
                    },
                ),
                alias,
                specifier,
            ) <==> (in_unnamed && unnamed[alias] == JsonModel::Text(specifier) || !in_unnamed
                && named.dom().contains(alias) && named[alias] == JsonModel::Text(specifier))
        }),
{
}

/// The fields of two objects that are merged are those of both; where both have one,
/// that of the second counts. Nothing comes of two objects without fields.
pub proof fn law_merged_objects_hold_both(
    merged: Option<Json>,
    left: Option<&Json>,
    right: Option<&Json>,
    name: Seq<char>,
)
    requires
        merged.deep_view() == merged_objects(left.deep_view(), right.deep_view()),
    ensures
        ({
            let first = match left.deep_view() {
                Some(JsonModel::Object(fields)) => fields,
                _ => Map::empty(),
            };
            let second = match right.deep_view() {
                Some(JsonModel::Object(fields)) => fields,
                _ => Map::empty(),
            };
            &&& merged.deep_view() is Some ==> merged.deep_view()->0 is Object
            &&& second.dom().contains(name) ==> merged.deep_view() is Some && says(
                Some(merged.deep_view()->0->Object_0),
                name,
                second[name],
            )
            &&& !second.dom().contains(name) && first.dom().contains(name)
                ==> merged.deep_view() is Some && says(
                Some(merged.deep_view()->0->Object_0),
                name,
                first[name],
            )
            &&& merged.deep_view() is Some && (merged.deep_view()->0->Object_0).dom().contains(name)
                ==> first.dom().contains(name) || second.dom().contains(name)
            &&& merged.deep_view() is None <==> first == Map::<Seq<char>, JsonModel>::empty()
                && second == Map::<Seq<char>, JsonModel>::empty()
        }),
{
    let first = object_fields(left.deep_view());
    let second = object_fields(right.deep_view());
    let all = first.union_prefer_right(second);
    let none = Map::<Seq<char>, JsonModel>::empty();
    if first == none && second == none {
        assert(all =~= none);
    }
    if all == none {
        assert forall|field: Seq<char>| !first.dom().contains(field) && !second.dom().contains(
            field,
        ) by {
            assert(!all.dom().contains(field));
        }
        assert(first =~= none);
        assert(second =~= none);
    }
    assert(all.dom().contains(name) ==> all != none);
}

/// The checksum of a pnpmfile is that of its lines, however they end, and there is
/// one only where the file is there and exports something.
pub proof fn law_pnpmfile_checksum(
    sum: Option<String>,
    exports: Option<bool>,
    content: Option<&str>,
)
    requires
        sum.deep_view() == pnpmfile_checksum_of(exports, content.deep_view()),
    ensures
        sum is Some <==> exports == Some(true) && content is Some,
        sum is Some ==> sum->0@ == object_hash::checksum(
            text::replace_text(content->0@, "\r\n"@, "\n"@),
        ),
{
}

} // verus!
