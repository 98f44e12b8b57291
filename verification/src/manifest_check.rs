//! Whether a lockfile still fits a manifest.
use crate::current_lockfile;
use crate::json;
use crate::json::{Json, JsonModel};
use crate::lockfile;
use crate::lockfile::{
    DependencyGroup, ProjectModel, ProjectSnapshot, ResolvedDependencyMap, ResolvedDependencyVersion,
};
use crate::lockfile_check;
use crate::semver;
use crate::semver::{Version, VersionModel};
use crate::table;
use crate::table::{Table, TextMap};
use crate::text;
use crate::value::Value;
use vstd::prelude::*;
use vstd::string::*;

verus! {

/// What the check reads of a manifest.
#[derive(Debug)]
pub struct ManifestSnapshot {
    pub dependencies: TextMap<String>,
    pub optional_dependencies: TextMap<String>,
    pub dev_dependencies: TextMap<String>,
    pub peer_dependencies: TextMap<String>,
    pub dependencies_meta: Json,
    pub publish_directory: Option<String>,
}

/// The mathematical value of a [`ManifestSnapshot`].
pub struct ManifestModel {
    pub dependencies: Map<Seq<char>, Seq<char>>,
    pub optional_dependencies: Map<Seq<char>, Seq<char>>,
    pub dev_dependencies: Map<Seq<char>, Seq<char>>,
    pub peer_dependencies: Map<Seq<char>, Seq<char>>,
    pub dependencies_meta: JsonModel,
    pub publish_directory: Option<Seq<char>>,
}

impl DeepView for ManifestSnapshot {
    type V = ManifestModel;

    open spec fn deep_view(&self) -> ManifestModel {
        ManifestModel {
            dependencies: self.dependencies.deep_view(),
            optional_dependencies: self.optional_dependencies.deep_view(),
            dev_dependencies: self.dev_dependencies.deep_view(),
            peer_dependencies: self.peer_dependencies.deep_view(),
            dependencies_meta: self.dependencies_meta.deep_view(),
            publish_directory: self.publish_directory.deep_view(),
        }
    }
}

/// An object without fields.
pub open spec fn empty_object() -> JsonModel {
    JsonModel::Object(Map::empty())
}

/// The directory that is published, as the manifest names it.
pub open spec fn publish_directory_of(manifest: JsonModel) -> Option<Seq<char>> {
    json::as_text(lockfile_check::path_field(Some(manifest), "publishConfig"@, "directory"@))
}

/// What the check reads of a manifest.
pub open spec fn manifest_of(manifest: JsonModel) -> ManifestModel {
    ManifestModel {
        dependencies: json::text_map(json::field(manifest, "dependencies"@)),
        optional_dependencies: json::text_map(json::field(manifest, "optionalDependencies"@)),
        dev_dependencies: json::text_map(json::field(manifest, "devDependencies"@)),
        peer_dependencies: json::text_map(json::field(manifest, "peerDependencies"@)),
        dependencies_meta: lockfile_check::value_or(
            json::field(manifest, "dependenciesMeta"@),
            empty_object(),
        ),
        publish_directory: publish_directory_of(manifest),
    }
}

fn empty_json_object() -> (object: Json)
    ensures
        object.deep_view() == empty_object(),
{
    let fields: Vec<(String, Json)> = Vec::new();
    assert(json::fields_model(fields@) =~= Map::empty());
    Json::Object(fields)
}

/// What the check reads of a manifest.
pub fn extract_manifest(manifest: &Json) -> (snapshot: ManifestSnapshot)
    ensures
        snapshot.deep_view() == manifest_of(manifest.deep_view()),
{
    let publish_directory = match manifest.get("publishConfig") {
        Some(publish_config) => match publish_config.get("directory") {
            Some(directory) => match directory.as_str() {
                Some(directory) => Some(text::copy(directory)),
                None => None,
            },
            None => None,
        },
        None => None,
    };
    ManifestSnapshot {
        dependencies: json::json_string_map(manifest.get("dependencies")),
        optional_dependencies: json::json_string_map(manifest.get("optionalDependencies")),
        dev_dependencies: json::json_string_map(manifest.get("devDependencies")),
        peer_dependencies: json::json_string_map(manifest.get("peerDependencies")),
        dependencies_meta: match manifest.get("dependenciesMeta") {
            Some(meta) => meta.duplicate(),
            None => empty_json_object(),
        },
        publish_directory,
    }
}

/// The importer knows this name: as a direct dependency or by a specifier.
pub open spec fn importer_has(project: ProjectModel, name: Seq<char>) -> bool {
    current_lockfile::has_direct(project, name) || project.specifiers is Some
        && project.specifiers->0.dom().contains(name)
}

/// The entries of `map` whose names are not in `others`.
pub open spec fn without_names(
    map: Map<Seq<char>, Seq<char>>,
    others: Map<Seq<char>, Seq<char>>,
) -> Map<Seq<char>, Seq<char>> {
    table::filtered(map, |name: Seq<char>, specifier: Seq<char>| !others.dom().contains(name))
}

/// The entries of `map` that the importer knows.
pub open spec fn known_names(
    map: Map<Seq<char>, Seq<char>>,
    project: ProjectModel,
) -> Map<Seq<char>, Seq<char>> {
    table::filtered(map, |name: Seq<char>, specifier: Seq<char>| importer_has(project, name))
}

/// The entries of `map`, without links where links are left out.
pub open spec fn without_links(map: Map<Seq<char>, Seq<char>>, exclude: bool) -> Map<
    Seq<char>,
    Seq<char>,
> {
    if exclude {
        table::filtered(
            map,
            |name: Seq<char>, specifier: Seq<char>| !text::starts_with(specifier, "link:"@),
        )
    } else {
        map
    }
}

/// What the manifest and the lockfile are held against each other by.
pub struct Wanted {
    pub specifiers: Map<Seq<char>, Seq<char>>,
    pub existing: Map<Seq<char>, Seq<char>>,
    pub dependencies: Map<Seq<char>, Seq<char>>,
    pub optional_dependencies: Map<Seq<char>, Seq<char>>,
    pub dev_dependencies: Map<Seq<char>, Seq<char>>,
}

/// All direct dependencies of the manifest; an optional one counts before a
/// regular one, and that before one for development.
pub open spec fn direct_of(manifest: ManifestModel) -> Map<Seq<char>, Seq<char>> {
    manifest.dev_dependencies.union_prefer_right(manifest.dependencies).union_prefer_right(
        manifest.optional_dependencies,
    )
}

/// What the manifest and the lockfile are held against each other by. Where
/// peers are installed by themselves, those that the importer knows count as
/// dependencies.
pub open spec fn wanted(
    project: ProjectModel,
    manifest: ManifestModel,
    auto_install_peers: bool,
    exclude_links: bool,
) -> Wanted {
    let direct = direct_of(manifest);
    let peers = known_names(manifest.peer_dependencies, project);
    let dependencies = if auto_install_peers {
        without_names(peers, direct).union_prefer_right(manifest.dependencies)
    } else {
        manifest.dependencies
    };
    let existing = if auto_install_peers {
        peers.union_prefer_right(direct)
    } else {
        direct
    };
    Wanted {
        specifiers: without_links(lockfile_check::or_empty(project.specifiers), exclude_links),
        existing: without_links(existing, exclude_links),
        dependencies: without_links(dependencies, exclude_links),
        optional_dependencies: without_links(manifest.optional_dependencies, exclude_links),
        dev_dependencies: without_links(manifest.dev_dependencies, exclude_links),
    }
}

/// What is wrong with the importer as a whole.
pub open spec fn importer_error(
    project: ProjectModel,
    manifest: ManifestModel,
    wanted: Wanted,
    strict: bool,
) -> Option<Seq<char>> {
    if strict && wanted.specifiers != wanted.existing {
        Some("specifiers in the lockfile don't match specifiers in package.json"@)
    } else if project.publish_directory != manifest.publish_directory {
        Some(
            "\"publishDirectory\" in the lockfile doesn't match \"publishConfig.directory\" in package.json"@,
        )
    } else if lockfile_check::value_or(project.dependencies_meta, empty_object())
        != manifest.dependencies_meta {
        Some("dependenciesMeta in the lockfile doesn't match package.json"@)
    } else {
        None
    }
}

/// How a group is called in a manifest.
pub open spec fn group_field(group: DependencyGroup) -> Seq<char> {
    match group {
        DependencyGroup::Prod => "dependencies"@,
        DependencyGroup::Optional => "optionalDependencies"@,
        DependencyGroup::Dev => "devDependencies"@,
        DependencyGroup::Peer => "peerDependencies"@,
    }
}

/// The dependencies that a group of the lockfile has to have: a name counts in
/// one group alone.
pub open spec fn group_wants(wanted: Wanted, group: DependencyGroup) -> Map<Seq<char>, Seq<char>> {
    match group {
        DependencyGroup::Prod => without_names(wanted.dependencies, wanted.optional_dependencies),
        DependencyGroup::Optional => wanted.optional_dependencies,
        DependencyGroup::Dev => without_names(
            without_names(wanted.dev_dependencies, wanted.optional_dependencies),
            wanted.dependencies,
        ),
        DependencyGroup::Peer => Map::empty(),
    }
}

/// The versions that the dependencies of a group were resolved to, as written.
pub open spec fn version_texts(map: ResolvedDependencyMap) -> Map<Seq<char>, Seq<char>> {
    table::map_of(
        Seq::new(
            map.pairs().len(),
            |i: int| (map.pairs()[i].0, lockfile::resolved_version_text(map.value(i).version)),
        ),
    )
}

/// The versions of a group of the lockfile, as written.
pub open spec fn group_versions(project: ProjectSnapshot, group: DependencyGroup) -> Map<
    Seq<char>,
    Seq<char>,
> {
    match lockfile::group_table(project, group) {
        Some(map) => version_texts(map),
        None => Map::empty(),
    }
}

/// A version that is no link.
pub open spec fn is_unlinked(version: Seq<char>) -> bool {
    !text::contains_text(version, "link:"@) && !text::contains_text(version, "file:"@)
}

/// The versions that are no links.
pub open spec fn unlinked(versions: Map<Seq<char>, Seq<char>>) -> Map<Seq<char>, Seq<char>> {
    table::filtered(versions, |name: Seq<char>, version: Seq<char>| is_unlinked(version))
}

/// There are as many versions as dependencies, with or without links.
pub open spec fn counts_fit(
    wants: Map<Seq<char>, Seq<char>>,
    versions: Map<Seq<char>, Seq<char>>,
) -> bool {
    wants.dom().len() == versions.dom().len() || wants.dom().len() == unlinked(versions).dom().len()
}

/// The version in a resolved version, without its peers.
pub open spec fn bare_version(version: Seq<char>) -> Option<VersionModel> {
    semver::parsed_version(version.subrange(0, text::first_index(version, '(')))
}

/// What is wrong with one dependency.
pub open spec fn dependency_error(
    specifiers: Map<Seq<char>, Seq<char>>,
    wants: Map<Seq<char>, Seq<char>>,
    versions: Map<Seq<char>, Seq<char>>,
    field: Seq<char>,
    name: Seq<char>,
    strict: bool,
) -> Option<Seq<char>> {
    let agreed = specifiers.dom().contains(name) && specifiers[name] == wants[name];
    if !versions.dom().contains(name) || strict && !agreed {
        Some(
            "importer "@ + field + "."@ + name + " specifier doesn't match package manifest"@,
        )
    } else if specifiers.dom().contains(name) && semver::range_parses(specifiers[name]) {
        match bare_version(versions[name]) {
            Some(version) => if semver::range_admits(specifiers[name], version) {
                None
            } else {
                Some(
                    "dependency \""@ + name + "\" is resolved to \""@ + semver::version_text(
                        version,
                    ) + "\" which doesn't satisfy \""@ + specifiers[name] + "\""@,
                )
            },
            None => None,
        }
    } else {
        None
    }
}

/// Nothing is wrong with a group.
pub open spec fn group_passes(
    specifiers: Map<Seq<char>, Seq<char>>,
    wants: Map<Seq<char>, Seq<char>>,
    versions: Map<Seq<char>, Seq<char>>,
    field: Seq<char>,
    strict: bool,
) -> bool {
    counts_fit(wants, versions) && forall|name: Seq<char>| #[trigger]
        wants.dom().contains(name) ==> dependency_error(
            specifiers,
            wants,
            versions,
            field,
            name,
            strict,
        ) is None
}

/// `message` tells something that is wrong with a group: the number of
/// dependencies or, if that fits, one of them.
pub open spec fn is_group_error(
    specifiers: Map<Seq<char>, Seq<char>>,
    wants: Map<Seq<char>, Seq<char>>,
    versions: Map<Seq<char>, Seq<char>>,
    field: Seq<char>,
    strict: bool,
    message: Seq<char>,
) -> bool {
    if !counts_fit(wants, versions) {
        message == "\""@ + field
            + "\" in the lockfile doesn't match the same field in package.json"@
    } else {
        exists|name: Seq<char>| #[trigger]
            wants.dom().contains(name) && dependency_error(
                specifiers,
                wants,
                versions,
                field,
                name,
                strict,
            ) == Some(message)
    }
}

/// Nothing is wrong with a group of the lockfile.
pub open spec fn passes(
    project: ProjectSnapshot,
    wanted: Wanted,
    group: DependencyGroup,
    strict: bool,
) -> bool {
    group_passes(
        wanted.specifiers,
        group_wants(wanted, group),
        group_versions(project, group),
        group_field(group),
        strict,
    )
}

/// `message` tells something that is wrong with a group of the lockfile.
pub open spec fn is_complaint(
    project: ProjectSnapshot,
    wanted: Wanted,
    group: DependencyGroup,
    strict: bool,
    message: Seq<char>,
) -> bool {
    is_group_error(
        wanted.specifiers,
        group_wants(wanted, group),
        group_versions(project, group),
        group_field(group),
        strict,
        message,
    )
}

/// `message` is what the check of an importer against its manifest says; none
/// means that they fit.
pub open spec fn is_verdict(
    project: ProjectSnapshot,
    manifest: ManifestModel,
    wanted: Wanted,
    strict: bool,
    message: Option<Seq<char>>,
) -> bool {
    if importer_error(project.deep_view(), manifest, wanted, strict) is Some {
        message == importer_error(project.deep_view(), manifest, wanted, strict)
    } else if !passes(project, wanted, DependencyGroup::Prod, strict) {
        message is Some && is_complaint(
            project,
            wanted,
            DependencyGroup::Prod,
            strict,
            message->0,
        )
    } else if !passes(project, wanted, DependencyGroup::Optional, strict) {
        message is Some && is_complaint(
            project,
            wanted,
            DependencyGroup::Optional,
            strict,
            message->0,
        )
    } else if !passes(project, wanted, DependencyGroup::Dev, strict) {
        message is Some && is_complaint(project, wanted, DependencyGroup::Dev, strict, message->0)
    } else {
        message is None
    }
}

/// The specifier that is recorded of a dependency is held against its version.
pub open spec fn is_compared(
    specifiers: Map<Seq<char>, Seq<char>>,
    wants: Map<Seq<char>, Seq<char>>,
    versions: Map<Seq<char>, Seq<char>>,
    name: Seq<char>,
    strict: bool,
) -> bool {
    &&& wants.dom().contains(name)
    &&& versions.dom().contains(name)
    &&& specifiers.dom().contains(name)
    &&& strict ==> specifiers[name] == wants[name]
}

/// The specifiers of a group that are held against versions can be read as
/// ranges or refused as such.
pub open spec fn ranges_readable(
    specifiers: Map<Seq<char>, Seq<char>>,
    wants: Map<Seq<char>, Seq<char>>,
    versions: Map<Seq<char>, Seq<char>>,
    strict: bool,
) -> bool {
    counts_fit(wants, versions) ==> forall|name: Seq<char>| #[trigger]
        is_compared(specifiers, wants, versions, name, strict) ==> !semver::range_is_unreadable(
            specifiers[name],
        )
}

/// The specifiers of a group of the lockfile can be read, as far as they are.
pub open spec fn group_readable(
    project: ProjectSnapshot,
    wanted: Wanted,
    group: DependencyGroup,
    strict: bool,
) -> bool {
    ranges_readable(
        wanted.specifiers,
        group_wants(wanted, group),
        group_versions(project, group),
        strict,
    )
}

/// The specifiers of an importer can be read, as far as they are: a group only
/// where nothing is wrong with those before it.
pub open spec fn specifiers_readable(
    project: ProjectSnapshot,
    manifest: ManifestModel,
    wanted: Wanted,
    strict: bool,
) -> bool {
    importer_error(project.deep_view(), manifest, wanted, strict) is None ==> {
        &&& group_readable(project, wanted, DependencyGroup::Prod, strict)
        &&& passes(project, wanted, DependencyGroup::Prod, strict) ==> {
            &&& group_readable(project, wanted, DependencyGroup::Optional, strict)
            &&& passes(project, wanted, DependencyGroup::Optional, strict) ==> group_readable(
                project,
                wanted,
                DependencyGroup::Dev,
                strict,
            )
        }
    }
}

fn names_not_in(map: &TextMap<String>, others: &TextMap<String>) -> (kept: TextMap<String>)
    ensures
        kept.deep_view() == without_names(map.deep_view(), others.deep_view()),
{
    let n: usize = map.len();
    let ghost pairs = map.pairs();
    let ghost model = others.deep_view();
    let mut marks: Vec<bool> = Vec::new();
    while marks.len() < n
        invariant
            n == pairs.len(),
            pairs == map.pairs(),
            model == others.deep_view(),
            marks@.len() <= n,
            forall|i: int|
                0 <= i < marks@.len() ==> #[trigger] marks@[i] == !model.dom().contains(pairs[i].0),
        decreases n - marks@.len(),
    {
        let mark = !others.contains_key(map.key_at(marks.len()));
        marks.push(mark);
    }
    proof {
        table::lemma_marked_filtered(
            pairs,
            marks@,
            |name: Seq<char>, specifier: Seq<char>| !model.dom().contains(name),
        );
    }
    map.keep(&marks)
}

fn group_has(map: &Option<ResolvedDependencyMap>, name: &String) -> (yes: bool)
    ensures
        yes == current_lockfile::has_alias(map.deep_view(), name@),
{
    match map {
        Some(map) => map.contains_key(name),
        None => false,
    }
}

fn names_known(map: &TextMap<String>, project: &ProjectSnapshot) -> (kept: TextMap<String>)
    ensures
        kept.deep_view() == known_names(map.deep_view(), project.deep_view()),
{
    let n: usize = map.len();
    let ghost pairs = map.pairs();
    let ghost model = project.deep_view();
    let mut marks: Vec<bool> = Vec::new();
    while marks.len() < n
        invariant
            n == pairs.len(),
            pairs == map.pairs(),
            model == project.deep_view(),
            marks@.len() <= n,
            forall|i: int|
                0 <= i < marks@.len() ==> #[trigger] marks@[i] == importer_has(model, pairs[i].0),
        decreases n - marks@.len(),
    {
        let name = map.key_at(marks.len());
        let specified = match &project.specifiers {
            Some(specifiers) => specifiers.contains_key(name),
            None => false,
        };
        let mark = group_has(&project.dependencies, name) || group_has(
            &project.optional_dependencies,
            name,
        ) || group_has(&project.dev_dependencies, name) || specified;
        marks.push(mark);
    }
    proof {
        table::lemma_marked_filtered(
            pairs,
            marks@,
            |name: Seq<char>, specifier: Seq<char>| importer_has(model, name),
        );
    }
    map.keep(&marks)
}

fn links_left_out(map: &TextMap<String>, exclude: bool) -> (kept: TextMap<String>)
    ensures
        kept.deep_view() == without_links(map.deep_view(), exclude),
{
    if !exclude {
        return map.duplicate();
    }
    let n: usize = map.len();
    let ghost pairs = map.pairs();
    let mut marks: Vec<bool> = Vec::new();
    while marks.len() < n
        invariant
            n == pairs.len(),
            pairs == map.pairs(),
            marks@.len() <= n,
            forall|i: int|
                0 <= i < marks@.len() ==> #[trigger] marks@[i] == !text::starts_with(
                    pairs[i].1,
                    "link:"@,
                ),
        decreases n - marks@.len(),
    {
        let mark = !text::has_prefix(map.value_at(marks.len()).as_str(), "link:");
        marks.push(mark);
    }
    proof {
        table::lemma_marked_filtered(
            pairs,
            marks@,
            |name: Seq<char>, specifier: Seq<char>| !text::starts_with(specifier, "link:"@),
        );
    }
    map.keep(&marks)
}

/// How many versions are no links.
pub fn count_non_linked_deps(versions: &TextMap<String>) -> (n: usize)
    ensures
        n == unlinked(versions.deep_view()).dom().len(),
{
    let n: usize = versions.len();
    let ghost pairs = versions.pairs();
    let mut marks: Vec<bool> = Vec::new();
    while marks.len() < n
        invariant
            n == pairs.len(),
            pairs == versions.pairs(),
            marks@.len() <= n,
            forall|i: int|
                0 <= i < marks@.len() ==> #[trigger] marks@[i] == is_unlinked(pairs[i].1),
        decreases n - marks@.len(),
    {
        let version = versions.value_at(marks.len()).as_str();
        let mark = !text::has_text(version, "link:") && !text::has_text(version, "file:");
        marks.push(mark);
    }
    proof {
        table::lemma_marked_filtered(
            pairs,
            marks@,
            |name: Seq<char>, version: Seq<char>| is_unlinked(version),
        );
    }
    let kept = versions.keep(&marks);
    let count = kept.len();
    proof {
        table::lemma_map_len(kept.pairs());
    }
    count
}

/// The versions of a group of the lockfile, as written.
pub fn resolved_map_to_versions(map: Option<&ResolvedDependencyMap>) -> (versions: TextMap<String>)
    ensures
        versions.deep_view() == (match map {
            Some(map) => version_texts(*map),
            None => Map::empty(),
        }),
{
    let mut versions: TextMap<String> = Table::new();
    if let Some(map) = map {
        let n: usize = map.len();
        let ghost pairs = map.pairs();
        let ghost texts = Seq::new(
            pairs.len(),
            |i: int| (pairs[i].0, lockfile::resolved_version_text(map.value(i).version)),
        );
        let mut i: usize = 0;
        while i < n
            invariant
                n == pairs.len(),
                pairs == map.pairs(),
                table::keys(pairs).no_duplicates(),
                i <= n,
                texts == Seq::new(
                    pairs.len(),
                    |i: int| (pairs[i].0, lockfile::resolved_version_text(map.value(i).version)),
                ),
                versions.pairs() == texts.take(i as int),
            decreases n - i,
        {
            let version = map.value_at(i).version.text();
            proof {
                table::lemma_put_next(pairs, versions.pairs(), i as int, version@);
            }
            versions.insert(map.key_at(i).clone(), version);
            i = i + 1;
            assert(versions.pairs() =~= texts.take(i as int));
        }
        assert(versions.pairs() =~= texts);
    }
    versions
}

/// The version in a resolved version, without its peers.
pub fn parse_semver_from_dep(value: &str) -> (version: Option<Version>)
    ensures
        version.deep_view() == bare_version(value@),
{
    match text::find_char(value, '(') {
        Some(i) => Version::parse(value.substring_char(0, i)),
        None => {
            assert(value@.subrange(0, value@.len() as int) =~= value@);
            Version::parse(value)
        },
    }
}

/// What is wrong with one dependency.
fn find_dependency_error(
    specifiers: &TextMap<String>,
    wants: &TextMap<String>,
    versions: &TextMap<String>,
    field: &str,
    name: &String,
    strict: bool,
) -> (error: Option<String>)
    requires
        wants.deep_view().dom().contains(name@),
        is_compared(
            specifiers.deep_view(),
            wants.deep_view(),
            versions.deep_view(),
            name@,
            strict,
        ) ==> !semver::range_is_unreadable(specifiers.deep_view()[name@]),
    ensures
        error.deep_view() == dependency_error(
            specifiers.deep_view(),
            wants.deep_view(),
            versions.deep_view(),
            field@,
            name@,
            strict,
        ),
{
    let specifier = specifiers.get(name);
    let agreed = match (specifier, wants.get(name)) {
        (Some(specifier), Some(wanted_specifier)) => specifier.same(wanted_specifier),
        _ => false,
    };
    let version = match versions.get(name) {
        Some(version) if !strict || agreed => version,
        _ => {
            return Some(
                text::copy("importer ").concat(field).concat(".").concat(name.as_str()).concat(
                    " specifier doesn't match package manifest",
                ),
            );
        },
    };
    if let Some(range) = specifier {
        if let Some(resolved) = parse_semver_from_dep(version.as_str()) {
            if let Some(false) = semver::satisfies(&resolved, range.as_str()) {
                let found = resolved.text();
                return Some(
                    text::copy("dependency \"").concat(name.as_str()).concat(
                        "\" is resolved to \"",
                    ).concat(found.as_str()).concat("\" which doesn't satisfy \"").concat(
                        range.as_str(),
                    ).concat("\""),
                );
            }
        }
    }
    None
}

/// What is wrong with a group.
fn find_group_error(
    specifiers: &TextMap<String>,
    wants: &TextMap<String>,
    versions: &TextMap<String>,
    field: &str,
    strict: bool,
) -> (error: Option<String>)
    requires
        ranges_readable(
            specifiers.deep_view(),
            wants.deep_view(),
            versions.deep_view(),
            strict,
        ),
    ensures
        match error {
            Some(message) => !group_passes(
                specifiers.deep_view(),
                wants.deep_view(),
                versions.deep_view(),
                field@,
                strict,
            ) && is_group_error(
                specifiers.deep_view(),
                wants.deep_view(),
                versions.deep_view(),
                field@,
                strict,
                message@,
            ),
            None => group_passes(
                specifiers.deep_view(),
                wants.deep_view(),
                versions.deep_view(),
                field@,
                strict,
            ),
        },
{
    let n: usize = wants.len();
    let ghost pairs = wants.pairs();
    let count: usize = versions.len();
    proof {
        table::lemma_map_len(pairs);
        table::lemma_map_len(versions.pairs());
    }
    if n != count && n != count_non_linked_deps(versions) {
        return Some(
            text::copy("\"").concat(field).concat(
                "\" in the lockfile doesn't match the same field in package.json",
            ),
        );
    }
    let mut i: usize = 0;
    while i < n
        invariant
            n == pairs.len(),
            pairs == wants.pairs(),
            table::keys(pairs).no_duplicates(),
            i <= n,
            counts_fit(wants.deep_view(), versions.deep_view()),
            ranges_readable(
                specifiers.deep_view(),
                wants.deep_view(),
                versions.deep_view(),
                strict,
            ),
            forall|j: int|
                0 <= j < i ==> dependency_error(
                    specifiers.deep_view(),
                    wants.deep_view(),
                    versions.deep_view(),
                    field@,
                    (#[trigger] pairs[j]).0,
                    strict,
                ) is None,
        decreases n - i,
    {
        proof {
            table::lemma_map_entry(pairs, i as int);
        }
        let name = wants.key_at(i);
        let error = find_dependency_error(specifiers, wants, versions, field, name, strict);
        if error.is_some() {
            assert(wants.deep_view().dom().contains(name@));
            return error;
        }
        i = i + 1;
    }
    assert forall|name: Seq<char>| #[trigger] wants.deep_view().dom().contains(
        name,
    ) implies dependency_error(
        specifiers.deep_view(),
        wants.deep_view(),
        versions.deep_view(),
        field@,
        name,
        strict,
    ) is None by {
        let j = table::lemma_map_index(pairs, name);
        assert(pairs[j].0 == name);
    }
    None
}

/// Whether the specifiers of a group that are held against versions can be read.
fn ranges_are_readable(
    specifiers: &TextMap<String>,
    wants: &TextMap<String>,
    versions: &TextMap<String>,
    strict: bool,
) -> (yes: bool)
    ensures
        yes == ranges_readable(
            specifiers.deep_view(),
            wants.deep_view(),
            versions.deep_view(),
            strict,
        ),
{
    let n: usize = wants.len();
    let ghost pairs = wants.pairs();
    let count: usize = versions.len();
    proof {
        table::lemma_map_len(pairs);
        table::lemma_map_len(versions.pairs());
    }
    if n != count && n != count_non_linked_deps(versions) {
        return true;
    }
    let mut i: usize = 0;
    while i < n
        invariant
            n == pairs.len(),
            pairs == wants.pairs(),
            table::keys(pairs).no_duplicates(),
            i <= n,
            counts_fit(wants.deep_view(), versions.deep_view()),
            forall|j: int|
                0 <= j < i && is_compared(
                    specifiers.deep_view(),
                    wants.deep_view(),
                    versions.deep_view(),
                    (#[trigger] pairs[j]).0,
                    strict,
                ) ==> !semver::range_is_unreadable(specifiers.deep_view()[pairs[j].0]),
        decreases n - i,
    {
        proof {
            table::lemma_map_entry(pairs, i as int);
        }
        let name = wants.key_at(i);
        if let Some(specifier) = specifiers.get(name) {
            let compared = versions.contains_key(name) && (!strict || specifier.same(
                wants.value_at(i),
            ));
            if compared && !semver::range_is_readable(specifier.as_str()) {
                assert(is_compared(
                    specifiers.deep_view(),
                    wants.deep_view(),
                    versions.deep_view(),
                    name@,
                    strict,
                ));
                return false;
            }
        }
        i = i + 1;
    }
    assert forall|name: Seq<char>| #[trigger]
        is_compared(
            specifiers.deep_view(),
            wants.deep_view(),
            versions.deep_view(),
            name,
            strict,
        ) implies !semver::range_is_unreadable(specifiers.deep_view()[name]) by {
        let j = table::lemma_map_index(pairs, name);
        assert(pairs[j].0 == name);
    }
    true
}

/// What the manifest and the lockfile are held against each other by.
struct WantedTables {
    specifiers: TextMap<String>,
    existing: TextMap<String>,
    dependencies: TextMap<String>,
    optional_dependencies: TextMap<String>,
    dev_dependencies: TextMap<String>,
}

impl WantedTables {
    spec fn model(&self) -> Wanted {
        Wanted {
            specifiers: self.specifiers.deep_view(),
            existing: self.existing.deep_view(),
            dependencies: self.dependencies.deep_view(),
            optional_dependencies: self.optional_dependencies.deep_view(),
            dev_dependencies: self.dev_dependencies.deep_view(),
        }
    }

    /// What is asked for of a group.
    fn group(&self, group: DependencyGroup) -> (wants: TextMap<String>)
        ensures
            wants.deep_view() == group_wants(self.model(), group),
    {
        match group {
            DependencyGroup::Prod => names_not_in(
                &self.dependencies,
                &self.optional_dependencies,
            ),
            DependencyGroup::Optional => self.optional_dependencies.duplicate(),
            DependencyGroup::Dev => names_not_in(
                &names_not_in(&self.dev_dependencies, &self.optional_dependencies),
                &self.dependencies,
            ),
            DependencyGroup::Peer => Table::new(),
        }
    }

    /// What is wrong with a group of the lockfile.
    fn find_error(
        &self,
        project_snapshot: &ProjectSnapshot,
        group: DependencyGroup,
        field: &str,
        strict: bool,
    ) -> (error: Option<String>)
        requires
            group_readable(*project_snapshot, self.model(), group, strict),
            field@ == group_field(group),
        ensures
            match error {
                Some(message) => !passes(*project_snapshot, self.model(), group, strict)
                    && is_complaint(
                    *project_snapshot,
                    self.model(),
                    group,
                    strict,
                    message@,
                ),
                None => passes(*project_snapshot, self.model(), group, strict),
            },
    {
        let wants = self.group(group);
        let versions = resolved_map_to_versions(project_snapshot.get_map_by_group(group));
        find_group_error(&self.specifiers, &wants, &versions, field, strict)
    }

    /// Whether the specifiers of a group of the lockfile can be read.
    fn is_readable(
        &self,
        project_snapshot: &ProjectSnapshot,
        group: DependencyGroup,
        strict: bool,
    ) -> (yes: bool)
        ensures
            yes == group_readable(*project_snapshot, self.model(), group, strict),
    {
        let wants = self.group(group);
        let versions = resolved_map_to_versions(project_snapshot.get_map_by_group(group));
        ranges_are_readable(&self.specifiers, &wants, &versions, strict)
    }
}

fn wanted_tables(
    project_snapshot: &ProjectSnapshot,
    manifest: &ManifestSnapshot,
    auto_install_peers: bool,
    exclude_links_from_lockfile: bool,
) -> (tables: WantedTables)
    ensures
        tables.model() == wanted(
            project_snapshot.deep_view(),
            manifest.deep_view(),
            auto_install_peers,
            exclude_links_from_lockfile,
        ),
{
    let mut existing = manifest.dev_dependencies.duplicate();
    existing.extend(&manifest.dependencies);
    existing.extend(&manifest.optional_dependencies);
    let mut dependencies = manifest.dependencies.duplicate();
    if auto_install_peers {
        let peers = names_known(&manifest.peer_dependencies, project_snapshot);
        let mut with_peers = names_not_in(&peers, &existing);
        with_peers.extend(&manifest.dependencies);
        dependencies = with_peers;
        let mut with_existing = peers;
        with_existing.extend(&existing);
        existing = with_existing;
    }
    let recorded = match &project_snapshot.specifiers {
        Some(specifiers) => specifiers.duplicate(),
        None => Table::new(),
    };
    WantedTables {
        specifiers: links_left_out(&recorded, exclude_links_from_lockfile),
        existing: links_left_out(&existing, exclude_links_from_lockfile),
        dependencies: links_left_out(&dependencies, exclude_links_from_lockfile),
        optional_dependencies: links_left_out(
            &manifest.optional_dependencies,
            exclude_links_from_lockfile,
        ),
        dev_dependencies: links_left_out(&manifest.dev_dependencies, exclude_links_from_lockfile),
    }
}

/// What is wrong with the importer as a whole.
fn find_importer_error(
    project_snapshot: &ProjectSnapshot,
    manifest: &ManifestSnapshot,
    wanted: &WantedTables,
    strict: bool,
) -> (error: Option<String>)
    ensures
        error.deep_view() == importer_error(
            project_snapshot.deep_view(),
            manifest.deep_view(),
            wanted.model(),
            strict,
        ),
{
    if strict && !wanted.specifiers.same(&wanted.existing) {
        return Some(
            text::copy("specifiers in the lockfile don't match specifiers in package.json"),
        );
    }
    if !project_snapshot.publish_directory.same(&manifest.publish_directory) {
        return Some(
            text::copy(
                "\"publishDirectory\" in the lockfile doesn't match \"publishConfig.directory\" in package.json",
            ),
        );
    }
    let importer_meta = match &project_snapshot.dependencies_meta {
        Some(meta) => meta.duplicate(),
        None => empty_json_object(),
    };
    if !importer_meta.same(&manifest.dependencies_meta) {
        return Some(text::copy("dependenciesMeta in the lockfile doesn't match package.json"));
    }
    None
}

/// Whether the specifiers of an importer can be read, as far as they are when it
/// is held against its manifest.
pub fn specifiers_are_readable(
    project_snapshot: &ProjectSnapshot,
    manifest: &Json,
    auto_install_peers: bool,
    exclude_links_from_lockfile: bool,
    strict_specifier_match: bool,
) -> (yes: bool)
    ensures
        yes == specifiers_readable(
            *project_snapshot,
            manifest_of(manifest.deep_view()),
            wanted(
                project_snapshot.deep_view(),
                manifest_of(manifest.deep_view()),
                auto_install_peers,
                exclude_links_from_lockfile,
            ),
            strict_specifier_match,
        ),
{
    let manifest = extract_manifest(manifest);
    let wanted = wanted_tables(
        project_snapshot,
        &manifest,
        auto_install_peers,
        exclude_links_from_lockfile,
    );
    if find_importer_error(
        project_snapshot,
        &manifest,
        &wanted,
        strict_specifier_match,
    ).is_some() {
        return true;
    }
    if !wanted.is_readable(project_snapshot, DependencyGroup::Prod, strict_specifier_match) {
        return false;
    }
    if wanted.find_error(
        project_snapshot,
        DependencyGroup::Prod,
        "dependencies",
        strict_specifier_match,
    ).is_some() {
        return true;
    }
    if !wanted.is_readable(project_snapshot, DependencyGroup::Optional, strict_specifier_match) {
        return false;
    }
    if wanted.find_error(
        project_snapshot,
        DependencyGroup::Optional,
        "optionalDependencies",
        strict_specifier_match,
    ).is_some() {
        return true;
    }
    wanted.is_readable(project_snapshot, DependencyGroup::Dev, strict_specifier_match)
}

/// Whether an importer of a lockfile still fits its manifest, and if not, why.
pub fn satisfies_package_manifest(
    project_snapshot: &ProjectSnapshot,
    manifest: &Json,
    auto_install_peers: bool,
    exclude_links_from_lockfile: bool,
    strict_specifier_match: bool,
) -> (result: Result<(), String>)
    requires
        specifiers_readable(
            *project_snapshot,
            manifest_of(manifest.deep_view()),
            wanted(
                project_snapshot.deep_view(),
                manifest_of(manifest.deep_view()),
                auto_install_peers,
                exclude_links_from_lockfile,
            ),
            strict_specifier_match,
        ),
    ensures
        is_verdict(
            *project_snapshot,
            manifest_of(manifest.deep_view()),
            wanted(
                project_snapshot.deep_view(),
                manifest_of(manifest.deep_view()),
                auto_install_peers,
                exclude_links_from_lockfile,
            ),
            strict_specifier_match,
            match result {
                Ok(_) => None,
                Err(message) => Some(message@),
            },
        ),
{
    let manifest = extract_manifest(manifest);
    let wanted = wanted_tables(
        project_snapshot,
        &manifest,
        auto_install_peers,
        exclude_links_from_lockfile,
    );
    if let Some(message) = find_importer_error(
        project_snapshot,
        &manifest,
        &wanted,
        strict_specifier_match,
    ) {
        return Err(message);
    }
    if let Some(message) = wanted.find_error(
        project_snapshot,
        DependencyGroup::Prod,
        "dependencies",
        strict_specifier_match,
    ) {
        return Err(message);
    }
    if let Some(message) = wanted.find_error(
        project_snapshot,
        DependencyGroup::Optional,
        "optionalDependencies",
        strict_specifier_match,
    ) {
        return Err(message);
    }
    if let Some(message) = wanted.find_error(
        project_snapshot,
        DependencyGroup::Dev,
        "devDependencies",
        strict_specifier_match,
    ) {
        return Err(message);
    }
    Ok(())
}

/// Whether an importer of a lockfile still fits its manifest, and if not, why;
/// nothing where a specifier is met that cannot be read without harm.
pub fn check_package_manifest(
    project_snapshot: &ProjectSnapshot,
    manifest: &Json,
    auto_install_peers: bool,
    exclude_links_from_lockfile: bool,
    strict_specifier_match: bool,
) -> (checked: Option<Result<(), String>>)
    ensures
        checked is Some <==> specifiers_readable(
            *project_snapshot,
            manifest_of(manifest.deep_view()),
            wanted(
                project_snapshot.deep_view(),
                manifest_of(manifest.deep_view()),
                auto_install_peers,
                exclude_links_from_lockfile,
            ),
            strict_specifier_match,
        ),
        checked matches Some(result) ==> is_verdict(
            *project_snapshot,
            manifest_of(manifest.deep_view()),
            wanted(
                project_snapshot.deep_view(),
                manifest_of(manifest.deep_view()),
                auto_install_peers,
                exclude_links_from_lockfile,
            ),
            strict_specifier_match,
            match result {
                Ok(_) => None,
                Err(message) => Some(message@),
            },
        ),
{
    if !specifiers_are_readable(
        project_snapshot,
        manifest,
        auto_install_peers,
        exclude_links_from_lockfile,
        strict_specifier_match,
    ) {
        return None;
    }
    Some(
        satisfies_package_manifest(
            project_snapshot,
            manifest,
            auto_install_peers,
            exclude_links_from_lockfile,
            strict_specifier_match,
        ),
    )
}

/// Where specifiers have to agree, an importer that fits its manifest records
/// every dependency as the manifest asks for it.
pub proof fn law_strict_fit_agrees(
    project: ProjectSnapshot,
    manifest: ManifestModel,
    wanted: Wanted,
    group: DependencyGroup,
    name: Seq<char>,
)
    requires
        is_verdict(project, manifest, wanted, true, None),
        group is Prod || group is Optional || group is Dev,
        group_wants(wanted, group).dom().contains(name),
    ensures
        wanted.specifiers == wanted.existing,
        wanted.specifiers.dom().contains(name),
        wanted.specifiers[name] == group_wants(wanted, group)[name],
        group_versions(project, group).dom().contains(name),
{
    assert(passes(project, wanted, group, true));
    assert(dependency_error(
        wanted.specifiers,
        group_wants(wanted, group),
        group_versions(project, group),
        group_field(group),
        name,
        true,
    ) is None);
}

/// A manifest asks for something in one of its fields.
pub open spec fn manifest_asks(
    manifest: JsonModel,
    field: Seq<char>,
    name: Seq<char>,
    specifier: Seq<char>,
) -> bool {
    &&& manifest is Object && (manifest->Object_0).dom().contains(field)
    &&& (manifest->Object_0)[field] is Object
    &&& ((manifest->Object_0)[field]->Object_0).dom().contains(name)
    &&& ((manifest->Object_0)[field]->Object_0)[name] == JsonModel::Text(specifier)
}

/// A manifest names something in one of its fields.
pub open spec fn manifest_names(manifest: JsonModel, field: Seq<char>, name: Seq<char>) -> bool {
    exists|specifier: Seq<char>| manifest_asks(manifest, field, name, specifier)
}

/// A group of an importer has something under a name, in this version.
pub open spec fn group_records(
    map: Option<ResolvedDependencyMap>,
    name: Seq<char>,
    version: ResolvedDependencyVersion,
) -> bool {
    map is Some && exists|i: int|
        0 <= i < map->0.pairs().len() && (#[trigger] map->0.pairs()[i]).0 == name
            && map->0.value(i).version == version
}

/// A group of an importer has something under a name that fits the recorded
/// specifier: where that is a range and the version, without its peers, can be read,
/// the range admits the version.
pub open spec fn records_what_fits(
    map: Option<ResolvedDependencyMap>,
    name: Seq<char>,
    specifiers: Option<Map<Seq<char>, Seq<char>>>,
) -> bool {
    exists|version: ResolvedDependencyVersion| #[trigger]
        group_records(map, name, version) && (specifiers is Some && specifiers->0.dom().contains(
            name,
        ) && semver::range_parses(specifiers->0[name]) ==> match bare_version(
            lockfile::resolved_version_text(version),
        ) {
            Some(number) => semver::range_admits(specifiers->0[name], number),
            None => true,
        })
}

proof fn lemma_version_texts(map: ResolvedDependencyMap, name: Seq<char>)
    requires
        version_texts(map).dom().contains(name),
    ensures
        exists|version: ResolvedDependencyVersion| #[trigger]
            group_records(Some(map), name, version) && version_texts(map)[name]
                == lockfile::resolved_version_text(version),
{
    let pairs = Seq::new(
        map.pairs().len(),
        |i: int| (map.pairs()[i].0, lockfile::resolved_version_text(map.value(i).version)),
    );
    let i = table::keys(pairs).index_of(name);
    assert(table::keys(pairs)[i] == name);
    assert(map.pairs()[i].0 == name);
    assert(group_records(Some(map), name, map.value(i).version));
}

proof fn lemma_asked_text(manifest: JsonModel, field: Seq<char>, name: Seq<char>)
    ensures
        json::text_map(json::field(manifest, field)).dom().contains(name) <==> manifest_names(
            manifest,
            field,
            name,
        ),
        forall|specifier: Seq<char>| #[trigger]
            manifest_asks(manifest, field, name, specifier) <==> json::text_map(
                json::field(manifest, field),
            ).dom().contains(name) && json::text_map(json::field(manifest, field))[name]
                == specifier,
{
    let texts = json::text_map(json::field(manifest, field));
    if texts.dom().contains(name) {
        assert(manifest_asks(manifest, field, name, texts[name]));
    }
}

/// What the check of an importer against its manifest says.
pub open spec fn is_checked(
    result: Result<(), String>,
    project: ProjectSnapshot,
    manifest: JsonModel,
    auto_install_peers: bool,
    exclude_links: bool,
    strict: bool,
) -> bool {
    is_verdict(
        project,
        manifest_of(manifest),
        wanted(project.deep_view(), manifest_of(manifest), auto_install_peers, exclude_links),
        strict,
        match result {
            Ok(_) => None,
            Err(message) => Some(message@),
        },
    )
}

/// Where an importer fits its manifest, everything that the manifest asks for is
/// recorded, in its own group and in a version that the recorded specifier admits. An
/// optional dependency comes before a needed one of the same name, and that before one
/// for development; a link is left out where links are.
pub proof fn law_fitting_importer_records_what_is_asked_for(
    result: Result<(), String>,
    project: ProjectSnapshot,
    manifest: JsonModel,
    auto_install_peers: bool,
    exclude_links: bool,
    strict: bool,
    name: Seq<char>,
    specifier: Seq<char>,
)
    requires
        is_checked(result, project, manifest, auto_install_peers, exclude_links, strict),
        result is Ok,
        !exclude_links,
    ensures
        manifest_asks(manifest, "optionalDependencies"@, name, specifier) ==> records_what_fits(
            project.optional_dependencies,
            name,
            project.specifiers.deep_view(),
        ),
        manifest_asks(manifest, "dependencies"@, name, specifier) && !manifest_names(
            manifest,
            "optionalDependencies"@,
            name,
        ) ==> records_what_fits(project.dependencies, name, project.specifiers.deep_view()),
        manifest_asks(manifest, "devDependencies"@, name, specifier) && !manifest_names(
            manifest,
            "optionalDependencies"@,
            name,
        ) && !manifest_names(manifest, "dependencies"@, name) ==> records_what_fits(
            project.dev_dependencies,
            name,
            project.specifiers.deep_view(),
        ),
{
    let all = wanted(project.deep_view(), manifest_of(manifest), auto_install_peers, false);
    lemma_asked_text(manifest, "optionalDependencies"@, name);
    lemma_asked_text(manifest, "dependencies"@, name);
    lemma_asked_text(manifest, "devDependencies"@, name);
    if manifest_asks(manifest, "optionalDependencies"@, name, specifier) {
        lemma_wanted_is_recorded(project, all, DependencyGroup::Optional, strict, name);
    } else if manifest_asks(manifest, "dependencies"@, name, specifier) && !manifest_names(
        manifest,
        "optionalDependencies"@,
        name,
    ) {
        lemma_wanted_is_recorded(project, all, DependencyGroup::Prod, strict, name);
    }
    if manifest_asks(manifest, "devDependencies"@, name, specifier) && !manifest_names(
        manifest,
        "optionalDependencies"@,
        name,
    ) && !manifest_names(manifest, "dependencies"@, name) {
        let direct = direct_of(manifest_of(manifest));
        assert(direct.dom().contains(name));
        lemma_wanted_is_recorded(project, all, DependencyGroup::Dev, strict, name);
    }
}

proof fn lemma_wanted_is_recorded(
    project: ProjectSnapshot,
    wanted: Wanted,
    group: DependencyGroup,
    strict: bool,
    name: Seq<char>,
)
    requires
        passes(project, wanted, group, strict),
        group_wants(wanted, group).dom().contains(name),
    ensures
        exists|version: ResolvedDependencyVersion| #[trigger]
            group_records(lockfile::group_table(project, group), name, version) && (
            wanted.specifiers.dom().contains(name) && semver::range_parses(wanted.specifiers[name])
                ==> match bare_version(lockfile::resolved_version_text(version)) {
                Some(number) => semver::range_admits(wanted.specifiers[name], number),
                None => true,
            }),
{
    assert(dependency_error(
        wanted.specifiers,
        group_wants(wanted, group),
        group_versions(project, group),
        group_field(group),
        name,
        strict,
    ) is None);
    let map = lockfile::group_table(project, group)->0;
    lemma_version_texts(map, name);
}

/// Where specifiers have to agree and an importer fits its manifest, the specifiers
/// that are recorded are those of the manifest: what was taken out of it or changed
/// makes the importer outdated.
pub proof fn law_strict_fit_records_the_specifiers(
    result: Result<(), String>,
    project: ProjectSnapshot,
    manifest: JsonModel,
    auto_install_peers: bool,
    name: Seq<char>,
    specifier: Seq<char>,
)
    requires
        is_checked(result, project, manifest, auto_install_peers, false, true),
        result is Ok,
    ensures
        ({
            let recorded = lockfile_check::says(project.specifiers.deep_view(), name, specifier);
            let optional = "optionalDependencies"@;
            let needed = "dependencies"@;
            let dev = "devDependencies"@;
            let asked = {
                ||| manifest_asks(manifest, optional, name, specifier)
                ||| !manifest_names(manifest, optional, name) && manifest_asks(
                    manifest,
                    needed,
                    name,
                    specifier,
                )
                ||| !manifest_names(manifest, optional, name) && !manifest_names(
                    manifest,
                    needed,
                    name,
                ) && manifest_asks(manifest, dev, name, specifier)
            };
            &&& asked ==> recorded
            &&& recorded && !(auto_install_peers && manifest_names(
                manifest,
                "peerDependencies"@,
                name,
            )) ==> asked
        }),
{
    lemma_asked_text(manifest, "optionalDependencies"@, name);
    lemma_asked_text(manifest, "dependencies"@, name);
    lemma_asked_text(manifest, "devDependencies"@, name);
    lemma_asked_text(manifest, "peerDependencies"@, name);
    let all = wanted(project.deep_view(), manifest_of(manifest), auto_install_peers, false);
    assert(all.specifiers == all.existing);
    let recorded = lockfile_check::or_empty(project.specifiers.deep_view());
    assert(all.specifiers == recorded);
    assert(recorded.dom().contains(name) <==> all.existing.dom().contains(name));
}

/// Where an importer fits its manifest, both say the same of what is published and of
/// how dependencies are treated; where the one says nothing of the latter, the other
/// says nothing either.
pub proof fn law_fitting_importer_agrees_on_the_rest(
    result: Result<(), String>,
    project: ProjectSnapshot,
    manifest: Map<Seq<char>, JsonModel>,
    auto_install_peers: bool,
    exclude_links: bool,
    strict: bool,
)
    requires
        is_checked(
            result,
            project,
            JsonModel::Object(manifest),
            auto_install_peers,
            exclude_links,
            strict,
        ),
        result is Ok,
    ensures
        ({
            let published = if manifest.dom().contains("publishConfig"@)
                && manifest["publishConfig"@] is Object {
                manifest["publishConfig"@]->Object_0
            } else {
                Map::empty()
            };
            &&& project.publish_directory is Some ==> published.dom().contains("directory"@)
                && published["directory"@] == JsonModel::Text(project.publish_directory->0@)
            &&& project.publish_directory is None ==> !(published.dom().contains("directory"@)
                && published["directory"@] is Text)
        }),
        ({
            let nothing = JsonModel::Object(Map::empty());
            let recorded = match project.dependencies_meta.deep_view() {
                Some(meta) => meta,
                None => nothing,
            };
            let asked = if manifest.dom().contains("dependenciesMeta"@) {
                manifest["dependenciesMeta"@]
            } else {
                nothing
            };
            recorded == asked
        }),
{
}

/// Where an importer fits its manifest, a group has as many entries as the manifest
/// asks for, or that many that are no links; so a dependency that was taken out of the
/// manifest and is no link makes the importer outdated even where specifiers need not
/// agree.
pub proof fn law_fitting_groups_have_no_more_than_is_asked_for(
    result: Result<(), String>,
    project: ProjectSnapshot,
    manifest: JsonModel,
    auto_install_peers: bool,
    strict: bool,
)
    requires
        is_checked(result, project, manifest, auto_install_peers, false, strict),
        result is Ok,
    ensures
        ({
            let asked = json::text_map(json::field(manifest, "optionalDependencies"@));
            let recorded = group_versions(project, DependencyGroup::Optional);
            asked.dom().len() == recorded.dom().len() || asked.dom().len() == table::filtered(
                recorded,
                |name: Seq<char>, version: Seq<char>|
                    !text::contains_text(version, "link:"@) && !text::contains_text(
                        version,
                        "file:"@,
                    ),
            ).dom().len()
        }),
{
    let recorded = group_versions(project, DependencyGroup::Optional);
    assert(unlinked(recorded) =~= table::filtered(
        recorded,
        |name: Seq<char>, version: Seq<char>|
            !text::contains_text(version, "link:"@) && !text::contains_text(version, "file:"@),
    ));
    assert(passes(
        project,
        wanted(project.deep_view(), manifest_of(manifest), auto_install_peers, false),
        DependencyGroup::Optional,
        strict,
    ));
}

/// What is read of a manifest is what it says: each text in the fields for
/// dependencies, under its name, and nothing else.
pub proof fn law_manifest_is_read_as_it_is(
    read: ManifestSnapshot,
    manifest: Json,
    name: Seq<char>,
    specifier: Seq<char>,
)
    requires
        read.deep_view() == manifest_of(manifest.deep_view()),
    ensures
        lockfile_check::says(Some(read.dependencies.deep_view()), name, specifier)
            <==> manifest_asks(manifest.deep_view(), "dependencies"@, name, specifier),
        lockfile_check::says(Some(read.optional_dependencies.deep_view()), name, specifier)
            <==> manifest_asks(manifest.deep_view(), "optionalDependencies"@, name, specifier),
        lockfile_check::says(Some(read.dev_dependencies.deep_view()), name, specifier)
            <==> manifest_asks(manifest.deep_view(), "devDependencies"@, name, specifier),
        lockfile_check::says(Some(read.peer_dependencies.deep_view()), name, specifier)
            <==> manifest_asks(manifest.deep_view(), "peerDependencies"@, name, specifier),
{
}

/// An importer whose recorded specifiers are those of the manifest, and whose groups
/// have exactly what the manifest asks for in versions that the specifiers admit, fits
/// it. Peers are not installed by themselves here, and names are in one group alone.
pub proof fn law_importer_that_agrees_fits(
    result: Result<(), String>,
    project: ProjectSnapshot,
    manifest: JsonModel,
    strict: bool,
)
    requires
        is_checked(result, project, manifest, false, false, strict),
        project.publish_directory is None,
        project.dependencies_meta is None,
        json::field(manifest, "publishConfig"@) is None,
        json::field(manifest, "dependenciesMeta"@) is None,
        forall|name: Seq<char>, specifier: Seq<char>| #[trigger]
            lockfile_check::says(project.specifiers.deep_view(), name, specifier) <==> {
                ||| manifest_asks(manifest, "dependencies"@, name, specifier)
                ||| manifest_asks(manifest, "optionalDependencies"@, name, specifier)
                ||| manifest_asks(manifest, "devDependencies"@, name, specifier)
            },
        forall|name: Seq<char>|
            #![trigger group_versions(project, DependencyGroup::Prod).dom().contains(name)]
            #![trigger manifest_names(manifest, "dependencies"@, name)]
            group_versions(project, DependencyGroup::Prod).dom().contains(name) <==> manifest_names(
                manifest,
                "dependencies"@,
                name,
            ),
        forall|name: Seq<char>|
            #![trigger group_versions(project, DependencyGroup::Optional).dom().contains(name)]
            #![trigger manifest_names(manifest, "optionalDependencies"@, name)]
            group_versions(project, DependencyGroup::Optional).dom().contains(name)
                <==> manifest_names(manifest, "optionalDependencies"@, name),
        forall|name: Seq<char>|
            #![trigger group_versions(project, DependencyGroup::Dev).dom().contains(name)]
            #![trigger manifest_names(manifest, "devDependencies"@, name)]
            group_versions(project, DependencyGroup::Dev).dom().contains(name) <==> manifest_names(
                manifest,
                "devDependencies"@,
                name,
            ),
        forall|name: Seq<char>| #[trigger]
            manifest_names(manifest, "optionalDependencies"@, name) ==> !manifest_names(
                manifest,
                "dependencies"@,
                name,
            ) && !manifest_names(manifest, "devDependencies"@, name),
        forall|name: Seq<char>| #[trigger]
            manifest_names(manifest, "dependencies"@, name) ==> !manifest_names(
                manifest,
                "devDependencies"@,
                name,
            ),
        forall|group: DependencyGroup, name: Seq<char>| #[trigger]
            group_versions(project, group).dom().contains(name) && semver::range_parses(
                project.specifiers.deep_view()->0[name],
            ) ==> match bare_version(group_versions(project, group)[name]) {
                Some(number) => semver::range_admits(
                    project.specifiers.deep_view()->0[name],
                    number,
                ),
                None => true,
            },
    ensures
        result is Ok,
{
    let all = wanted(project.deep_view(), manifest_of(manifest), false, false);
    let read = manifest_of(manifest);
    let recorded = lockfile_check::or_empty(project.specifiers.deep_view());
    let direct = direct_of(read);
    assert forall|name: Seq<char>| #![auto] recorded.dom().contains(name) <==> direct.dom().contains(
        name,
    ) by {
        lemma_asked_text(manifest, "dependencies"@, name);
        lemma_asked_text(manifest, "optionalDependencies"@, name);
        lemma_asked_text(manifest, "devDependencies"@, name);
        if recorded.dom().contains(name) {
            assert(lockfile_check::says(project.specifiers.deep_view(), name, recorded[name]));
        }
        if direct.dom().contains(name) {
            assert(lockfile_check::says(project.specifiers.deep_view(), name, direct[name]));
        }
    }
    assert forall|name: Seq<char>| #[trigger] recorded.dom().contains(name) implies recorded[name]
        == direct[name] by {
        lemma_asked_text(manifest, "dependencies"@, name);
        lemma_asked_text(manifest, "optionalDependencies"@, name);
        lemma_asked_text(manifest, "devDependencies"@, name);
        assert(direct.dom().contains(name));
        assert(lockfile_check::says(project.specifiers.deep_view(), name, recorded[name]));
        assert(lockfile_check::says(project.specifiers.deep_view(), name, direct[name]));
    }
    assert(recorded =~= direct);
    lemma_group_fits_its_field(project, manifest, all, DependencyGroup::Optional, strict);
    lemma_group_fits_its_field(project, manifest, all, DependencyGroup::Prod, strict);
    lemma_group_fits_its_field(project, manifest, all, DependencyGroup::Dev, strict);
}

proof fn lemma_group_fits_its_field(
    project: ProjectSnapshot,
    manifest: JsonModel,
    all: Wanted,
    group: DependencyGroup,
    strict: bool,
)
    requires
        !(group is Peer),
        all == wanted(project.deep_view(), manifest_of(manifest), false, false),
        lockfile_check::or_empty(project.specifiers.deep_view()) == direct_of(
            manifest_of(manifest),
        ),
        forall|name: Seq<char>|
            #![trigger group_versions(project, group).dom().contains(name)]
            #![trigger manifest_names(manifest, group_field(group), name)]
            group_versions(project, group).dom().contains(name) <==> manifest_names(
                manifest,
                group_field(group),
                name,
            ),
        forall|name: Seq<char>| #[trigger]
            manifest_names(manifest, "optionalDependencies"@, name) ==> !manifest_names(
                manifest,
                "dependencies"@,
                name,
            ) && !manifest_names(manifest, "devDependencies"@, name),
        forall|name: Seq<char>| #[trigger]
            manifest_names(manifest, "dependencies"@, name) ==> !manifest_names(
                manifest,
                "devDependencies"@,
                name,
            ),
        forall|name: Seq<char>| #[trigger]
            group_versions(project, group).dom().contains(name) && semver::range_parses(
                project.specifiers.deep_view()->0[name],
            ) ==> match bare_version(group_versions(project, group)[name]) {
                Some(number) => semver::range_admits(
                    project.specifiers.deep_view()->0[name],
                    number,
                ),
                None => true,
            },
    ensures
        passes(project, all, group, strict),
{
    let versions = group_versions(project, group);
    let wants = group_wants(all, group);
    let read = manifest_of(manifest);
    let direct = direct_of(read);
    assert forall|name: Seq<char>| #[trigger] wants.dom().contains(name) <==> versions.dom().contains(
        name,
    ) by {
        lemma_asked_text(manifest, "dependencies"@, name);
        lemma_asked_text(manifest, "optionalDependencies"@, name);
        lemma_asked_text(manifest, "devDependencies"@, name);
    }
    assert(wants.dom() =~= versions.dom());
    assert forall|name: Seq<char>| #[trigger] wants.dom().contains(name) implies dependency_error(
        all.specifiers,
        wants,
        versions,
        group_field(group),
        name,
        strict,
    ) is None by {
        lemma_asked_text(manifest, "dependencies"@, name);
        lemma_asked_text(manifest, "optionalDependencies"@, name);
        lemma_asked_text(manifest, "devDependencies"@, name);
        assert(versions.dom().contains(name));
        assert(direct.dom().contains(name));
        assert(direct[name] == wants[name]);
    }
}

} // verus!
