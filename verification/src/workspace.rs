//! The packages of a workspace, and what its root has to say about versions.
use crate::config::{LinkWorkspacePackages, Npmrc};
use crate::json;
use crate::json::{Json, JsonModel};
use crate::paths;
use crate::registry;
use crate::table::{Table, TextMap};
use crate::text;
use crate::value;
use crate::value::Value;
use vstd::prelude::*;
use vstd::string::*;

verus! {

/// A package of the workspace.
#[derive(Debug)]
pub struct WorkspacePackageInfo {
    pub root_dir: String,
    pub version: String,
}

/// The mathematical value of a [`WorkspacePackageInfo`].
pub struct WorkspacePackageModel {
    pub root_dir: Seq<char>,
    pub version: Seq<char>,
}

impl DeepView for WorkspacePackageInfo {
    type V = WorkspacePackageModel;

    open spec fn deep_view(&self) -> WorkspacePackageModel {
        WorkspacePackageModel { root_dir: self.root_dir@, version: self.version@ }
    }
}

impl Value for WorkspacePackageInfo {
    fn duplicate(&self) -> WorkspacePackageInfo {
        WorkspacePackageInfo { root_dir: self.root_dir.clone(), version: self.version.clone() }
    }

    fn same(&self, other: &WorkspacePackageInfo) -> bool {
        self.root_dir.same(&other.root_dir) && self.version.same(&other.version)
    }
}

/// The packages of the workspace by their names.
pub type WorkspacePackages = TextMap<WorkspacePackageInfo>;

/// What is asked for where the root of the workspace has its say about peers.
pub open spec fn peer_overridden(
    resolve_from_root: bool,
    overrides: Map<Seq<char>, Seq<char>>,
    peers: Option<Map<Seq<char>, Seq<char>>>,
    name: Seq<char>,
    range: Seq<char>,
) -> Seq<char> {
    if resolve_from_root && peers is Some && peers->0.dom().contains(name)
        && overrides.dom().contains(name) {
        overrides[name]
    } else {
        range
    }
}

/// What is asked for where the root of the workspace has its say about peers:
/// what the root asks for itself, if the settings say so.
pub fn apply_workspace_root_peer_override(
    config: &Npmrc,
    workspace_root_peer_overrides: &TextMap<String>,
    peer_dependencies: Option<&TextMap<String>>,
    name: &str,
    requested_range: &str,
) -> (range: String)
    ensures
        range@ == peer_overridden(
            config.resolve_peers_from_workspace_root,
            workspace_root_peer_overrides.deep_view(),
            peer_dependencies.deep_view(),
            name@,
            requested_range@,
        ),
{
    if !config.resolve_peers_from_workspace_root {
        return text::copy(requested_range);
    }
    let is_peer = match peer_dependencies {
        Some(peers) => peers.contains_text(name),
        None => false,
    };
    if !is_peer {
        return text::copy(requested_range);
    }
    apply_workspace_root_override(workspace_root_peer_overrides, name, requested_range)
}

/// What is asked for where the root of the workspace has its say.
pub open spec fn overridden(
    overrides: Map<Seq<char>, Seq<char>>,
    name: Seq<char>,
    range: Seq<char>,
) -> Seq<char> {
    if overrides.dom().contains(name) {
        overrides[name]
    } else {
        range
    }
}

/// What is asked for where the root of the workspace has its say.
pub fn apply_workspace_root_override(
    workspace_root_overrides: &TextMap<String>,
    name: &str,
    requested_range: &str,
) -> (range: String)
    ensures
        range@ == overridden(workspace_root_overrides.deep_view(), name@, requested_range@),
{
    match workspace_root_overrides.get_text(name) {
        Some(range) => range.clone(),
        None => text::copy(requested_range),
    }
}

/// The file that makes a directory the root of a workspace.
pub open spec fn workspace_file(dir: Seq<char>, on_windows: bool) -> Seq<char> {
    paths::joined(dir, "pnpm-workspace.yaml"@, on_windows)
}

/// The first one of some directories that is the root of a workspace.
pub open spec fn first_root(
    dirs: Seq<Seq<char>>,
    present: Seq<Seq<char>>,
    from: int,
    on_windows: bool,
) -> Option<Seq<char>>
    decreases dirs.len() - from,
{
    if from >= dirs.len() {
        None
    } else if present.contains(workspace_file(dirs[from], on_windows)) {
        Some(dirs[from])
    } else {
        first_root(dirs, present, from + 1, on_windows)
    }
}

/// The files that may make a directory, or one above it, the root of a
/// workspace, the nearest first.
pub fn workspace_file_candidates(start_dir: &str, on_windows: bool) -> (files: Vec<String>)
    ensures
        files.deep_view() == paths::ancestors(start_dir@, on_windows).map_values(
            |dir: Seq<char>| workspace_file(dir, on_windows),
        ),
{
    let dirs = paths::path_ancestors(start_dir, on_windows);
    let ghost all = dirs.deep_view();
    let mut files: Vec<String> = Vec::new();
    let mut i: usize = 0;
    while i < dirs.len()
        invariant
            i <= dirs@.len(),
            all == dirs.deep_view(),
            files@.len() == i,
            forall|j: int| 0 <= j < i ==> #[trigger] files.deep_view()[j] == workspace_file(
                all[j],
                on_windows,
            ),
        decreases dirs@.len() - i,
    {
        let ghost before = files.deep_view();
        files.push(paths::join_paths(dirs[i].as_str(), "pnpm-workspace.yaml", on_windows));
        assert(files.deep_view() =~= before.push(workspace_file(all[i as int], on_windows)));
        i = i + 1;
    }
    assert(files.deep_view() =~= all.map_values(|dir: Seq<char>| workspace_file(dir, on_windows)));
    files
}

/// The root of the workspace that a directory belongs to, given which of the
/// candidates are files.
pub fn find_workspace_root(
    start_dir: &str,
    present: &Vec<String>,
    on_windows: bool,
) -> (root: Option<String>)
    ensures
        root.deep_view() == first_root(
            paths::ancestors(start_dir@, on_windows),
            present.deep_view(),
            0,
            on_windows,
        ),
{
    let dirs = paths::path_ancestors(start_dir, on_windows);
    let ghost all = dirs.deep_view();
    let mut i: usize = 0;
    while i < dirs.len()
        invariant
            i <= dirs@.len(),
            all == dirs.deep_view(),
            all == paths::ancestors(start_dir@, on_windows),
            first_root(all, present.deep_view(), 0, on_windows) == first_root(
                all,
                present.deep_view(),
                i as int,
                on_windows,
            ),
        decreases dirs@.len() - i,
    {
        assert(all[i as int] == dirs@[i as int]@);
        let file = paths::join_paths(dirs[i].as_str(), "pnpm-workspace.yaml", on_windows);
        if value::list_contains(present, file.as_str()) {
            return Some(dirs[i].clone());
        }
        i = i + 1;
    }
    None
}

/// What a manifest asks for, in whichever group; of two groups the later counts.
pub open spec fn dependency_specs(manifest: Option<JsonModel>) -> Map<Seq<char>, Seq<char>> {
    match manifest {
        None => Map::empty(),
        Some(manifest) => json::text_map(
            json::field(manifest, "dependencies"@),
        ).union_prefer_right(
            json::text_map(json::field(manifest, "optionalDependencies"@)),
        ).union_prefer_right(
            json::text_map(json::field(manifest, "devDependencies"@)),
        ).union_prefer_right(json::text_map(json::field(manifest, "peerDependencies"@))),
    }
}

/// What a manifest asks for, in whichever group; of two groups the later counts.
pub fn read_dependency_specs(manifest: Option<&Json>) -> (specs: TextMap<String>)
    ensures
        specs.deep_view() == dependency_specs(manifest.deep_view()),
{
    match manifest {
        None => Table::new(),
        Some(manifest) => {
            let mut specs = json::json_string_map(manifest.get("dependencies"));
            specs.extend(&json::json_string_map(manifest.get("optionalDependencies")));
            specs.extend(&json::json_string_map(manifest.get("devDependencies")));
            specs.extend(&json::json_string_map(manifest.get("peerDependencies")));
            specs
        },
    }
}

/// What the root of a workspace has to say about versions: what its manifest
/// says, and on top of that what the file of the workspace says.
pub open spec fn root_overrides(manifest: Option<JsonModel>, workspace: Option<JsonModel>) -> Map<
    Seq<char>,
    Seq<char>,
> {
    let first: Map<Seq<char>, Seq<char>> = match manifest {
        Some(manifest) => match json::field(manifest, "pnpm"@) {
            Some(pnpm) => json::text_map(json::field(pnpm, "overrides"@)),
            None => Map::empty(),
        },
        None => Map::empty(),
    };
    match workspace {
        Some(workspace) => first.union_prefer_right(
            json::text_map(json::field(workspace, "overrides"@)),
        ),
        None => first,
    }
}

/// What the root of a workspace has to say about versions.
pub fn workspace_root_overrides(manifest: Option<&Json>, workspace: Option<&Json>) -> (overrides:
    TextMap<String>)
    ensures
        overrides.deep_view() == root_overrides(manifest.deep_view(), workspace.deep_view()),
{
    let mut overrides: TextMap<String> = Table::new();
    if let Some(manifest) = manifest {
        if let Some(pnpm) = manifest.get("pnpm") {
            overrides = json::json_string_map(pnpm.get("overrides"));
        }
    }
    if let Some(workspace) = workspace {
        overrides.extend(&json::json_string_map(workspace.get("overrides")));
    }
    overrides
}

/// A local directory as it is referred to in a lockfile.
pub open spec fn local_reference(
    lockfile_dir: Seq<char>,
    local_path: Seq<char>,
    on_windows: bool,
) -> Seq<char> {
    "file:"@ + (if paths::is_absolute(local_path, on_windows) {
        paths::relative_path(lockfile_dir, local_path, on_windows)
    } else {
        text::replace_char(local_path, '\\', "/"@)
    })
}

/// A local directory as it is referred to in a lockfile.
pub fn normalized_local_file_reference(
    lockfile_dir: &str,
    local_dep_path: &str,
    on_windows: bool,
) -> (reference:
    String)
    ensures
        reference@ == local_reference(lockfile_dir@, local_dep_path@, on_windows),
{
    let path = if paths::is_absolute_path(local_dep_path, on_windows) {
        paths::to_relative_path(lockfile_dir, local_dep_path, on_windows)
    } else {
        text::replace(local_dep_path, '\\', "/")
    };
    text::copy("file:").concat(path.as_str())
}

/// The directory in which a manifest lies.
pub open spec fn manifest_dir(manifest_path: Seq<char>, on_windows: bool) -> Seq<char> {
    match paths::parent(manifest_path, on_windows) {
        Some(dir) => dir,
        None => "."@,
    }
}

/// The directory in which a manifest lies.
pub fn dir_of_manifest(manifest_path: &str, on_windows: bool) -> (dir: String)
    ensures
        dir@ == manifest_dir(manifest_path@, on_windows),
{
    match paths::parent_path(manifest_path, on_windows) {
        Some(dir) => dir,
        None => text::copy("."),
    }
}

/// A dependency on a directory: how it is referred to, where it is, and whether
/// it is linked to.
#[derive(Debug)]
pub struct LocalDependency {
    pub link: String,
    pub path: String,
    pub should_symlink: bool,
}

/// The dependency on a directory that a specifier stands for.
pub open spec fn is_local_dependency(
    dependency: LocalDependency,
    manifest_path: Seq<char>,
    range: Seq<char>,
    on_windows: bool,
) -> bool {
    let protocol = if dependency.should_symlink {
        "link:"@
    } else {
        "file:"@
    };
    text::stripped_prefix(range, protocol) matches Some(target) && dependency.path@
        == paths::joined(
            manifest_dir(manifest_path, on_windows),
            target,
            on_windows,
        ) && dependency.link@ == protocol
        + text::replace_char(target, '\\', "/"@)
}

/// A specifier stands for a dependency on a directory.
pub open spec fn names_directory(range: Seq<char>) -> bool {
    text::starts_with(range, "link:"@) || text::starts_with(range, "file:"@)
}

/// The dependency on a directory that a specifier stands for.
pub fn resolve_local_dependency(
    manifest_path: &str,
    version_range: &str,
    on_windows: bool,
) -> (found: Option<
    LocalDependency,
>)
    ensures
        match found {
            Some(dependency) => is_local_dependency(
                dependency,
                manifest_path@,
                version_range@,
                on_windows,
            ),
            None => !names_directory(version_range@),
        },
{
    let (protocol, target, should_symlink) = match text::strip_prefix(version_range, "link:") {
        Some(target) => ("link:", target, true),
        None => match text::strip_prefix(version_range, "file:") {
            Some(target) => ("file:", target, false),
            None => {
                return None;
            },
        },
    };
    let dir = dir_of_manifest(manifest_path, on_windows);
    Some(
        LocalDependency {
            link: text::copy(protocol).concat(text::replace(target, '\\', "/").as_str()),
            path: paths::join_paths(dir.as_str(), target, on_windows),
            should_symlink,
        },
    )
}

/// A manifest asks for a copy of a dependency.
pub open spec fn meta_injected(meta: Option<JsonModel>, name: Seq<char>) -> bool {
    match meta {
        Some(meta) => match json::field(meta, name) {
            Some(entry) => json::as_bool(json::field(entry, "injected"@)) == Some(true),
            None => false,
        },
        None => false,
    }
}

/// Whether a manifest asks for a copy of a dependency.
pub fn dependency_meta_injected_json(dependencies_meta: Option<&Json>, dependency_name: &str) -> (yes:
    bool)
    ensures
        yes == meta_injected(dependencies_meta.deep_view(), dependency_name@),
{
    match dependencies_meta {
        Some(meta) => match meta.get(dependency_name) {
            Some(entry) => match entry.get("injected") {
                Some(injected) => match injected.as_bool() {
                    Some(injected) => injected,
                    None => false,
                },
                None => false,
            },
            None => false,
        },
        None => false,
    }
}

/// A dependency on a package of the workspace is copied.
pub open spec fn injects(
    manifest: JsonModel,
    name: Seq<char>,
    specifier: Seq<char>,
    inject_all: bool,
) -> bool {
    text::starts_with(specifier, "workspace:"@) && (inject_all || meta_injected(
        json::field(manifest, "dependenciesMeta"@),
        name,
    ))
}

/// Whether a dependency on a package of the workspace is copied.
pub fn should_inject_workspace_dependency(
    manifest: &Json,
    dependency_name: &str,
    specifier: &str,
    config: &Npmrc,
) -> (yes: bool)
    ensures
        yes == injects(
            manifest.deep_view(),
            dependency_name@,
            specifier@,
            config.inject_workspace_packages,
        ),
{
    if !text::has_prefix(specifier, "workspace:") {
        return false;
    }
    config.inject_workspace_packages || dependency_meta_injected_json(
        manifest.get("dependenciesMeta"),
        dependency_name,
    )
}

/// How a dependency is looked for among the packages of the workspace: as the
/// protocol of the workspace says, like any other package, or not at all.
#[derive(Debug)]
pub enum WorkspaceQuery {
    ByProtocol,
    ByPlainSpec { name: String, specifier: String },
    Nowhere,
}

/// How a dependency is looked for among the packages of the workspace.
pub open spec fn is_query(
    query: WorkspaceQuery,
    config: Npmrc,
    name: Seq<char>,
    specifier: Seq<char>,
    depth: int,
) -> bool {
    match query {
        WorkspaceQuery::ByProtocol => text::starts_with(specifier, "workspace:"@),
        WorkspaceQuery::ByPlainSpec { name: target, specifier: wanted } => !text::starts_with(
            specifier,
            "workspace:"@,
        ) && config.link_workspace_packages.links(depth) && (target@, wanted@)
            == registry::requested_package(name, specifier),
        WorkspaceQuery::Nowhere => !text::starts_with(specifier, "workspace:"@)
            && !config.link_workspace_packages.links(depth),
    }
}

/// How a dependency is looked for among the packages of the workspace.
pub fn workspace_query(config: &Npmrc, dependency_name: &str, specifier: &str, depth: usize) -> (query:
    WorkspaceQuery)
    ensures
        is_query(query, *config, dependency_name@, specifier@, depth as int),
{
    if text::has_prefix(specifier, "workspace:") {
        return WorkspaceQuery::ByProtocol;
    }
    if !config.link_workspace_packages.links_at_depth(depth) {
        return WorkspaceQuery::Nowhere;
    }
    let (name, wanted) = registry::parse_request(dependency_name, specifier);
    WorkspaceQuery::ByPlainSpec { name: text::copy(name), specifier: text::copy(wanted) }
}

/// What was found of a dependency among the packages of the workspace: by a
/// path, by its name where that has to succeed, and by its name where it need
/// not.
#[derive(Debug)]
pub struct WorkspaceAnswers {
    pub by_path: Option<usize>,
    pub by_protocol: Result<usize, String>,
    pub by_plain_spec: Option<usize>,
}

/// The package of the workspace that a dependency is on, given what is found of it.
pub open spec fn is_workspace_choice(
    found: Result<Option<usize>, String>,
    config: Npmrc,
    specifier: Seq<char>,
    depth: int,
    answers: WorkspaceAnswers,
) -> bool {
    match found {
        Ok(found) => found == (if text::starts_with(specifier, "workspace:"@) {
            match answers.by_path {
                Some(i) => Some(i),
                None => answers.by_protocol.ok(),
            }
        } else if config.link_workspace_packages.links(depth) {
            answers.by_plain_spec
        } else {
            None
        }) && (text::starts_with(specifier, "workspace:"@) ==> found is Some),
        Err(message) => text::starts_with(specifier, "workspace:"@) && answers.by_path is None
            && answers.by_protocol is Err && answers.by_protocol->Err_0@ == message@,
    }
}

/// The package of the workspace that a dependency is on. With the protocol of
/// the workspace there has to be one; without it, one is taken only where the
/// settings let packages of the workspace be linked.
pub fn resolve_workspace_dependency_for_install(
    config: &Npmrc,
    dependency_name: &str,
    specifier: &str,
    depth: usize,
    answers: &WorkspaceAnswers,
) -> (found: Result<Option<usize>, String>)
    ensures
        is_workspace_choice(found, *config, specifier@, depth as int, *answers),
{
    if text::has_prefix(specifier, "workspace:") {
        if let Some(i) = answers.by_path {
            return Ok(Some(i));
        }
        return match &answers.by_protocol {
            Ok(i) => Ok(Some(*i)),
            Err(message) => Err(message.clone()),
        };
    }
    if !config.link_workspace_packages.links_at_depth(depth) {
        return Ok(None);
    }
    Ok(answers.by_plain_spec)
}

/// A link to a package of the workspace.
pub open spec fn workspace_link(
    from: Seq<char>,
    root_dir: Seq<char>,
    on_windows: bool,
) -> Seq<char> {
    "link:"@ + text::replace_char(paths::relative_path(from, root_dir, on_windows), '\\', "/"@)
}

/// A link to a package of the workspace.
pub fn link_to_workspace_package(from: &str, root_dir: &str, on_windows: bool) -> (link: String)
    ensures
        link@ == workspace_link(from@, root_dir@, on_windows),
{
    text::copy("link:").concat(
        text::replace(
            paths::to_relative_path(from, root_dir, on_windows).as_str(),
            '\\',
            "/",
        ).as_str(),
    )
}

/// With the protocol of the workspace a dependency is on the package that it names by
/// path, or else the one that it asks for, and it is refused where there is none. Without
/// the protocol one is linked to where the settings say so: never, for direct
/// dependencies alone, or always.
pub proof fn law_workspace_packages_are_linked_by_the_settings(
    found: Result<Option<usize>, String>,
    config: Npmrc,
    specifier: Seq<char>,
    depth: int,
    answers: WorkspaceAnswers,
)
    requires
        is_workspace_choice(found, config, specifier, depth, answers),
        depth >= 0,
    ensures
        text::starts_with(specifier, "workspace:"@) && answers.by_path is Some ==> found == Ok::<
            Option<usize>,
            String,
        >(answers.by_path),
        text::starts_with(specifier, "workspace:"@) && answers.by_path is None
            && answers.by_protocol is Ok ==> found == Ok::<Option<usize>, String>(
            Some(answers.by_protocol->Ok_0),
        ),
        text::starts_with(specifier, "workspace:"@) && answers.by_path is None
            && answers.by_protocol is Err ==> found is Err && found->Err_0@
            == answers.by_protocol->Err_0@,
        !text::starts_with(specifier, "workspace:"@) ==> found is Ok && (
        match config.link_workspace_packages {
            LinkWorkspacePackages::False => found->Ok_0 is None,
            LinkWorkspacePackages::Direct => found->Ok_0 == (if depth == 0 {
                answers.by_plain_spec
            } else {
                None
            }),
            LinkWorkspacePackages::Deep => found->Ok_0 == answers.by_plain_spec,
        }),
{
}

/// An override of the root comes before whatever is asked for.
pub proof fn law_overrides_come_first(
    asked: Seq<char>,
    resolve_from_root: bool,
    overrides: Map<Seq<char>, Seq<char>>,
    peer_overrides: Map<Seq<char>, Seq<char>>,
    peers: Option<Map<Seq<char>, Seq<char>>>,
    name: Seq<char>,
    range: Seq<char>,
)
    requires
        asked == overridden(
            overrides,
            name,
            peer_overridden(resolve_from_root, peer_overrides, peers, name, range),
        ),
    ensures
        overrides.dom().contains(name) ==> asked == overrides[name],
        !overrides.dom().contains(name) && resolve_from_root && peers is Some
            && peers->0.dom().contains(name) && peer_overrides.dom().contains(name) ==> asked
            == peer_overrides[name],
        !overrides.dom().contains(name) && (!resolve_from_root || peers is None
            || !peers->0.dom().contains(name) || !peer_overrides.dom().contains(name)) ==> asked
            == range,
{
}

/// The root of the workspace is the nearest directory, from the one at hand upwards, in
/// which a workspace is described.
pub proof fn law_workspace_root_is_the_nearest(
    root: Option<Seq<char>>,
    dirs: Seq<Seq<char>>,
    present: Seq<Seq<char>>,
    on_windows: bool,
    i: int,
)
    requires
        root == first_root(dirs, present, 0, on_windows),
        0 <= i < dirs.len(),
    ensures
        present.contains(paths::joined(dirs[i], "pnpm-workspace.yaml"@, on_windows)) && (forall|
            k: int,
        |
            0 <= k < i ==> !present.contains(
                paths::joined(#[trigger] dirs[k], "pnpm-workspace.yaml"@, on_windows),
            )) ==> root == Some(dirs[i]),
        root is None ==> !present.contains(
            paths::joined(dirs[i], "pnpm-workspace.yaml"@, on_windows),
        ),
{
    lemma_first_root(dirs, present, 0, on_windows, i);
}

proof fn lemma_first_root(
    dirs: Seq<Seq<char>>,
    present: Seq<Seq<char>>,
    from: int,
    on_windows: bool,
    i: int,
)
    requires
        0 <= from <= i < dirs.len(),
    ensures
        present.contains(paths::joined(dirs[i], "pnpm-workspace.yaml"@, on_windows)) && (forall|
            k: int,
        |
            from <= k < i ==> !present.contains(
                paths::joined(#[trigger] dirs[k], "pnpm-workspace.yaml"@, on_windows),
            )) ==> first_root(dirs, present, from, on_windows) == Some(dirs[i]),
        first_root(dirs, present, from, on_windows) is None ==> !present.contains(
            paths::joined(dirs[i], "pnpm-workspace.yaml"@, on_windows),
        ),
    decreases i - from,
{
    if from < i {
        assert(dirs[from] == dirs[from]);
        lemma_first_root(dirs, present, from + 1, on_windows, i);
    }
}

/// A directory that is linked to or copied: the path is seen from the manifest, and it is
/// linked to with `link:` and copied with `file:`; any other specifier names none.
pub proof fn law_local_dependencies(
    found: Option<LocalDependency>,
    manifest_path: Seq<char>,
    target: Seq<char>,
    specifier: Seq<char>,
    on_windows: bool,
)
    requires
        match found {
            Some(dependency) => is_local_dependency(
                dependency,
                manifest_path,
                specifier,
                on_windows,
            ),
            None => !names_directory(specifier),
        },
    ensures
        specifier == "link:"@ + target ==> found is Some && found->0.should_symlink
            && found->0.path@ == paths::joined(
            manifest_dir(manifest_path, on_windows),
            target,
            on_windows,
        ) && found->0.link@ == "link:"@ + text::replace_char(target, '\\', "/"@),
        specifier == "file:"@ + target ==> found is Some && !found->0.should_symlink
            && found->0.path@ == paths::joined(
            manifest_dir(manifest_path, on_windows),
            target,
            on_windows,
        ) && found->0.link@ == "file:"@ + text::replace_char(target, '\\', "/"@),
        !text::starts_with(specifier, "link:"@) && !text::starts_with(specifier, "file:"@)
            ==> found is None,
{
    reveal_strlit("link:");
    reveal_strlit("file:");
    assert(("link:"@ + target).subrange(0, 5) =~= "link:"@);
    assert(("file:"@ + target).subrange(0, 5) =~= "file:"@);
    assert(text::tail("link:"@ + target, 5) =~= target);
    assert(text::tail("file:"@ + target, 5) =~= target);
    assert("link:"@[0] == 'l' && "file:"@[0] == 'f');
}

/// A package of the workspace is copied rather than linked to only where it is asked for
/// by the protocol of the workspace, and then where all are or the manifest says so of it.
pub proof fn law_injected_dependencies(
    yes: bool,
    manifest: Map<Seq<char>, JsonModel>,
    name: Seq<char>,
    specifier: Seq<char>,
    inject_all: bool,
)
    requires
        yes == injects(JsonModel::Object(manifest), name, specifier, inject_all),
    ensures
        ({
            let meta = if manifest.dom().contains("dependenciesMeta"@)
                && manifest["dependenciesMeta"@] is Object {
                manifest["dependenciesMeta"@]->Object_0
            } else {
                Map::empty()
            };
            let told = meta.dom().contains(name) && meta[name] is Object && (
            meta[name]->Object_0).dom().contains("injected"@) && (
            meta[name]->Object_0)["injected"@] == JsonModel::Bool(true);
            yes <==> text::starts_with(specifier, "workspace:"@) && (inject_all || told)
        }),
{
}

/// What the root asks for comes out of all its groups; where several name a package, a
/// peer comes before one for development, that before an optional one, and that before a
/// needed one.
pub proof fn law_root_specs_come_from_all_groups(
    specs: Map<Seq<char>, Seq<char>>,
    manifest: JsonModel,
    name: Seq<char>,
)
    requires
        specs == dependency_specs(Some(manifest)),
    ensures
        ({
            let peer = json::text_map(json::field(manifest, "peerDependencies"@));
            let dev = json::text_map(json::field(manifest, "devDependencies"@));
            let optional = json::text_map(json::field(manifest, "optionalDependencies"@));
            let needed = json::text_map(json::field(manifest, "dependencies"@));
            &&& specs.dom().contains(name) <==> peer.dom().contains(name) || dev.dom().contains(
                name,
            ) || optional.dom().contains(name) || needed.dom().contains(name)
            &&& peer.dom().contains(name) ==> specs[name] == peer[name]
            &&& !peer.dom().contains(name) && dev.dom().contains(name) ==> specs[name] == dev[name]
            &&& !peer.dom().contains(name) && !dev.dom().contains(name)
                && optional.dom().contains(name) ==> specs[name] == optional[name]
            &&& !peer.dom().contains(name) && !dev.dom().contains(name)
                && !optional.dom().contains(name) && needed.dom().contains(name) ==> specs[name]
                == needed[name]
        }),
{
}

/// The overrides of the root are those of its manifest and of the workspace; where both
/// override a package, the workspace does.
pub proof fn law_root_overrides(
    overrides: Map<Seq<char>, Seq<char>>,
    manifest: Option<JsonModel>,
    workspace: Option<JsonModel>,
    name: Seq<char>,
)
    requires
        overrides == root_overrides(manifest, workspace),
    ensures
        ({
            let by_workspace = match workspace {
                Some(workspace) => json::text_map(json::field(workspace, "overrides"@)),
                None => Map::empty(),
            };
            let by_manifest = if manifest is Some && json::field(manifest->0, "pnpm"@) is Some {
                json::text_map(json::field(json::field(manifest->0, "pnpm"@)->0, "overrides"@))
            } else {
                Map::empty()
            };
            &&& overrides.dom().contains(name) <==> by_workspace.dom().contains(name)
                || by_manifest.dom().contains(name)
            &&& by_workspace.dom().contains(name) ==> overrides[name] == by_workspace[name]
            &&& !by_workspace.dom().contains(name) && by_manifest.dom().contains(name)
                ==> overrides[name] == by_manifest[name]
        }),
{
}

} // verus!
