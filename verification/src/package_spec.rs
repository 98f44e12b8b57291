//! What is written into a manifest when a package is added to it.
use crate::config::{LinkWorkspacePackages, Npmrc, SaveWorkspaceProtocol};
use crate::git_spec;
use crate::json;
use crate::json::Json;
use crate::lockfile;
use crate::lockfile::{
    DependencyGroup, Lockfile, ProjectModel, ProjectSnapshot, ResolvedDependencyVersion,
    RootProjectSnapshot,
};
use crate::manifest_check;
use crate::paths;
use crate::pnpmfile;
use crate::registry;
use crate::semver;
use crate::semver::Version;
use crate::summary;
use crate::text;
use crate::workspace::{WorkspacePackageModel, WorkspacePackages};
use vstd::prelude::*;
use vstd::string::*;

verus! {

/// Why a package could not be added.
#[allow(inconsistent_fields)]
#[derive(Debug)]
pub enum AddError {
    AddDependencyToManifest(String),
    ResolvePackage(String),
    NoMatchingVersion { package: String, spec_text: String },
    LocalDependencyPathNotFound { path: String },
    LoadLocalDependencyManifest(String, String),
    LocalDependencyManifestNameMissing { path: String },
    WorkspacePackageNotFound { package: String },
    InstallDependencies(String),
    SaveManifest(String),
}

/// What is told about an error.
pub open spec fn add_error_text(error: AddError) -> Seq<char> {
    match error {
        AddError::AddDependencyToManifest(cause) => "Failed to add package to manifest: "@ + cause@,
        AddError::ResolvePackage(cause) => "Failed to resolve package from registry: "@ + cause@,
        AddError::NoMatchingVersion { package, spec_text } => "No version of "@ + package@
            + " satisfies "@ + spec_text@,
        AddError::LocalDependencyPathNotFound { path } => "Cannot resolve local dependency path: "@
            + path@,
        AddError::LoadLocalDependencyManifest(path, cause) =>
        "Failed to load local dependency manifest at "@ + path@ + ": "@ + cause@,
        AddError::LocalDependencyManifestNameMissing { path } => "Local dependency manifest at "@
            + path@ + " is missing a package name"@,
        AddError::WorkspacePackageNotFound { package } => "\""@ + package@
            + "\" not found in the workspace"@,
        AddError::InstallDependencies(cause) => "Failed to install dependencies: "@ + cause@,
        AddError::SaveManifest(cause) => "Failed save the manifest file: "@ + cause@,
    }
}

impl AddError {
    /// What is told about the error.
    pub fn message(&self) -> (s: String)
        ensures
            s@ == add_error_text(*self),
    {
        match self {
            AddError::AddDependencyToManifest(cause) => text::copy(
                "Failed to add package to manifest: ",
            ).concat(cause.as_str()),
            AddError::ResolvePackage(cause) => text::copy(
                "Failed to resolve package from registry: ",
            ).concat(cause.as_str()),
            AddError::NoMatchingVersion { package, spec_text } => text::copy(
                "No version of ",
            ).concat(package.as_str()).concat(" satisfies ").concat(spec_text.as_str()),
            AddError::LocalDependencyPathNotFound { path } => text::copy(
                "Cannot resolve local dependency path: ",
            ).concat(path.as_str()),
            AddError::LoadLocalDependencyManifest(path, cause) => text::copy(
                "Failed to load local dependency manifest at ",
            ).concat(path.as_str()).concat(": ").concat(cause.as_str()),
            AddError::LocalDependencyManifestNameMissing { path } => text::copy(
                "Local dependency manifest at ",
            ).concat(path.as_str()).concat(" is missing a package name"),
            AddError::WorkspacePackageNotFound { package } => text::copy("\"").concat(
                package.as_str(),
            ).concat("\" not found in the workspace"),
            AddError::InstallDependencies(cause) => text::copy(
                "Failed to install dependencies: ",
            ).concat(cause.as_str()),
            AddError::SaveManifest(cause) => text::copy("Failed save the manifest file: ").concat(
                cause.as_str(),
            ),
        }
    }
}

/// The name in what was asked for, and what was asked for of it.
pub open spec fn split_spec(package: Seq<char>) -> (Seq<char>, Option<Seq<char>>) {
    match summary::version_mark(package) {
        Some(i) => if i + 1 >= package.len() {
            (package, None)
        } else {
            (package.subrange(0, i), Some(text::tail(package, i + 1)))
        },
        None => (package, None),
    }
}

/// The name in what was asked for, and what was asked for of it. The `@` of a
/// scope does not part them.
pub fn split_package_spec<'a>(package: &'a str) -> (parts: (&'a str, Option<&'a str>))
    ensures
        (parts.0@, parts.1.deep_view()) == split_spec(package@),
{
    let n: usize = package.unicode_len();
    let scoped = text::has_first_char(package, '@');
    proof {
        text::lemma_last_index(package@, '@');
    }
    match text::rfind_char(package, '@') {
        Some(i) => if (i == 0 && scoped) || i + 1 == n {
            (package, None)
        } else {
            (package.substring_char(0, i), Some(package.substring_char(i + 1, n)))
        },
        None => (package, None),
    }
}

/// Where a part first stands in a text, from a position on.
pub open spec fn first_stand(s: Seq<char>, p: Seq<char>, from: int) -> Option<int>
    decreases s.len() - p.len() + 1 - from,
{
    if from > s.len() - p.len() {
        None
    } else if text::stands_at(s, p, from) {
        Some(from)
    } else {
        first_stand(s, p, from + 1)
    }
}

proof fn lemma_first_stand(s: Seq<char>, p: Seq<char>, from: int, i: int)
    requires
        0 <= from <= i,
        text::stands_at(s, p, i),
        forall|j: int| from <= j < i ==> !text::stands_at(s, p, j),
    ensures
        first_stand(s, p, from) == Some(i),
    decreases i - from,
{
    if from < i {
        assert(!text::stands_at(s, p, from));
        lemma_first_stand(s, p, from + 1, i);
    }
}

proof fn lemma_no_stand(s: Seq<char>, p: Seq<char>, from: int)
    requires
        0 <= from,
        forall|j: int| from <= j ==> !text::stands_at(s, p, j),
    ensures
        first_stand(s, p, from) is None,
    decreases s.len() - p.len() + 1 - from,
{
    if from <= s.len() - p.len() {
        assert(!text::stands_at(s, p, from));
        lemma_no_stand(s, p, from + 1);
    }
}

/// A package under another name: that name, the package, and what was asked for
/// of it.
pub open spec fn alias_spec(package: Seq<char>) -> Option<
    (Seq<char>, Seq<char>, Option<Seq<char>>),
> {
    match first_stand(package, "@npm:"@, 0) {
        Some(i) => {
            let (target, requested) = split_spec(text::tail(package, i + 5));
            if i == 0 || target.len() == 0 {
                None
            } else {
                Some((package.subrange(0, i), target, requested))
            }
        },
        None => None,
    }
}

/// A package under another name: that name, the package, and what was asked for
/// of it.
pub fn parse_npm_alias_spec<'a>(package: &'a str) -> (parts: Option<
    (&'a str, &'a str, Option<&'a str>),
>)
    ensures
        match parts {
            Some((alias, target, requested)) => alias_spec(package@) == Some(
                (alias@, target@, requested.deep_view()),
            ),
            None => alias_spec(package@) is None,
        },
{
    proof {
        reveal_strlit("@npm:");
    }
    let n: usize = package.unicode_len();
    let whole = text::chars_of(package);
    let mark = text::chars_of("@npm:");
    match text::find_text_from(&whole, &mark, 0) {
        Some(i) => {
            proof {
                lemma_first_stand(package@, "@npm:"@, 0, i as int);
            }
            if i == 0 {
                return None;
            }
            let (target, requested) = split_package_spec(package.substring_char(i + 5, n));
            if target.unicode_len() == 0 {
                return None;
            }
            Some((package.substring_char(0, i), target, requested))
        },
        None => {
            proof {
                lemma_no_stand(package@, "@npm:"@, 0);
            }
            None
        },
    }
}

/// What was asked for is a version or a tag, not a range.
pub open spec fn is_tag(requested: Seq<char>) -> bool {
    !(registry::request_of(requested) is Range)
}

/// Whether what was asked for is a version or a tag, not a range.
pub fn parses_as_tag(requested: &str) -> (yes: bool)
    ensures
        yes == is_tag(requested@),
{
    Version::parse(requested).is_some() || text::same_text(requested, "latest")
}

/// How a version of a package of the workspace is written with the protocol of
/// the workspace.
pub open spec fn pinned_workspace_spec(version: Seq<char>, requested: Seq<char>) -> Seq<char> {
    let normalized = match text::stripped_prefix(requested, "workspace:"@) {
        Some(rest) => rest,
        None => requested,
    };
    if text::starts_with(normalized, "~"@) {
        "workspace:~"@ + version
    } else if text::starts_with(normalized, "^"@) || normalized == "*"@ || is_tag(normalized)
        || normalized.len() == 0 {
        "workspace:^"@ + version
    } else {
        "workspace:"@ + version
    }
}

/// How a version of a package of the workspace is written with the protocol of
/// the workspace: with the sign of the range that was asked for.
pub fn workspace_spec_with_prefix(workspace_version: &str, requested: &str) -> (s: String)
    ensures
        s@ == pinned_workspace_spec(workspace_version@, requested@),
{
    let normalized = match text::strip_prefix(requested, "workspace:") {
        Some(rest) => rest,
        None => requested,
    };
    if text::has_prefix(normalized, "~") {
        text::copy("workspace:~").concat(workspace_version)
    } else if text::has_prefix(normalized, "^") || text::same_text(normalized, "*")
        || parses_as_tag(normalized) || normalized.unicode_len() == 0 {
        text::copy("workspace:^").concat(workspace_version)
    } else {
        text::copy("workspace:").concat(workspace_version)
    }
}

/// How a package of the workspace that is added is written.
pub open spec fn added_workspace_spec(
    protocol: SaveWorkspaceProtocol,
    version: Seq<char>,
    requested: Option<Seq<char>>,
) -> Seq<char> {
    match protocol {
        SaveWorkspaceProtocol::Rolling => match requested {
            Some(requested) => if text::starts_with(requested, "~"@) {
                "workspace:~"@
            } else if !text::starts_with(requested, "^"@) && text::starts_with(
                requested,
                "workspace:"@,
            ) {
                requested
            } else {
                "workspace:^"@
            },
            None => "workspace:^"@,
        },
        _ => pinned_workspace_spec(
            version,
            match requested {
                Some(requested) => requested,
                None => "^"@,
            },
        ),
    }
}

/// How a package of the workspace that is added is written.
pub fn render_added_workspace_spec(
    save_workspace_protocol: SaveWorkspaceProtocol,
    workspace_version: &str,
    requested: Option<&str>,
) -> (s: String)
    ensures
        s@ == added_workspace_spec(
            save_workspace_protocol,
            workspace_version@,
            requested.deep_view(),
        ),
{
    match save_workspace_protocol {
        SaveWorkspaceProtocol::Rolling => match requested {
            Some(requested) => if text::has_prefix(requested, "~") {
                text::copy("workspace:~")
            } else if !text::has_prefix(requested, "^") && text::has_prefix(
                requested,
                "workspace:",
            ) {
                text::copy(requested)
            } else {
                text::copy("workspace:^")
            },
            None => text::copy("workspace:^"),
        },
        _ => workspace_spec_with_prefix(
            workspace_version,
            match requested {
                Some(requested) => requested,
                None => "^",
            },
        ),
    }
}

/// What a group of an importer says of a package, unless that is a link.
pub open spec fn group_spec(project: ProjectModel, group: DependencyGroup, name: Seq<char>) -> Option<
    Seq<char>,
> {
    match lockfile::group_map(project, group) {
        Some(map) => if map.dom().contains(name) && !(map[name].version is Link) {
            Some(map[name].specifier)
        } else {
            None
        },
        None => None,
    }
}

/// What an importer asks for of a package, unless that is a link.
pub open spec fn direct_spec(project: ProjectModel, name: Seq<char>) -> Option<Seq<char>> {
    match group_spec(project, DependencyGroup::Prod, name) {
        Some(found) => Some(found),
        None => match group_spec(project, DependencyGroup::Optional, name) {
            Some(found) => Some(found),
            None => group_spec(project, DependencyGroup::Dev, name),
        },
    }
}

fn find_group_spec(project: &ProjectSnapshot, group: DependencyGroup, name: &str) -> (found: Option<
    String,
>)
    ensures
        found.deep_view() == group_spec(project.deep_view(), group, name@),
{
    match project.get_map_by_group(group) {
        Some(map) => match map.get_text(name) {
            Some(wanted) => match wanted.version {
                ResolvedDependencyVersion::Link(_) => None,
                _ => Some(wanted.specifier.clone()),
            },
            None => None,
        },
        None => None,
    }
}

/// What an importer asks for of a package, unless that is a link.
pub fn find_direct_dependency_spec_in_snapshot(snapshot: &ProjectSnapshot, package_name: &str) -> (found:
    Option<String>)
    ensures
        found.deep_view() == direct_spec(snapshot.deep_view(), package_name@),
{
    match find_group_spec(snapshot, DependencyGroup::Prod, package_name) {
        Some(found) => Some(found),
        None => match find_group_spec(snapshot, DependencyGroup::Optional, package_name) {
            Some(found) => Some(found),
            None => find_group_spec(snapshot, DependencyGroup::Dev, package_name),
        },
    }
}

/// What the first of some importers asks for of a package.
pub open spec fn first_direct_spec(
    importers: Seq<(Seq<char>, ProjectModel)>,
    name: Seq<char>,
    from: int,
) -> Option<Seq<char>>
    decreases importers.len() - from,
{
    if from >= importers.len() {
        None
    } else {
        match direct_spec(importers[from].1, name) {
            Some(found) => Some(found),
            None => first_direct_spec(importers, name, from + 1),
        }
    }
}

/// What the importers of a lockfile ask for of a package.
pub open spec fn existing_spec(root: RootProjectSnapshot, name: Seq<char>) -> Option<Seq<char>> {
    match root {
        RootProjectSnapshot::Single(project) => direct_spec(project.deep_view(), name),
        RootProjectSnapshot::Multi(importers) => first_direct_spec(importers.pairs(), name, 0),
    }
}

/// What some importer of the lockfile asks for of a package, unless that is a
/// link.
pub fn find_existing_workspace_direct_dependency_spec(
    lockfile: Option<&Lockfile>,
    package_name: &str,
) -> (found: Option<String>)
    ensures
        found.deep_view() == (match lockfile {
            Some(lockfile) => existing_spec(lockfile.project_snapshot, package_name@),
            None => None,
        }),
{
    let importers = match lockfile {
        Some(lockfile) => match &lockfile.project_snapshot {
            RootProjectSnapshot::Single(project) => {
                return find_direct_dependency_spec_in_snapshot(project, package_name);
            },
            RootProjectSnapshot::Multi(importers) => importers,
        },
        None => {
            return None;
        },
    };
    let n: usize = importers.len();
    let mut i: usize = 0;
    while i < n
        invariant
            i <= n,
            n == importers.pairs().len(),
            lockfile is Some,
            lockfile->0.project_snapshot == RootProjectSnapshot::Multi(*importers),
            first_direct_spec(importers.pairs(), package_name@, 0) == first_direct_spec(
                importers.pairs(),
                package_name@,
                i as int,
            ),
        decreases n - i,
    {
        let found = find_direct_dependency_spec_in_snapshot(importers.value_at(i), package_name);
        if found.is_some() {
            return found;
        }
        i = i + 1;
    }
    None
}

/// The protocol and the path of what was asked for, were it a directory.
pub open spec fn local_parts(package: Seq<char>) -> (Seq<char>, Seq<char>) {
    match text::stripped_prefix(package, "file:"@) {
        Some(path) => ("file:"@, path),
        None => match text::stripped_prefix(package, "link:"@) {
            Some(path) => ("link:"@, path),
            None => ("link:"@, package),
        },
    }
}

fn local_parts_of<'a>(package: &'a str) -> (parts: (&'static str, &'a str))
    ensures
        (parts.0@, parts.1@) == local_parts(package@),
{
    match text::strip_prefix(package, "file:") {
        Some(path) => ("file:", path),
        None => match text::strip_prefix(package, "link:") {
            Some(path) => ("link:", path),
            None => ("link:", package),
        },
    }
}

/// The directory that was asked for, were it one.
pub fn local_path_candidate(project_dir: &str, package: &str, on_windows: bool) -> (path: String)
    ensures
        path@ == paths::joined(project_dir@, local_parts(package@).1, on_windows),
{
    let (_, path) = local_parts_of(package);
    paths::join_paths(project_dir, path, on_windows)
}

/// What was found where a directory would be: nothing; something with a
/// manifest; or something without one.
#[derive(Debug)]
pub enum LocalFound {
    Absent,
    Manifest(Json),
    NoManifest,
}

/// What parts the names in a path.
pub open spec fn separator(on_windows: bool) -> char {
    if on_windows {
        '\\'
    } else {
        '/'
    }
}

/// How a directory is written into a manifest.
pub open spec fn local_text(
    project_dir: Seq<char>,
    package: Seq<char>,
    on_windows: bool,
) -> Seq<char> {
    let separator = separator(on_windows);
    let (protocol, path) = local_parts(package);
    if paths::is_absolute(path, on_windows) {
        protocol + text::replace_char(path, '\\', "/"@)
    } else {
        let normalized = text::replace_char(
            text::replace_char(path, '/', seq![separator]),
            '\\',
            seq![separator],
        );
        protocol + (match text::stripped_prefix(normalized, seq!['.', separator]) {
            Some(rest) => rest,
            None => normalized,
        })
    }
}

fn local_text_of(project_dir: &str, package: &str, on_windows: bool) -> (s: String)
    ensures
        s@ == local_text(project_dir@, package@, on_windows),
{
    let separator: char = if on_windows {
        '\\'
    } else {
        '/'
    };
    let (protocol, path) = local_parts_of(package);
    if paths::is_absolute_path(path, on_windows) {
        return text::copy(protocol).concat(text::replace(path, '\\', "/").as_str());
    }
    let mark = text::repeat_char(separator, 1);
    assert(mark@ =~= seq![separator]);
    let once = text::replace(path, '/', mark.as_str());
    let normalized = text::replace(once.as_str(), '\\', mark.as_str());
    let mut here = text::repeat_char('.', 1);
    here.push(separator);
    assert(here@ =~= seq!['.', separator]);
    let rest = match text::strip_prefix(normalized.as_str(), here.as_str()) {
        Some(rest) => rest,
        None => normalized.as_str(),
    };
    text::copy(protocol).concat(rest)
}

/// What comes of taking what was asked for to be a directory: its name and how
/// it is written, nothing, or what is missing.
pub enum LocalModel {
    NoDirectory,
    Directory(Seq<char>, Seq<char>),
    NoName(Seq<char>),
    NoPath(Seq<char>),
}

/// What comes of taking what was asked for to be a directory.
pub open spec fn local_spec(
    project_dir: Seq<char>,
    package: Seq<char>,
    found: LocalFound,
    on_windows: bool,
) -> LocalModel {
    let path = paths::joined(project_dir, local_parts(package).1, on_windows);
    let written = local_text(project_dir, package, on_windows);
    match found {
        LocalFound::Absent => LocalModel::NoDirectory,
        LocalFound::Manifest(manifest) => match json::as_text(
            json::field(manifest.deep_view(), "name"@),
        ) {
            Some(name) => LocalModel::Directory(name, written),
            None => LocalModel::NoName(paths::joined(path, "package.json"@, on_windows)),
        },
        LocalFound::NoManifest => match paths::file_name(path, on_windows) {
            Some(name) => LocalModel::Directory(name, written),
            None => LocalModel::NoPath(package),
        },
    }
}

/// A result as a mathematical value.
pub open spec fn local_result(result: Result<Option<(String, String)>, AddError>) -> Option<
    LocalModel,
> {
    match result {
        Ok(None) => Some(LocalModel::NoDirectory),
        Ok(Some((name, written))) => Some(LocalModel::Directory(name@, written@)),
        Err(AddError::LocalDependencyManifestNameMissing { path }) => Some(
            LocalModel::NoName(path@),
        ),
        Err(AddError::LocalDependencyPathNotFound { path }) => Some(LocalModel::NoPath(path@)),
        _ => None,
    }
}

/// The name of a directory that was asked for and how it is written, given what
/// was found there.
pub fn resolve_local_path_spec(
    project_dir: &str,
    package: &str,
    found: &LocalFound,
    on_windows: bool,
) -> (result: Result<Option<(String, String)>, AddError>)
    ensures
        local_result(result) == Some(local_spec(project_dir@, package@, *found, on_windows)),
{
    let path = local_path_candidate(project_dir, package, on_windows);
    let name = match found {
        LocalFound::Absent => {
            return Ok(None);
        },
        LocalFound::Manifest(manifest) => {
            let name = match manifest.get("name") {
                Some(name) => match name {
                    Json::Text(name) => Some(name.clone()),
                    _ => None,
                },
                None => None,
            };
            match name {
                Some(name) => name,
                None => {
                    return Err(
                        AddError::LocalDependencyManifestNameMissing {
                            path: paths::join_paths(path.as_str(), "package.json", on_windows),
                        },
                    );
                },
            }
        },
        LocalFound::NoManifest => match paths::path_file_name(path.as_str(), on_windows) {
            Some(name) => name,
            None => {
                return Err(
                    AddError::LocalDependencyPathNotFound { path: text::copy(package) },
                );
            },
        },
    };
    Ok(Some((name, local_text_of(project_dir, package, on_windows))))
}

/// What is known when a package is added.
pub struct AddCase<'a> {
    pub config: &'a Npmrc,
    pub workspace_packages: &'a WorkspacePackages,
    pub lockfile: Option<&'a Lockfile>,
    pub project_dir: &'a str,
    pub package: &'a str,
    pub save_exact: bool,
    pub workspace_only: bool,
    pub is_tarball: bool,
    pub local: &'a LocalFound,
    pub on_windows: bool,
}

/// What is to be done to know what is written into the manifest: a package under
/// another name is looked up; a repository is looked up; a tarball is looked up;
/// nothing; or a version of the package is looked up in its registry.
#[allow(inconsistent_fields)]
#[derive(Debug)]
pub enum AddStep {
    Alias { alias: String, target: String, requested: Option<String> },
    GitAs { name: String, git: String, save: String },
    Tarball { spec_text: String },
    Git { git: String, save: String },
    Done { name: String, spec_text: String },
    Latest { name: String },
    Tag { name: String, tag: String },
    Range { name: String, range: String },
}

/// What is to be done, or what is wrong, as a mathematical value.
pub enum AddModel {
    Alias(Seq<char>, Seq<char>, Option<Seq<char>>),
    GitAs(Seq<char>, Seq<char>, Seq<char>),
    Tarball(Seq<char>),
    Git(Seq<char>, Seq<char>),
    Done(Seq<char>, Seq<char>),
    Latest(Seq<char>),
    Tag(Seq<char>, Seq<char>),
    Range(Seq<char>, Seq<char>),
    NoName(Seq<char>),
    NoPath(Seq<char>),
    NotInWorkspace(Seq<char>),
    Other,
}

/// What is to be done as a mathematical value.
pub open spec fn step_model(result: Result<AddStep, AddError>) -> AddModel {
    match result {
        Ok(step) => match step {
            AddStep::Alias { alias, target, requested } => AddModel::Alias(
                alias@,
                target@,
                requested.deep_view(),
            ),
            AddStep::GitAs { name, git, save } => AddModel::GitAs(name@, git@, save@),
            AddStep::Tarball { spec_text } => AddModel::Tarball(spec_text@),
            AddStep::Git { git, save } => AddModel::Git(git@, save@),
            AddStep::Done { name, spec_text } => AddModel::Done(name@, spec_text@),
            AddStep::Latest { name } => AddModel::Latest(name@),
            AddStep::Tag { name, tag } => AddModel::Tag(name@, tag@),
            AddStep::Range { name, range } => AddModel::Range(name@, range@),
        },
        Err(AddError::LocalDependencyManifestNameMissing { path }) => AddModel::NoName(path@),
        Err(AddError::LocalDependencyPathNotFound { path }) => AddModel::NoPath(path@),
        Err(AddError::WorkspacePackageNotFound { package }) => AddModel::NotInWorkspace(package@),
        _ => AddModel::Other,
    }
}

/// How a repository is written into a manifest.
pub open spec fn saved_git(git: Seq<char>) -> Seq<char> {
    match git_spec::normal_form(git) {
        Some(normal) => normal,
        None => git,
    }
}

fn save_git(git: &str) -> (s: String)
    ensures
        s@ == saved_git(git@),
{
    match git_spec::normalize_git_spec(git) {
        Some(normal) => normal,
        None => text::copy(git),
    }
}

/// How a version is written into a manifest.
pub open spec fn saved_version(version: Seq<char>, save_exact: bool) -> Seq<char> {
    if save_exact {
        version
    } else {
        "^"@ + version
    }
}

/// How a version is written into a manifest: as it is, or as the start of a
/// range.
pub fn save_version(version: &str, save_exact: bool) -> (s: String)
    ensures
        s@ == saved_version(version@, save_exact),
{
    if save_exact {
        text::copy(version)
    } else {
        text::copy("^").concat(version)
    }
}

/// What is to be done for a package that comes from a registry.
pub open spec fn registry_model(
    name: Seq<char>,
    requested: Option<Seq<char>>,
    existing: Option<Seq<char>>,
) -> AddModel {
    match requested {
        None => match existing {
            Some(existing) => AddModel::Done(name, existing),
            None => AddModel::Latest(name),
        },
        Some(requested) => if is_tag(requested) {
            AddModel::Tag(name, requested)
        } else {
            AddModel::Range(name, requested)
        },
    }
}

/// What is to be done for a package that is looked for in the workspace first.
pub open spec fn workspace_model(
    config: Npmrc,
    packages: Map<Seq<char>, WorkspacePackageModel>,
    existing: Option<Seq<char>>,
    name: Seq<char>,
    requested: Option<Seq<char>>,
    save_exact: bool,
    workspace_only: bool,
) -> AddModel {
    let protocol = config.save_workspace_protocol;
    let by_protocol = requested matches Some(requested) && text::starts_with(
        requested,
        "workspace:"@,
    );
    if by_protocol || workspace_only {
        if !packages.dom().contains(name) {
            AddModel::NotInWorkspace(name)
        } else if by_protocol {
            AddModel::Done(
                name,
                if protocol is Rolling {
                    requested->0
                } else {
                    pinned_workspace_spec(packages[name].version, requested->0)
                },
            )
        } else {
            AddModel::Done(name, added_workspace_spec(protocol, packages[name].version, requested))
        }
    } else if requested is None && packages.dom().contains(name) && !(protocol is False) {
        AddModel::Done(name, added_workspace_spec(protocol, packages[name].version, None))
    } else if requested is None && packages.dom().contains(name)
        && !(config.link_workspace_packages is False) {
        AddModel::Done(name, saved_version(packages[name].version, save_exact))
    } else {
        registry_model(name, requested, existing)
    }
}

/// What is to be done for a package that is added.
pub open spec fn add_model(case: AddCase) -> AddModel {
    let package = case.package@;
    let (name, requested) = split_spec(package);
    let existing = match case.lockfile {
        Some(lockfile) => existing_spec(lockfile.project_snapshot, name),
        None => None,
    };
    match alias_spec(package) {
        Some((alias, target, wanted)) => AddModel::Alias(alias, target, wanted),
        None => if requested is Some && git_spec::is_git(requested->0) {
            AddModel::GitAs(name, requested->0, saved_git(requested->0))
        } else {
            match local_spec(case.project_dir@, package, *case.local, case.on_windows) {
                LocalModel::Directory(name, written) => AddModel::Done(name, written),
                LocalModel::NoName(path) => AddModel::NoName(path),
                LocalModel::NoPath(path) => AddModel::NoPath(path),
                LocalModel::NoDirectory => if case.is_tarball {
                    AddModel::Tarball(package)
                } else if git_spec::is_git(package) {
                    AddModel::Git(package, saved_git(package))
                } else {
                    workspace_model(
                        *case.config,
                        case.workspace_packages.deep_view(),
                        existing,
                        name,
                        requested,
                        case.save_exact,
                        case.workspace_only,
                    )
                },
            }
        },
    }
}

fn workspace_step(case: &AddCase, name: &str, requested: Option<&str>) -> (step: Result<
    AddStep,
    AddError,
>)
    ensures
        step_model(step) == workspace_model(
            *case.config,
            case.workspace_packages.deep_view(),
            match case.lockfile {
                Some(lockfile) => existing_spec(lockfile.project_snapshot, name@),
                None => None,
            },
            name@,
            requested.deep_view(),
            case.save_exact,
            case.workspace_only,
        ),
{
    let protocol = case.config.save_workspace_protocol;
    let found = case.workspace_packages.get_text(name);
    let by_protocol = match requested {
        Some(requested) => text::has_prefix(requested, "workspace:"),
        None => false,
    };
    if by_protocol || case.workspace_only {
        let info = match found {
            Some(info) => info,
            None => {
                return Err(AddError::WorkspacePackageNotFound { package: text::copy(name) });
            },
        };
        let spec_text = match requested {
            Some(requested) if by_protocol => match protocol {
                SaveWorkspaceProtocol::Rolling => text::copy(requested),
                _ => workspace_spec_with_prefix(info.version.as_str(), requested),
            },
            _ => render_added_workspace_spec(protocol, info.version.as_str(), requested),
        };
        return Ok(AddStep::Done { name: text::copy(name), spec_text });
    }
    let requested = match requested {
        Some(requested) => requested,
        None => {
            if let Some(info) = found {
                match protocol {
                    SaveWorkspaceProtocol::False => {
                        match case.config.link_workspace_packages {
                            LinkWorkspacePackages::False => {},
                            _ => {
                                return Ok(
                                    AddStep::Done {
                                        name: text::copy(name),
                                        spec_text: save_version(
                                            info.version.as_str(),
                                            case.save_exact,
                                        ),
                                    },
                                );
                            },
                        }
                    },
                    _ => {
                        return Ok(
                            AddStep::Done {
                                name: text::copy(name),
                                spec_text: render_added_workspace_spec(
                                    protocol,
                                    info.version.as_str(),
                                    None,
                                ),
                            },
                        );
                    },
                }
            }
            return match find_existing_workspace_direct_dependency_spec(case.lockfile, name) {
                Some(spec_text) => Ok(AddStep::Done { name: text::copy(name), spec_text }),
                None => Ok(AddStep::Latest { name: text::copy(name) }),
            };
        },
    };
    if parses_as_tag(requested) {
        Ok(AddStep::Tag { name: text::copy(name), tag: text::copy(requested) })
    } else {
        Ok(AddStep::Range { name: text::copy(name), range: text::copy(requested) })
    }
}

/// What is to be done to know what is written into the manifest for a package
/// that is added.
pub fn resolve_package_spec(case: &AddCase) -> (step: Result<AddStep, AddError>)
    ensures
        step_model(step) == add_model(*case),
{
    if let Some((alias, target, requested)) = parse_npm_alias_spec(case.package) {
        let requested = match requested {
            Some(requested) => Some(text::copy(requested)),
            None => None,
        };
        return Ok(
            AddStep::Alias { alias: text::copy(alias), target: text::copy(target), requested },
        );
    }
    let (name, requested) = split_package_spec(case.package);
    if let Some(requested) = requested {
        if git_spec::is_git_spec(requested) {
            return Ok(
                AddStep::GitAs {
                    name: text::copy(name),
                    git: text::copy(requested),
                    save: save_git(requested),
                },
            );
        }
    }
    match resolve_local_path_spec(case.project_dir, case.package, case.local, case.on_windows) {
        Err(error) => {
            return Err(error);
        },
        Ok(Some((name, spec_text))) => {
            return Ok(AddStep::Done { name, spec_text });
        },
        Ok(None) => {},
    }
    if case.is_tarball {
        return Ok(AddStep::Tarball { spec_text: text::copy(case.package) });
    }
    if git_spec::is_git_spec(case.package) {
        return Ok(
            AddStep::Git { git: text::copy(case.package), save: save_git(case.package) },
        );
    }
    workspace_step(case, name, requested)
}

/// What is asked of a registry for a package under another name.
#[derive(Debug)]
pub enum AliasRequest {
    Latest,
    Tag(String),
    Range(String),
}

/// What is asked of a registry for a package under another name.
pub fn alias_request(requested: Option<&str>) -> (request: AliasRequest)
    ensures
        match request {
            AliasRequest::Latest => requested is None,
            AliasRequest::Tag(tag) => requested is Some && is_tag(requested->0@) && tag@
                == requested->0@,
            AliasRequest::Range(range) => requested is Some && !is_tag(requested->0@) && range@
                == requested->0@,
        },
{
    match requested {
        None => AliasRequest::Latest,
        Some(requested) => if parses_as_tag(requested) {
            AliasRequest::Tag(text::copy(requested))
        } else {
            AliasRequest::Range(text::copy(requested))
        },
    }
}

/// What is written for a package under another name: the version that is the
/// latest, or what was asked for.
pub open spec fn alias_version(requested: Option<Seq<char>>, version: Seq<char>, save_exact: bool) -> Seq<
    char,
> {
    match requested {
        Some(requested) if !(registry::request_of(requested) is Latest) => requested,
        _ => saved_version(version, save_exact),
    }
}

/// What is written for a package under another name, given the version that the
/// registry has for a tag. What was asked for as a version stays as it is.
pub fn resolve_npm_alias_target_spec(requested: Option<&str>, version: &str, save_exact: bool) -> (s:
    String)
    ensures
        s@ == alias_version(requested.deep_view(), version@, save_exact),
{
    match requested {
        Some(requested) => {
            if Version::parse(requested).is_none() && text::same_text(requested, "latest") {
                save_version(version, save_exact)
            } else {
                text::copy(requested)
            }
        },
        None => save_version(version, save_exact),
    }
}

/// What is written into a manifest for a package under another name.
pub fn alias_to_manifest(alias: &str, target: &str, resolved: &str) -> (entry: (String, String))
    ensures
        entry.0@ == alias@,
        entry.1@ == "npm:"@ + target@ + "@"@ + resolved@,
{
    (text::copy(alias), text::copy("npm:").concat(target).concat("@").concat(resolved))
}

/// What is written into a manifest for a range of versions: an error where no
/// version belongs to it.
pub fn range_to_manifest(name: &str, range: &str, found: bool) -> (result: Result<
    (String, String),
    AddError,
>)
    ensures
        match result {
            Ok(entry) => found && entry.0@ == name@ && entry.1@ == range@,
            Err(error) => {
                &&& !found
                &&& error matches AddError::NoMatchingVersion { package, spec_text } && package@
                    == name@ && spec_text@ == range@
            },
        },
{
    if found {
        Ok((text::copy(name), text::copy(range)))
    } else {
        Err(
            AddError::NoMatchingVersion {
                package: text::copy(name),
                spec_text: text::copy(range),
            },
        )
    }
}

/// What is written into the groups of a manifest for packages.
pub open spec fn manifest_entries(
    added: Seq<(Seq<char>, Seq<char>)>,
    groups: Seq<DependencyGroup>,
) -> Seq<pnpmfile::Wish>
    decreases added.len(),
{
    if added.len() == 0 {
        Seq::empty()
    } else {
        manifest_entries(added.drop_last(), groups) + groups.map_values(
            |group: DependencyGroup| (group, added.last().0, added.last().1),
        )
    }
}

/// What is written into the groups of a manifest for packages that are added.
pub fn entries_to_add(added: &Vec<(String, String)>, groups: &Vec<DependencyGroup>) -> (entries: Vec<
    (DependencyGroup, String, String),
>)
    ensures
        pnpmfile::wishes_of(entries@) == manifest_entries(added.deep_view(), groups@),
{
    let ghost all = added.deep_view();
    let mut entries: Vec<(DependencyGroup, String, String)> = Vec::new();
    let mut i: usize = 0;
    assert(pnpmfile::wishes_of(entries@) =~= manifest_entries(all.take(0), groups@));
    while i < added.len()
        invariant
            i <= added@.len(),
            all == added.deep_view(),
            pnpmfile::wishes_of(entries@) == manifest_entries(all.take(i as int), groups@),
        decreases added@.len() - i,
    {
        let ghost first = pnpmfile::wishes_of(entries@);
        let ghost here = groups@.map_values(
            |group: DependencyGroup| (group, all[i as int].0, all[i as int].1),
        );
        let mut g: usize = 0;
        assert(pnpmfile::wishes_of(entries@) =~= first + here.take(0));
        while g < groups.len()
            invariant
                g <= groups@.len(),
                i < added@.len(),
                all == added.deep_view(),
                here == groups@.map_values(
                    |group: DependencyGroup| (group, all[i as int].0, all[i as int].1),
                ),
                pnpmfile::wishes_of(entries@) == first + here.take(g as int),
            decreases groups@.len() - g,
        {
            let ghost before = pnpmfile::wishes_of(entries@);
            entries.push((groups[g], added[i].0.clone(), added[i].1.clone()));
            proof {
                assert(all[i as int] == (added@[i as int].0@, added@[i as int].1@));
                assert(here.take(g + 1) =~= here.take(g as int).push(here[g as int]));
                assert(pnpmfile::wishes_of(entries@) =~= before.push(here[g as int]));
                assert(pnpmfile::wishes_of(entries@) =~= first + here.take(g + 1));
            }
            g = g + 1;
        }
        proof {
            assert(here.take(g as int) =~= here);
            assert(all.take(i + 1).drop_last() =~= all.take(i as int));
            assert(all.take(i + 1).last() == all[i as int]);
        }
        i = i + 1;
    }
    assert(all.take(i as int) =~= all);
    entries
}

/// The packages of one group, one to a line.
pub open spec fn added_lines(entries: Seq<pnpmfile::Wish>, group: DependencyGroup) -> Seq<char>
    decreases entries.len(),
{
    if entries.len() == 0 {
        Seq::empty()
    } else if entries.last().0 == group {
        added_lines(entries.drop_last(), group) + summary::dependency_line(
            '+',
            entries.last().1,
            entries.last().2,
        ) + "\n"@
    } else {
        added_lines(entries.drop_last(), group)
    }
}

/// A group has packages.
pub open spec fn has_group(entries: Seq<pnpmfile::Wish>, group: DependencyGroup) -> bool {
    exists|i: int| 0 <= i < entries.len() && (#[trigger] entries[i]).0 == group
}

/// A group in the summary, unless it is empty.
pub open spec fn added_section(entries: Seq<pnpmfile::Wish>, group: DependencyGroup) -> Seq<char> {
    if has_group(entries, group) {
        manifest_check::group_field(group) + ":\n"@ + added_lines(entries, group) + "\n"@
    } else {
        Seq::empty()
    }
}

/// The summary of what was added.
pub open spec fn add_summary(
    entries: Seq<pnpmfile::Wish>,
    added: int,
    elapsed_ms: nat,
    version: Seq<char>,
) -> Seq<char> {
    (if added == 0 {
        "Already up to date\n\n"@
    } else {
        "Packages: +"@ + text::decimal(added as nat) + "\n"@ + text::repeat(
            '+',
            summary::at_most(added, 80),
        ) + "\n\n"@
    }) + added_section(entries, DependencyGroup::Prod) + added_section(
        entries,
        DependencyGroup::Dev,
    ) + added_section(entries, DependencyGroup::Optional) + added_section(
        entries,
        DependencyGroup::Peer,
    ) + "Done in "@ + text::decimal(elapsed_ms) + "ms using pacquet v"@ + version + "\n"@
}

fn same_group(a: DependencyGroup, b: DependencyGroup) -> (same: bool)
    ensures
        same == (a == b),
{
    match (a, b) {
        (DependencyGroup::Prod, DependencyGroup::Prod) => true,
        (DependencyGroup::Dev, DependencyGroup::Dev) => true,
        (DependencyGroup::Optional, DependencyGroup::Optional) => true,
        (DependencyGroup::Peer, DependencyGroup::Peer) => true,
        _ => false,
    }
}

fn write_added_section(
    entries: &Vec<(DependencyGroup, String, String)>,
    group: DependencyGroup,
) -> (s: String)
    ensures
        s@ == added_section(pnpmfile::wishes_of(entries@), group),
{
    let ghost all = pnpmfile::wishes_of(entries@);
    let mut lines = String::new();
    let mut any = false;
    let mut i: usize = 0;
    assert(lines@ =~= added_lines(all.take(0), group));
    while i < entries.len()
        invariant
            i <= entries@.len(),
            all == pnpmfile::wishes_of(entries@),
            any == has_group(all.take(i as int), group),
            lines@ == added_lines(all.take(i as int), group),
        decreases entries@.len() - i,
    {
        proof {
            assert(all.take(i + 1).drop_last() =~= all.take(i as int));
            assert(all.take(i + 1).last() == all[i as int]);
            assert(all[i as int] == pnpmfile::wish_of(entries@[i as int]));
            assert forall|j: int| 0 <= j < i implies (#[trigger] all.take(i + 1)[j]) == all.take(
                i as int,
            )[j] by {}
            if has_group(all.take(i as int), group) {
                let j = choose|j: int|
                    0 <= j < all.take(i as int).len() && (#[trigger] all.take(i as int)[j]).0
                        == group;
                assert(all.take(i + 1)[j].0 == group);
            }
            if has_group(all.take(i + 1), group) {
                let j = choose|j: int|
                    0 <= j < all.take(i + 1).len() && (#[trigger] all.take(i + 1)[j]).0 == group;
                if j < i {
                    assert(all.take(i as int)[j].0 == group);
                }
            }
            assert(all.take(i + 1)[i as int] == all[i as int]);
        }
        if same_group(entries[i].0, group) {
            any = true;
            lines = lines.concat(
                summary::format_summary_dependency_line(
                    entries[i].1.as_str(),
                    entries[i].2.as_str(),
                ).as_str(),
            ).concat("\n");
        }
        i = i + 1;
    }
    assert(all.take(i as int) =~= all);
    if any {
        text::copy(pnpmfile::group_name(group)).concat(":\n").concat(lines.as_str()).concat("\n")
    } else {
        let none = String::new();
        assert(none@ =~= Seq::<char>::empty());
        none
    }
}

/// The summary of what was added, group by group in the order of their names.
pub fn format_add_summary(
    entries: &Vec<(DependencyGroup, String, String)>,
    added: usize,
    elapsed_ms: u128,
    version: &str,
) -> (s: String)
    ensures
        s@ == add_summary(
            pnpmfile::wishes_of(entries@),
            added as int,
            elapsed_ms as nat,
            version@,
        ),
{
    let head = if added == 0 {
        text::copy("Already up to date\n\n")
    } else {
        let bar: usize = if added < 80 {
            added
        } else {
            80
        };
        text::copy("Packages: +").concat(text::decimal_text(added as u128).as_str()).concat(
            "\n",
        ).concat(text::repeat_char('+', bar).as_str()).concat("\n\n")
    };
    head.concat(write_added_section(entries, DependencyGroup::Prod).as_str()).concat(
        write_added_section(entries, DependencyGroup::Dev).as_str(),
    ).concat(write_added_section(entries, DependencyGroup::Optional).as_str()).concat(
        write_added_section(entries, DependencyGroup::Peer).as_str(),
    ).concat("Done in ").concat(text::decimal_text(elapsed_ms).as_str()).concat(
        "ms using pacquet v",
    ).concat(version).concat("\n")
}

/// A package that is asked for by the protocol of the workspace comes from the
/// workspace or not at all.
pub proof fn law_workspace_protocol_stays_in_the_workspace(
    config: Npmrc,
    packages: Map<Seq<char>, WorkspacePackageModel>,
    existing: Option<Seq<char>>,
    name: Seq<char>,
    requested: Seq<char>,
    save_exact: bool,
    workspace_only: bool,
)
    requires
        text::starts_with(requested, "workspace:"@),
    ensures
        ({
            let model = workspace_model(
                config,
                packages,
                existing,
                name,
                Some(requested),
                save_exact,
                workspace_only,
            );
            if packages.dom().contains(name) {
                model is Done && text::starts_with(model->Done_1, "workspace:"@)
            } else {
                model == AddModel::NotInWorkspace(name)
            }
        }),
{
    reveal_strlit("workspace:");
    reveal_strlit("workspace:~");
    reveal_strlit("workspace:^");
    if packages.dom().contains(name) {
        let version = packages[name].version;
        assert(("workspace:~"@ + version).subrange(0, 10) =~= "workspace:"@);
        assert(("workspace:^"@ + version).subrange(0, 10) =~= "workspace:"@);
        assert(("workspace:"@ + version).subrange(0, 10) =~= "workspace:"@);
    }
}

/// The parts of what was asked for make it up again, with an `@` between them.
pub proof fn law_split_parts_join(package: Seq<char>)
    ensures
        match split_spec(package) {
            (name, Some(requested)) => requested.len() > 0 && package == name + "@"@ + requested,
            (name, None) => package == name,
        },
{
    reveal_strlit("@");
    text::lemma_last_index(package, '@');
    if let (name, Some(requested)) = split_spec(package) {
        assert(package =~= name + "@"@ + requested);
    }
}

/// An importer asks for a package in one of its groups, by a specifier, and does not
/// link to it.
pub open spec fn asks_for(project: ProjectModel, name: Seq<char>, specifier: Seq<char>) -> bool {
    ||| project.dependencies matches Some(map) && map.dom().contains(name)
        && map[name].specifier == specifier && !(map[name].version is Link)
    ||| project.optional_dependencies matches Some(map) && map.dom().contains(name)
        && map[name].specifier == specifier && !(map[name].version is Link)
    ||| project.dev_dependencies matches Some(map) && map.dom().contains(name)
        && map[name].specifier == specifier && !(map[name].version is Link)
}

/// Some importer of a lockfile, the only one or one of several, asks for a package by
/// a specifier.
pub open spec fn some_asks_for(
    root: RootProjectSnapshot,
    name: Seq<char>,
    specifier: Seq<char>,
) -> bool {
    match root {
        RootProjectSnapshot::Single(project) => asks_for(project.deep_view(), name, specifier),
        RootProjectSnapshot::Multi(importers) => exists|k: int|
            0 <= k < importers.pairs().len() && #[trigger] asks_for(
                importers.pairs()[k].1,
                name,
                specifier,
            ),
    }
}

proof fn lemma_direct_spec(project: ProjectModel, name: Seq<char>)
    ensures
        direct_spec(project, name) matches Some(found) ==> asks_for(project, name, found),
        direct_spec(project, name) is None ==> forall|specifier: Seq<char>| !#[trigger] asks_for(
            project,
            name,
            specifier,
        ),
{
}

proof fn lemma_first_direct_spec(
    importers: Seq<(Seq<char>, ProjectModel)>,
    name: Seq<char>,
    from: int,
)
    requires
        0 <= from,
    ensures
        first_direct_spec(importers, name, from) matches Some(found) ==> exists|k: int|
            from <= k < importers.len() && #[trigger] asks_for(importers[k].1, name, found),
        first_direct_spec(importers, name, from) is None ==> forall|k: int, specifier: Seq<char>|
            from <= k < importers.len() ==> !#[trigger] asks_for(
                importers[k].1,
                name,
                specifier,
            ),
    decreases importers.len() - from,
{
    if from < importers.len() {
        lemma_direct_spec(importers[from].1, name);
        lemma_first_direct_spec(importers, name, from + 1);
    }
}

/// What a lockfile is found to ask for of a package is what one of its importers asks
/// for, the only one or one of several, in whatever group; nothing is found only where
/// none of them asks for the package, or all that do link to it.
pub proof fn law_existing_specifier_is_found(
    found: Option<String>,
    lockfile: Option<&Lockfile>,
    name: Seq<char>,
    specifier: Seq<char>,
)
    requires
        found.deep_view() == (match lockfile {
            Some(lockfile) => existing_spec(lockfile.project_snapshot, name),
            None => None,
        }),
    ensures
        found is Some ==> lockfile is Some && some_asks_for(
            lockfile->0.project_snapshot,
            name,
            found->0@,
        ),
        lockfile is Some && some_asks_for(lockfile->0.project_snapshot, name, specifier)
            ==> found is Some,
{
    if let Some(lockfile) = lockfile {
        match lockfile.project_snapshot {
            RootProjectSnapshot::Single(project) => {
                lemma_direct_spec(project.deep_view(), name);
            },
            RootProjectSnapshot::Multi(importers) => {
                lemma_first_direct_spec(importers.pairs(), name, 0);
            },
        }
    }
}

/// A package is asked for by its name alone: no `@` stands in it but that of a scope.
pub open spec fn is_name_alone(package: Seq<char>) -> bool {
    forall|k: int| 1 <= k < package.len() ==> package[k] != '@'
}

proof fn lemma_name_alone(package: Seq<char>)
    requires
        is_name_alone(package),
    ensures
        split_spec(package) == (package, None::<Seq<char>>),
        alias_spec(package) is None,
{
    reveal_strlit("@npm:");
    text::lemma_last_index(package, '@');
    assert(text::last_index(package, '@') <= 0);
    if package.len() > 0 && package[0] != '@' {
        assert(forall|k: int| 0 <= k < package.len() ==> package[k] != '@');
        assert(text::last_index(package, '@') == -1);
    }
    assert forall|j: int| 1 <= j implies !text::stands_at(package, "@npm:"@, j) by {
        if text::stands_at(package, "@npm:"@, j) {
            assert(package.subrange(j, j + 5)[0] == package[j]);
        }
    }
    if text::stands_at(package, "@npm:"@, 0) {
        lemma_first_stand(package, "@npm:"@, 0, 0);
    } else {
        lemma_no_stand(package, "@npm:"@, 0);
    }
}

/// A package that is added by its name alone and comes from the registry keeps the
/// specifier that an importer of the lockfile has for it, the only one or one of
/// several; only where none has one is the latest version asked for.
pub proof fn law_added_package_keeps_its_specifier(
    result: Result<AddStep, AddError>,
    case: AddCase,
    specifier: Seq<char>,
)
    requires
        step_model(result) == add_model(case),
        is_name_alone(case.package@),
        *case.local is Absent,
        !case.is_tarball,
        !git_spec::is_git(case.package@),
        !case.workspace_only,
        !case.workspace_packages.deep_view().dom().contains(case.package@),
    ensures
        case.lockfile is Some && some_asks_for(
            case.lockfile->0.project_snapshot,
            case.package@,
            specifier,
        ) ==> {
            &&& result matches Ok(AddStep::Done { name, spec_text }) && name@ == case.package@
                && some_asks_for(case.lockfile->0.project_snapshot, case.package@, spec_text@)
        },
        result matches Ok(AddStep::Done { name, spec_text }) ==> case.lockfile is Some
            && some_asks_for(case.lockfile->0.project_snapshot, case.package@, spec_text@),
        !(result is Ok && result->Ok_0 is Done) ==> {
            &&& result matches Ok(AddStep::Latest { name }) && name@ == case.package@
        },
{
    lemma_name_alone(case.package@);
    let name = case.package@;
    if let Some(lockfile) = case.lockfile {
        match lockfile.project_snapshot {
            RootProjectSnapshot::Single(project) => {
                lemma_direct_spec(project.deep_view(), name);
            },
            RootProjectSnapshot::Multi(importers) => {
                lemma_first_direct_spec(importers.pairs(), name, 0);
            },
        }
    }
}

/// What is asked for of a package of the registry is what is looked up: a version or
/// `latest` as a tag, and anything else as a range, under the name that was asked for.
pub proof fn law_requested_version_is_looked_up(
    result: Result<AddStep, AddError>,
    case: AddCase,
    asked_name: Seq<char>,
    requested: Seq<char>,
)
    requires
        step_model(result) == add_model(case),
        case.package@ == asked_name.push('@') + requested,
        asked_name.len() > 0,
        requested.len() > 0,
        !requested.contains('@'),
        forall|k: int| 1 <= k < asked_name.len() ==> asked_name[k] != '@',
        !text::starts_with(requested, "npm:"@),
        !text::starts_with(requested, "workspace:"@),
        *case.local is Absent,
        !case.is_tarball,
        !git_spec::is_git(requested),
        !git_spec::is_git(case.package@),
        !case.workspace_only,
    ensures
        semver::parsed_version(requested) is Some || requested == "latest"@ ==> (result matches Ok(
            AddStep::Tag { name, tag },
        ) && name@ == asked_name && tag@ == requested),
        semver::parsed_version(requested) is None && requested != "latest"@ ==> (result matches Ok(
            AddStep::Range { name, range },
        ) && name@ == asked_name && range@ == requested),
{
    lemma_asked_parts(case.package@, asked_name, requested);
}

proof fn lemma_asked_parts(package: Seq<char>, asked_name: Seq<char>, requested: Seq<char>)
    requires
        package == asked_name.push('@') + requested,
        asked_name.len() > 0,
        requested.len() > 0,
        !requested.contains('@'),
        forall|k: int| 1 <= k < asked_name.len() ==> asked_name[k] != '@',
        !text::starts_with(requested, "npm:"@),
    ensures
        split_spec(package) == (asked_name, Some(requested)),
        alias_spec(package) is None,
{
    reveal_strlit("@npm:");
    reveal_strlit("npm:");
    let m = asked_name.len() as int;
    assert forall|j: int| m < j < package.len() implies package[j] != '@' by {
        assert(package[j] == requested[j - m - 1]);
        assert(requested.contains(requested[j - m - 1]));
    }
    assert(package[m] == '@');
    text::lemma_last_index_is(package, '@', m);
    assert(package.subrange(0, m) =~= asked_name);
    assert(text::tail(package, m + 1) =~= requested);
    assert forall|j: int| 1 <= j implies !text::stands_at(package, "@npm:"@, j) by {
        if text::stands_at(package, "@npm:"@, j) {
            assert(package.subrange(j, j + 5)[0] == package[j]);
            assert(j == m);
            assert(requested.subrange(0, 4) =~= "npm:"@) by {
                assert forall|k: int| 0 <= k < 4 implies requested[k] == "npm:"@[k] by {
                    assert(package.subrange(j, j + 5)[k + 1] == package[j + k + 1]);
                }
            }
        }
    }
    if text::stands_at(package, "@npm:"@, 0) {
        lemma_first_stand(package, "@npm:"@, 0, 0);
    } else {
        lemma_no_stand(package, "@npm:"@, 0);
    }
}

/// A package that is added under another name is looked up under its own, with the
/// version that was asked for.
pub proof fn law_alias_is_looked_up_by_its_target(
    result: Result<AddStep, AddError>,
    case: AddCase,
    asked_alias: Seq<char>,
    asked_target: Seq<char>,
    version: Seq<char>,
)
    requires
        step_model(result) == add_model(case),
        case.package@ == asked_alias + "@npm:"@ + asked_target.push('@') + version,
        asked_alias.len() > 0,
        asked_target.len() > 0,
        version.len() > 0,
        !version.contains('@'),
        forall|k: int| 1 <= k < asked_alias.len() ==> asked_alias[k] != '@',
        !text::starts_with(asked_alias, "@npm:"@),
    ensures
        result matches Ok(AddStep::Alias { alias, target, requested }) && alias@ == asked_alias
            && target@ == asked_target && requested.deep_view() == Some(version),
{
    lemma_alias_parts(case.package@, asked_alias, asked_target, version);
}

proof fn lemma_alias_parts(
    package: Seq<char>,
    asked_alias: Seq<char>,
    asked_target: Seq<char>,
    version: Seq<char>,
)
    requires
        package == asked_alias + "@npm:"@ + asked_target.push('@') + version,
        asked_alias.len() > 0,
        asked_target.len() > 0,
        version.len() > 0,
        !version.contains('@'),
        forall|k: int| 1 <= k < asked_alias.len() ==> asked_alias[k] != '@',
        !text::starts_with(asked_alias, "@npm:"@),
    ensures
        alias_spec(package) == Some((asked_alias, asked_target, Some(version))),
{
    reveal_strlit("@npm:");
    let n = asked_alias.len() as int;
    let rest = asked_target.push('@') + version;
    assert(package =~= asked_alias + "@npm:"@ + rest);
    assert(package.subrange(n, n + 5) =~= "@npm:"@);
    assert forall|j: int| 0 <= j < n implies !text::stands_at(package, "@npm:"@, j) by {
        if text::stands_at(package, "@npm:"@, j) {
            let piece = package.subrange(j, j + 5);
            assert(piece[0] == package[j] && package[j] == asked_alias[j]);
            assert(j == 0);
            assert(piece[1] == package[1] && piece[2] == package[2] && piece[3] == package[3]
                && piece[4] == package[4]);
            if n >= 5 {
                assert(asked_alias.subrange(0, 5) =~= piece);
            } else {
                assert(package[n] == '@');
                assert(piece[n] == '@');
            }
        }
    }
    lemma_first_stand(package, "@npm:"@, 0, n);
    assert(text::tail(package, n + 5) =~= rest);
    assert(package.subrange(0, n) =~= asked_alias);
    let m = asked_target.len() as int;
    assert forall|j: int| m < j < rest.len() implies rest[j] != '@' by {
        assert(rest[j] == version[j - m - 1]);
        assert(version.contains(version[j - m - 1]));
    }
    assert(rest[m] == '@');
    text::lemma_last_index_is(rest, '@', m);
    assert(rest.subrange(0, m) =~= asked_target);
    assert(text::tail(rest, m + 1) =~= version);
}

/// A directory that is there is written down as one, by the name in its manifest; the
/// workspace, the lockfile and the registry are not asked.
pub proof fn law_directory_is_added_as_one(
    result: Result<AddStep, AddError>,
    case: AddCase,
    found_name: Seq<char>,
    manifest: Json,
)
    requires
        step_model(result) == add_model(case),
        is_name_alone(case.package@),
        *case.local == LocalFound::Manifest(manifest),
    ensures
        json::field(manifest.deep_view(), "name"@) == Some(json::JsonModel::Text(found_name))
            ==> (result matches Ok(AddStep::Done { name, spec_text }) && name@ == found_name
            && spec_text@ == local_text(case.project_dir@, case.package@, case.on_windows)),
        !(json::field(manifest.deep_view(), "name"@) matches Some(json::JsonModel::Text(_))) ==> (
        result matches Err(AddError::LocalDependencyManifestNameMissing { path })),
        text::starts_with(case.package@, "file:"@) ==> text::starts_with(
            local_text(case.project_dir@, case.package@, case.on_windows),
            "file:"@,
        ),
        !text::starts_with(case.package@, "file:"@) ==> text::starts_with(
            local_text(case.project_dir@, case.package@, case.on_windows),
            "link:"@,
        ),
{
    lemma_name_alone(case.package@);
    reveal_strlit("file:");
    reveal_strlit("link:");
    let written = local_text(case.project_dir@, case.package@, case.on_windows);
    assert(written.subrange(0, 5) =~= local_parts(case.package@).0);
}

/// A package that only the workspace is asked for, or that is asked for by the protocol
/// of the workspace, and that is not there is refused.
pub proof fn law_missing_workspace_package_is_refused(
    result: Result<AddStep, AddError>,
    case: AddCase,
)
    requires
        step_model(result) == add_model(case),
        is_name_alone(case.package@),
        *case.local is Absent,
        !case.is_tarball,
        !git_spec::is_git(case.package@),
        case.workspace_only,
    ensures
        !case.workspace_packages.deep_view().dom().contains(case.package@) ==> (result matches Err(
            AddError::WorkspacePackageNotFound { package },
        ) && package@ == case.package@),
        case.workspace_packages.deep_view().dom().contains(case.package@) ==> (result matches Ok(
            AddStep::Done { name, spec_text },
        ) && name@ == case.package@ && text::starts_with(spec_text@, "workspace:"@)),
{
    lemma_name_alone(case.package@);
    let version = case.workspace_packages.deep_view()[case.package@].version;
    lemma_workspace_prefix(version);
}

proof fn lemma_workspace_prefix(version: Seq<char>)
    ensures
        text::starts_with("workspace:~"@ + version, "workspace:"@),
        text::starts_with("workspace:^"@ + version, "workspace:"@),
        text::starts_with("workspace:"@ + version, "workspace:"@),
        text::starts_with("workspace:~"@, "workspace:"@),
        text::starts_with("workspace:^"@, "workspace:"@),
{
    reveal_strlit("workspace:");
    reveal_strlit("workspace:~");
    reveal_strlit("workspace:^");
    assert(("workspace:~"@ + version).subrange(0, 10) =~= "workspace:"@);
    assert(("workspace:^"@ + version).subrange(0, 10) =~= "workspace:"@);
    assert(("workspace:"@ + version).subrange(0, 10) =~= "workspace:"@);
    assert("workspace:~"@.subrange(0, 10) =~= "workspace:"@);
    assert("workspace:^"@.subrange(0, 10) =~= "workspace:"@);
}

/// A package of the workspace that is added by its name alone is written down as one of
/// the workspace where the settings say so, by a caret and, unless it rolls, its
/// version; where they do not and packages of the workspace are linked to, it is
/// written by its version; else it is asked of the lockfile and the registry.
pub proof fn law_workspace_package_is_added_by_the_settings(
    result: Result<AddStep, AddError>,
    case: AddCase,
)
    requires
        step_model(result) == add_model(case),
        is_name_alone(case.package@),
        *case.local is Absent,
        !case.is_tarball,
        !git_spec::is_git(case.package@),
        !case.workspace_only,
        case.workspace_packages.deep_view().dom().contains(case.package@),
    ensures
        ({
            let version = case.workspace_packages.deep_view()[case.package@].version;
            let written = result->Ok_0->Done_spec_text@;
            let done = result is Ok && result->Ok_0 is Done && result->Ok_0->Done_name@
                == case.package@;
            match case.config.save_workspace_protocol {
                SaveWorkspaceProtocol::Rolling => done && written == "workspace:^"@,
                SaveWorkspaceProtocol::True => done && written == "workspace:^"@ + version,
                SaveWorkspaceProtocol::False => !(case.config.link_workspace_packages is False)
                    ==> done && written == (if case.save_exact {
                    version
                } else {
                    "^"@ + version
                }),
            }
        }),
{
    lemma_name_alone(case.package@);
    reveal_strlit("^");
    reveal_strlit("~");
    reveal_strlit("workspace:");
    assert("^"@.subrange(0, 1) =~= "^"@);
    assert(!text::starts_with("^"@, "workspace:"@));
    assert(!text::starts_with("^"@, "~"@)) by {
        if text::starts_with("^"@, "~"@) {
            assert("^"@.subrange(0, 1)[0] == "~"@[0]);
        }
    }
}

/// The specifier of a version of the workspace keeps the sign of the range that was
/// asked for.
pub proof fn law_workspace_specifier_keeps_the_sign(
    written: Seq<char>,
    version: Seq<char>,
    range: Seq<char>,
)
    requires
        written == pinned_workspace_spec(version, "workspace:"@ + range),
    ensures
        range.len() > 0 && range[0] == '~' ==> written == "workspace:~"@ + version,
        range.len() > 0 && range[0] == '^' ==> written == "workspace:^"@ + version,
        range.len() == 0 || range == "*"@ || range == "latest"@ ==> written == "workspace:^"@
            + version,
        range.len() > 0 && range[0] != '~' && range[0] != '^' && range != "*"@ && range
            != "latest"@ ==> written == (if semver::parsed_version(range) is Some {
            "workspace:^"@ + version
        } else {
            "workspace:"@ + version
        }),
        written == pinned_workspace_spec(version, range) || text::starts_with(
            range,
            "workspace:"@,
        ),
{
    reveal_strlit("workspace:");
    reveal_strlit("~");
    reveal_strlit("^");
    reveal_strlit("*");
    reveal_strlit("latest");
    let whole = "workspace:"@ + range;
    assert(whole.subrange(0, 10) =~= "workspace:"@);
    assert(text::tail(whole, 10) =~= range);
    if range.len() > 0 {
        assert(range.subrange(0, 1) =~= seq![range[0]]);
        assert("~"@ =~= seq!['~']);
        assert("^"@ =~= seq!['^']);
        assert(seq![range[0]][0] == range[0]);
        assert(seq!['~'][0] == '~' && seq!['^'][0] == '^');
        assert("latest"@[0] == 'l' && "*"@[0] == '*');
        assert(text::starts_with(range, "~"@) <==> range[0] == '~');
        assert(text::starts_with(range, "^"@) <==> range[0] == '^');
    }
}

/// What is written for a package under another name, once it was looked up: what was
/// asked for, unless that is `latest` or nothing; then the version that was found, with
/// a caret unless it is to be exact.
pub proof fn law_alias_keeps_what_was_asked_for(
    written: Seq<char>,
    requested: Option<Seq<char>>,
    version: Seq<char>,
    save_exact: bool,
)
    requires
        written == alias_version(requested, version, save_exact),
    ensures
        requested is Some && requested->0 != "latest"@ ==> written == requested->0,
        requested is None ==> written == (if save_exact {
            version
        } else {
            "^"@ + version
        }),
        requested == Some("latest"@) && semver::parsed_version("latest"@) is None ==> written == (
        if save_exact {
            version
        } else {
            "^"@ + version
        }),
{
}

/// Every package that is added is written into every group that it is added to, with
/// its specifier, and nothing else is.
pub proof fn law_added_packages_are_written_into_their_groups(
    entries: Seq<pnpmfile::Wish>,
    added: Seq<(Seq<char>, Seq<char>)>,
    groups: Seq<DependencyGroup>,
    wish: pnpmfile::Wish,
)
    requires
        entries == manifest_entries(added, groups),
    ensures
        entries.contains(wish) <==> groups.contains(wish.0) && added.contains((wish.1, wish.2)),
        entries.len() == added.len() * groups.len(),
    decreases added.len(),
{
    if added.len() > 0 {
        let rest = added.drop_last();
        let before = manifest_entries(rest, groups);
        law_added_packages_are_written_into_their_groups(before, rest, groups, wish);
        let last = added.last();
        let here = groups.map_values(|group: DependencyGroup| (group, last.0, last.1));
        assert(entries == before + here);
        assert(entries.len() == added.len() * groups.len()) by (nonlinear_arith)
            requires
                entries.len() == before.len() + groups.len(),
                before.len() == (added.len() - 1) * groups.len(),
        ;
        if groups.contains(wish.0) && added.contains((wish.1, wish.2)) {
            let k = added.index_of((wish.1, wish.2));
            if k < rest.len() {
                assert(rest[k] == (wish.1, wish.2));
                let e = before.index_of(wish);
                assert(entries[e] == wish);
            } else {
                let g = groups.index_of(wish.0);
                assert(here[g] == wish);
                assert(entries[before.len() + g] == wish);
            }
        }
        if entries.contains(wish) {
            let e = entries.index_of(wish);
            if e < before.len() {
                assert(before[e] == wish);
                let k = rest.index_of((wish.1, wish.2));
                assert(added[k] == (wish.1, wish.2));
            } else {
                let g = e - before.len();
                assert(here[g] == wish);
                assert(groups[g] == wish.0);
                assert(added[added.len() - 1] == (wish.1, wish.2));
            }
        }
    } else {
        assert(entries.len() == added.len() * groups.len()) by (nonlinear_arith)
            requires
                entries.len() == 0,
                added.len() == 0,
        ;
    }
}

} // verus!
