//! How the direct dependencies of a project get into its `node_modules`.
use crate::config::Npmrc;
use crate::create_virtual_store;
use crate::install;
use crate::install_frozen_lockfile;
use crate::json;
use crate::json::{Json, JsonModel};
use crate::lockfile;
use crate::lockfile::{
    PackageMap, PackageSnapshotDependency, ProjectSnapshot, ResolvedDependencySpec,
    ResolvedDependencyVersion,
};
use crate::package_import;
use crate::paths;
use crate::table;
use crate::table::TextMap;
use crate::text;
use crate::value;
use crate::workspace;
use vstd::prelude::*;
use vstd::string::*;

verus! {

/// The first package that is a local directory under a name.
pub open spec fn local_package(
    packages: PackageMap,
    name: Seq<char>,
    link: Seq<char>,
    from: int,
) -> Option<int>
    decreases packages.pairs().len() - from,
{
    if from >= packages.pairs().len() {
        None
    } else if lockfile::local_reference(packages.pairs()[from].0) == Some(link)
        && lockfile::specifier_name(packages.pairs()[from].0.specifier) == name {
        Some(from)
    } else {
        local_package(packages, name, link, from + 1)
    }
}

fn find_local_package(packages: &PackageMap, name: &str, link: &str) -> (found: Option<usize>)
    ensures
        match found {
            Some(i) => i < packages.pairs().len() && local_package(*packages, name@, link@, 0)
                == Some(i as int),
            None => local_package(*packages, name@, link@, 0) is None,
        },
{
    let n: usize = packages.len();
    let mut i: usize = 0;
    while i < n
        invariant
            i <= n,
            n == packages.pairs().len(),
            local_package(*packages, name@, link@, 0) == local_package(
                *packages,
                name@,
                link@,
                i as int,
            ),
        decreases n - i,
    {
        let path = packages.key_at(i);
        if let Some(reference) = path.local_file_reference() {
            if text::same_text(reference, link) && text::same_text(
                path.package_specifier.name(),
                name,
            ) {
                return Some(i);
            }
        }
        i = i + 1;
    }
    None
}

/// A link without its protocol.
pub open spec fn without_protocol(link: Seq<char>) -> Seq<char> {
    match text::stripped_prefix(link, "link:"@) {
        Some(rest) => rest,
        None => match text::stripped_prefix(link, "file:"@) {
            Some(rest) => rest,
            None => link,
        },
    }
}

/// The directory of a project.
pub open spec fn project_dir(config: Npmrc, on_windows: bool) -> Seq<char> {
    match paths::parent(config.modules_dir@, on_windows) {
        Some(dir) => dir,
        None => config.modules_dir@,
    }
}

/// Where a link leads, and whether that is in the virtual store.
pub open spec fn local_target(
    config: Npmrc,
    packages: Option<PackageMap>,
    name: Seq<char>,
    link: Seq<char>,
    on_windows: bool,
) -> (Seq<char>, bool) {
    let stored = if text::starts_with(link, "file:"@) && packages is Some {
        local_package(packages->0, name, link, 0)
    } else {
        None
    };
    match stored {
        Some(i) => (
            package_import::saved_at(
                config.virtual_store_dir@,
                lockfile::specifier_store_name(packages->0.key(i).package_specifier),
                lockfile::specifier_name(packages->0.pairs()[i].0.specifier),
                on_windows,
            ),
            true,
        ),
        None => (paths::joined(
            project_dir(config, on_windows),
            without_protocol(link),
            on_windows,
        ), false),
    }
}

/// Where a link leads, and whether that is in the virtual store: a copy of a
/// directory lies there, and any other link leads out of the project.
pub fn local_link_target(
    config: &Npmrc,
    packages: Option<&PackageMap>,
    dependency_name: &str,
    link: &str,
    on_windows: bool,
) -> (target: (String, bool))
    ensures
        (target.0@, target.1) == local_target(
            *config,
            install::held(packages),
            dependency_name@,
            link@,
            on_windows,
        ),
{
    if text::has_prefix(link, "file:") {
        if let Some(packages) = packages {
            if let Some(i) = find_local_package(packages, dependency_name, link) {
                let specifier = &packages.key_at(i).package_specifier;
                let path = package_import::save_path(
                    config.virtual_store_dir.as_str(),
                    specifier.to_virtual_store_name(),
                    specifier.name(),
                    on_windows,
                );
                return (path, true);
            }
        }
    }
    let relative = match text::strip_prefix(link, "link:") {
        Some(rest) => rest,
        None => match text::strip_prefix(link, "file:") {
            Some(rest) => rest,
            None => link,
        },
    };
    let dir = match paths::parent_path(config.modules_dir.as_str(), on_windows) {
        Some(dir) => dir,
        None => config.modules_dir.clone(),
    };
    (paths::join_paths(dir.as_str(), relative, on_windows), false)
}

/// A field of a value that may be absent.
pub open spec fn field_of(value: Option<JsonModel>, name: Seq<char>) -> Option<JsonModel> {
    match value {
        Some(value) => json::field(value, name),
        None => None,
    }
}

/// What is linked to for a directory: the part of it that is published, where
/// its manifest asks for that.
pub open spec fn publish_target(
    target: Seq<char>,
    manifest: Option<JsonModel>,
    on_windows: bool,
) -> Seq<char> {
    let publish = field_of(manifest, "publishConfig"@);
    match json::as_text(field_of(publish, "directory"@)) {
        Some(dir) if json::as_bool(field_of(publish, "linkDirectory"@)) == Some(true) && dir.len()
            > 0 => paths::joined(target, dir, on_windows),
        _ => target,
    }
}

/// What is linked to for a directory, given its manifest.
pub fn link_target_with_publish_config_directory(
    target: &str,
    manifest: Option<&Json>,
    on_windows: bool,
) -> (path:
    String)
    ensures
        path@ == publish_target(target@, manifest.deep_view(), on_windows),
{
    let publish = match manifest {
        Some(manifest) => manifest.get("publishConfig"),
        None => None,
    };
    let publish = match publish {
        Some(publish) => publish,
        None => {
            return text::copy(target);
        },
    };
    let linked = match publish.get("linkDirectory") {
        Some(linked) => match linked.as_bool() {
            Some(linked) => linked,
            None => false,
        },
        None => false,
    };
    if !linked {
        return text::copy(target);
    }
    match publish.get("directory") {
        Some(dir) => match dir.as_str() {
            Some(dir) => if dir.unicode_len() > 0 {
                paths::join_paths(target, dir, on_windows)
            } else {
                text::copy(target)
            },
            None => text::copy(target),
        },
        None => text::copy(target),
    }
}

/// A dependency on a package of the workspace is a copy of it.
pub open spec fn copies_workspace_package(
    project: ProjectSnapshot,
    name: Seq<char>,
    specifier: Seq<char>,
    version: ResolvedDependencyVersion,
    config: Npmrc,
) -> bool {
    &&& text::starts_with(specifier, "workspace:"@)
    &&& install_frozen_lockfile::is_copy(version)
    &&& config.inject_workspace_packages || workspace::meta_injected(
        project.dependencies_meta.deep_view(),
        name,
    )
}

/// Whether a dependency on a package of the workspace is a copy of it.
pub fn should_materialize_workspace_dependency(
    project_snapshot: &ProjectSnapshot,
    dependency_name: &str,
    specifier: &str,
    resolved_version: &ResolvedDependencyVersion,
    config: &Npmrc,
) -> (yes: bool)
    ensures
        yes == copies_workspace_package(
            *project_snapshot,
            dependency_name@,
            specifier@,
            *resolved_version,
            *config,
        ),
{
    if !text::has_prefix(specifier, "workspace:") {
        return false;
    }
    let is_copy = match resolved_version {
        ResolvedDependencyVersion::Link(link) => text::has_prefix(link.as_str(), "file:"),
        _ => false,
    };
    if !is_copy {
        return false;
    }
    config.inject_workspace_packages || workspace::dependency_meta_injected_json(
        project_snapshot.dependencies_meta.as_ref(),
        dependency_name,
    )
}

/// Where a direct dependency comes from, and whether that is a directory in the
/// virtual store.
pub open spec fn direct_target(
    config: Npmrc,
    packages: Option<PackageMap>,
    name: Seq<char>,
    version: ResolvedDependencyVersion,
    manifest: Option<JsonModel>,
    on_windows: bool,
) -> (Seq<char>, bool) {
    match version {
        ResolvedDependencyVersion::PkgVerPeer(suffix) => (
            package_import::saved_at(
                config.virtual_store_dir@,
                suffix.store_name@,
                name,
                on_windows,
            ),
            false,
        ),
        ResolvedDependencyVersion::PkgNameVerPeer(specifier) => (
            package_import::saved_at(
                config.virtual_store_dir@,
                specifier.suffix.store_name@,
                specifier.name@,
                on_windows,
            ),
            false,
        ),
        ResolvedDependencyVersion::Link(link) => {
            let (path, in_store) = local_target(config, packages, name, link@, on_windows);
            if in_store {
                (path, true)
            } else {
                (publish_target(path, manifest, on_windows), false)
            }
        },
    }
}

/// What is done for a direct dependency: nothing; the package and what it needs
/// is copied; a directory is copied; a link to a directory is made; or a package
/// of the virtual store is linked to.
#[allow(inconsistent_fields)]
#[derive(Debug)]
pub enum DirectLink {
    Leave,
    MaterializeTree { source: String },
    ImportCopy { source: String },
    Symlink { source: String },
    LinkPackage { source: String },
}

/// What is done for a direct dependency.
pub open spec fn is_direct_link(
    link: DirectLink,
    config: Npmrc,
    project: ProjectSnapshot,
    packages: Option<PackageMap>,
    name: Seq<char>,
    wanted: ResolvedDependencySpec,
    manifest: Option<JsonModel>,
    exists: bool,
    on_windows: bool,
) -> bool {
    let (path, in_store) = direct_target(
        config,
        packages,
        name,
        wanted.version,
        manifest,
        on_windows,
    );
    let copied = wanted.version is Link && (install_frozen_lockfile::is_copy(wanted.version)
        || text::starts_with(wanted.specifier@, "file:"@));
    let refreshed = install_frozen_lockfile::is_copy(wanted.version)
        && !config.disable_relink_local_dir_deps;
    if exists && !refreshed {
        link is Leave
    } else if !(wanted.version is Link) {
        link is LinkPackage && link->LinkPackage_source@ == path
    } else if copied && in_store {
        link is MaterializeTree && link->MaterializeTree_source@ == path
    } else if copied {
        link is ImportCopy && link->ImportCopy_source@ == path
    } else if config.symlink {
        link is Symlink && link->Symlink_source@ == path
    } else {
        link is Leave
    }
}

/// What is done for a direct dependency, given the manifest of the directory
/// that it is on, and whether something is in its place.
pub fn direct_link(
    config: &Npmrc,
    project_snapshot: &ProjectSnapshot,
    packages: Option<&PackageMap>,
    name: &str,
    wanted: &ResolvedDependencySpec,
    manifest: Option<&Json>,
    exists: bool,
    on_windows: bool,
) -> (link: DirectLink)
    ensures
        is_direct_link(
            link,
            *config,
            *project_snapshot,
            install::held(packages),
            name@,
            *wanted,
            manifest.deep_view(),
            exists,
            on_windows,
        ),
{
    let materialized = should_materialize_workspace_dependency(
        project_snapshot,
        name,
        wanted.specifier.as_str(),
        &wanted.version,
        config,
    );
    let reference = match &wanted.version {
        ResolvedDependencyVersion::PkgVerPeer(suffix) => {
            if exists {
                return DirectLink::Leave;
            }
            return DirectLink::LinkPackage {
                source: package_import::save_path(
                    config.virtual_store_dir.as_str(),
                    suffix.store_name.as_str(),
                    name,
                    on_windows,
                ),
            };
        },
        ResolvedDependencyVersion::PkgNameVerPeer(specifier) => {
            if exists {
                return DirectLink::Leave;
            }
            return DirectLink::LinkPackage {
                source: package_import::save_path(
                    config.virtual_store_dir.as_str(),
                    specifier.suffix.store_name.as_str(),
                    specifier.name.as_str(),
                    on_windows,
                ),
            };
        },
        ResolvedDependencyVersion::Link(link) => link.as_str(),
    };
    let is_copy = text::has_prefix(reference, "file:") || materialized;
    if exists && !(is_copy && !config.disable_relink_local_dir_deps) {
        return DirectLink::Leave;
    }
    let (base, in_store) = local_link_target(config, packages, name, reference, on_windows);
    if is_copy || text::has_prefix(wanted.specifier.as_str(), "file:") {
        return if in_store {
            DirectLink::MaterializeTree { source: base }
        } else {
            DirectLink::ImportCopy {
                source: link_target_with_publish_config_directory(
                    base.as_str(),
                    manifest,
                    on_windows,
                ),
            }
        };
    }
    if !config.symlink {
        return DirectLink::Leave;
    }
    let source = if in_store {
        base
    } else {
        link_target_with_publish_config_directory(base.as_str(), manifest, on_windows)
    };
    DirectLink::Symlink { source }
}

/// Where the dependencies of a package lie: beside it in the virtual store, or
/// else in it.
pub open spec fn dependencies_dir(source: Seq<char>, on_windows: bool) -> Seq<char> {
    let inside = paths::joined(source, "node_modules"@, on_windows);
    if paths::first_named(paths::ancestors(source, on_windows), ".pnpm"@, 0, on_windows) is Some {
        match paths::first_named(
            paths::ancestors(source, on_windows),
            "node_modules"@,
            1,
            on_windows,
        ) {
            Some(dir) => dir,
            None => inside,
        }
    } else {
        inside
    }
}

/// Where the dependencies of a package lie.
pub fn dependency_source_dir(source_package_dir: &str, on_windows: bool) -> (dir: String)
    ensures
        dir@ == dependencies_dir(source_package_dir@, on_windows),
{
    let inside = paths::join_paths(source_package_dir, "node_modules", on_windows);
    if paths::nearest_named(source_package_dir, ".pnpm", 0, on_windows).is_some() {
        match paths::nearest_named(source_package_dir, "node_modules", 1, on_windows) {
            Some(dir) => dir,
            None => inside,
        }
    } else {
        inside
    }
}

/// The virtual store that a package lies in; outside of one, the directory that
/// it lies in.
pub open spec fn store_around(source: Seq<char>, on_windows: bool) -> Seq<char> {
    match paths::first_named(paths::ancestors(source, on_windows), ".pnpm"@, 0, on_windows) {
        Some(dir) => dir,
        None => match paths::parent(source, on_windows) {
            Some(dir) => dir,
            None => source,
        },
    }
}

/// The virtual store that a package lies in.
pub fn virtual_store_around(source_package_dir: &str, on_windows: bool) -> (dir: String)
    ensures
        dir@ == store_around(source_package_dir@, on_windows),
{
    match paths::nearest_named(source_package_dir, ".pnpm", 0, on_windows) {
        Some(dir) => dir,
        None => match paths::parent_path(source_package_dir, on_windows) {
            Some(dir) => dir,
            None => text::copy(source_package_dir),
        },
    }
}

/// Where a link leads, as it is written.
pub open spec fn link_leads(path: Seq<char>, target: Seq<char>, on_windows: bool) -> Seq<char> {
    if paths::is_absolute(target, on_windows) {
        target
    } else {
        paths::joined(
            match paths::parent(path, on_windows) {
                Some(dir) => dir,
                None => "."@,
            },
            target,
            on_windows,
        )
    }
}

/// Where a link leads, as it is written.
pub fn link_target_path(path: &str, target: &str, on_windows: bool) -> (place: String)
    ensures
        place@ == link_leads(path@, target@, on_windows),
{
    if paths::is_absolute_path(target, on_windows) {
        return text::copy(target);
    }
    let dir = match paths::parent_path(path, on_windows) {
        Some(dir) => dir,
        None => text::copy("."),
    };
    paths::join_paths(dir.as_str(), target, on_windows)
}

/// An entry of a directory: its name, whether it is a link, and where that
/// really leads.
#[derive(Debug)]
pub struct EntryLink {
    pub name: String,
    pub is_link: bool,
    pub target: Option<String>,
}

/// An entry of `node_modules`: what it is, whether it holds a manifest, and what
/// lies in it where it is a scope.
#[derive(Debug)]
pub struct DependencyEntry {
    pub link: EntryLink,
    pub has_manifest: bool,
    pub scoped: Vec<EntryLink>,
}

/// What is done for a dependency of a package that is copied: a link that leads
/// out of the virtual store stays one, anything else is copied as well.
#[derive(Debug)]
pub struct CopyStep {
    pub preserve: bool,
    pub from: String,
    pub to: String,
}

/// What is done for a dependency as a mathematical value.
pub type CopyModel = (bool, Seq<char>, Seq<char>);

/// What is done for dependencies as mathematical values.
pub open spec fn steps_of(steps: Seq<CopyStep>) -> Seq<CopyModel> {
    steps.map_values(|step: CopyStep| (step.preserve, step.from@, step.to@))
}

/// A link leads out of the virtual store.
pub open spec fn leads_out(link: EntryLink, store_dir: Seq<char>, on_windows: bool) -> bool {
    link.is_link && link.target is Some && !paths::is_within(store_dir, link.target->0@, on_windows)
}

/// What is done for one dependency; nothing for the package itself.
pub open spec fn copy_of(
    source: Seq<char>,
    from: Seq<char>,
    to: Seq<char>,
    link: EntryLink,
    on_windows: bool,
) -> Seq<CopyModel> {
    if paths::same_path(from, source, on_windows) {
        Seq::empty()
    } else {
        seq![(leads_out(link, store_around(source, on_windows), on_windows), from, to)]
    }
}

/// What is done for what lies in a scope.
pub open spec fn scope_copies(
    source: Seq<char>,
    destination: Seq<char>,
    scope: Seq<char>,
    scoped: Seq<EntryLink>,
    on_windows: bool,
) -> Seq<CopyModel>
    decreases scoped.len(),
{
    if scoped.len() == 0 {
        Seq::empty()
    } else {
        scope_copies(source, destination, scope, scoped.drop_last(), on_windows) + copy_of(
            source,
            paths::joined(
                paths::joined(dependencies_dir(source, on_windows), scope, on_windows),
                scoped.last().name@,
                on_windows,
            ),
            paths::joined(
                paths::joined(destination, "node_modules"@, on_windows),
                scope + "/"@ + scoped.last().name@,
                on_windows,
            ),
            scoped.last(),
            on_windows,
        )
    }
}

/// What is done for an entry of `node_modules`.
pub open spec fn entry_copies(
    source: Seq<char>,
    destination: Seq<char>,
    entry: DependencyEntry,
    on_windows: bool,
) -> Seq<CopyModel> {
    let name = entry.link.name@;
    if name == ".bin"@ {
        Seq::empty()
    } else if name.len() > 0 && name[0] == '@' && !entry.has_manifest {
        scope_copies(source, destination, name, entry.scoped@, on_windows)
    } else {
        copy_of(
            source,
            paths::joined(dependencies_dir(source, on_windows), name, on_windows),
            paths::joined(
                paths::joined(destination, "node_modules"@, on_windows),
                name,
                on_windows,
            ),
            entry.link,
            on_windows,
        )
    }
}

/// What is done for the entries of `node_modules`.
pub open spec fn all_copies(
    source: Seq<char>,
    destination: Seq<char>,
    entries: Seq<DependencyEntry>,
    on_windows: bool,
) -> Seq<CopyModel>
    decreases entries.len(),
{
    if entries.len() == 0 {
        Seq::empty()
    } else {
        all_copies(source, destination, entries.drop_last(), on_windows) + entry_copies(
            source,
            destination,
            entries.last(),
            on_windows,
        )
    }
}

fn push_copy(
    steps: &mut Vec<CopyStep>,
    source: &str,
    from: String,
    to: String,
    link: &EntryLink,
    on_windows: bool,
)
    ensures
        steps_of(final(steps)@) == steps_of(old(steps)@) + copy_of(
            source@,
            from@,
            to@,
            *link,
            on_windows,
        ),
{
    let ghost before = steps_of(steps@);
    if paths::is_same_path(from.as_str(), source, on_windows) {
        assert(steps_of(steps@) =~= before + Seq::<CopyModel>::empty());
        return;
    }
    let store_dir = virtual_store_around(source, on_windows);
    let preserve = match &link.target {
        Some(target) => link.is_link && !paths::path_is_within(
            store_dir.as_str(),
            target.as_str(),
            on_windows,
        ),
        None => false,
    };
    let ghost step = (preserve, from@, to@);
    steps.push(CopyStep { preserve, from, to });
    assert(steps_of(steps@) =~= before + seq![step]);
}

fn push_scope(
    steps: &mut Vec<CopyStep>,
    source: &str,
    destination: &str,
    scope: &str,
    scoped: &Vec<EntryLink>,
    on_windows: bool,
)
    ensures
        steps_of(final(steps)@) == steps_of(old(steps)@) + scope_copies(
            source@,
            destination@,
            scope@,
            scoped@,
            on_windows,
        ),
{
    let ghost first = steps_of(steps@);
    let dir = paths::join_paths(
        dependency_source_dir(source, on_windows).as_str(),
        scope,
        on_windows,
    );
    let inside = paths::join_paths(destination, "node_modules", on_windows);
    let mut i: usize = 0;
    assert(steps_of(steps@) =~= first + scope_copies(
        source@,
        destination@,
        scope@,
        scoped@.take(0),
        on_windows,
    ));
    while i < scoped.len()
        invariant
            i <= scoped@.len(),
            dir@ == paths::joined(dependencies_dir(source@, on_windows), scope@, on_windows),
            inside@ == paths::joined(destination@, "node_modules"@, on_windows),
            steps_of(steps@) == first + scope_copies(
                source@,
                destination@,
                scope@,
                scoped@.take(i as int),
                on_windows,
            ),
        decreases scoped@.len() - i,
    {
        assert(scoped@.take(i + 1).drop_last() =~= scoped@.take(i as int));
        let entry = &scoped[i];
        let target_name = text::copy(scope).concat("/").concat(entry.name.as_str());
        let from = paths::join_paths(dir.as_str(), entry.name.as_str(), on_windows);
        let to = paths::join_paths(inside.as_str(), target_name.as_str(), on_windows);
        push_copy(steps, source, from, to, entry, on_windows);
        assert(steps_of(steps@) =~= first + scope_copies(
            source@,
            destination@,
            scope@,
            scoped@.take(i + 1),
            on_windows,
        ));
        i = i + 1;
    }
    assert(scoped@.take(i as int) =~= scoped@);
}

/// What is done for the dependencies of a package that is copied, given what
/// lies where its dependencies lie.
pub fn dependency_copies(
    source_package_dir: &str,
    destination_package_dir: &str,
    entries: &Vec<DependencyEntry>,
    on_windows: bool,
) -> (steps: Vec<CopyStep>)
    ensures
        steps_of(steps@) == all_copies(
            source_package_dir@,
            destination_package_dir@,
            entries@,
            on_windows,
        ),
{
    let source = source_package_dir;
    let dir = dependency_source_dir(source, on_windows);
    let inside = paths::join_paths(destination_package_dir, "node_modules", on_windows);
    let mut steps: Vec<CopyStep> = Vec::new();
    let mut i: usize = 0;
    assert(steps_of(steps@) =~= all_copies(
        source@,
        destination_package_dir@,
        entries@.take(0),
        on_windows,
    ));
    while i < entries.len()
        invariant
            i <= entries@.len(),
            source@ == source_package_dir@,
            dir@ == dependencies_dir(source@, on_windows),
            inside@ == paths::joined(destination_package_dir@, "node_modules"@, on_windows),
            steps_of(steps@) == all_copies(
                source@,
                destination_package_dir@,
                entries@.take(i as int),
                on_windows,
            ),
        decreases entries@.len() - i,
    {
        let ghost before = steps_of(steps@);
        assert(entries@.take(i + 1).drop_last() =~= entries@.take(i as int));
        let entry = &entries[i];
        let name = entry.link.name.as_str();
        if text::same_text(name, ".bin") {
            assert(steps_of(steps@) =~= before + Seq::<CopyModel>::empty());
        } else if text::has_first_char(name, '@') && !entry.has_manifest {
            push_scope(
                &mut steps,
                source,
                destination_package_dir,
                name,
                &entry.scoped,
                on_windows,
            );
        } else {
            let from = paths::join_paths(dir.as_str(), name, on_windows);
            let to = paths::join_paths(inside.as_str(), name, on_windows);
            push_copy(&mut steps, source, from, to, &entry.link, on_windows);
        }
        assert(steps_of(steps@) == before + entry_copies(
            source@,
            destination_package_dir@,
            *entry,
            on_windows,
        ));
        i = i + 1;
    }
    assert(entries@.take(i as int) =~= entries@);
    steps
}

/// The copying of a package and of what it needs: what is still to be copied,
/// and the directories that were copied.
#[derive(Debug)]
pub struct MaterializeWalk {
    pub pending: Vec<(String, String)>,
    pub seen: Vec<String>,
}

/// The copies among steps, in their order.
pub open spec fn copies_among(steps: Seq<CopyModel>) -> Seq<(Seq<char>, Seq<char>)>
    decreases steps.len(),
{
    if steps.len() == 0 {
        Seq::empty()
    } else if steps.last().0 {
        copies_among(steps.drop_last())
    } else {
        copies_among(steps.drop_last()).push((steps.last().1, steps.last().2))
    }
}

impl MaterializeWalk {
    /// No directory was copied twice.
    pub open spec fn well_formed(self) -> bool {
        self.seen.deep_view().no_duplicates()
    }

    /// The copying of one package.
    pub fn new(source_package_dir: &str, destination_package_dir: &str) -> (walk: MaterializeWalk)
        ensures
            walk.well_formed(),
            walk.pending.deep_view() == seq![(source_package_dir@, destination_package_dir@)],
            walk.seen@.len() == 0,
    {
        let mut pending: Vec<(String, String)> = Vec::new();
        pending.push((text::copy(source_package_dir), text::copy(destination_package_dir)));
        assert(pending.deep_view() =~= seq![(source_package_dir@, destination_package_dir@)]);
        MaterializeWalk { pending, seen: Vec::new() }
    }

    /// What is copied next, and where to.
    pub fn next_package(&mut self) -> (next: Option<(String, String)>)
        requires
            old(self).well_formed(),
        ensures
            final(self).well_formed(),
            final(self).seen == old(self).seen,
            match next {
                Some(next) => old(self).pending.deep_view()
                    == final(self).pending.deep_view().push((next.0@, next.1@)),
                None => old(self).pending@.len() == 0 && final(self).pending@.len() == 0,
            },
    {
        let ghost before = self.pending.deep_view();
        match self.pending.pop() {
            Some(next) => {
                assert(before =~= self.pending.deep_view().push((next.0@, next.1@)));
                Some(next)
            },
            None => None,
        }
    }

    /// Whether a directory is copied, given where it really lies: only once.
    pub fn enter(&mut self, canonical: &str) -> (yes: bool)
        requires
            old(self).well_formed(),
        ensures
            final(self).well_formed(),
            final(self).pending == old(self).pending,
            yes == !old(self).seen.deep_view().contains(canonical@),
            final(self).seen.deep_view() == (if yes {
                old(self).seen.deep_view().push(canonical@)
            } else {
                old(self).seen.deep_view()
            }),
    {
        if value::list_contains(&self.seen, canonical) {
            return false;
        }
        let ghost before = self.seen.deep_view();
        self.seen.push(text::copy(canonical));
        proof {
            assert(self.seen.deep_view() =~= before.push(canonical@));
            assert forall|i: int, j: int| 0 <= i < j < before.len() + 1 implies before.push(
                canonical@,
            )[i] != before.push(canonical@)[j] by {
                if j == before.len() {
                    assert(before.contains(before[i]));
                }
            }
        }
        true
    }

    /// Takes note of what else is to be copied.
    pub fn add_copies(&mut self, steps: &Vec<CopyStep>)
        requires
            old(self).well_formed(),
        ensures
            final(self).well_formed(),
            final(self).seen == old(self).seen,
            final(self).pending.deep_view() == old(self).pending.deep_view() + copies_among(
                steps_of(steps@),
            ),
    {
        let ghost all = steps_of(steps@);
        let ghost first = self.pending.deep_view();
        let ghost seen = self.seen;
        let mut i: usize = 0;
        assert(self.pending.deep_view() =~= first + copies_among(all.take(0)));
        while i < steps.len()
            invariant
                i <= steps@.len(),
                all == steps_of(steps@),
                self.seen == seen,
                self.pending.deep_view() == first + copies_among(all.take(i as int)),
            decreases steps@.len() - i,
        {
            let ghost before = self.pending.deep_view();
            let step = &steps[i];
            proof {
                assert(all.take(i + 1).drop_last() =~= all.take(i as int));
                assert(all[i as int] == (step.preserve, step.from@, step.to@));
            }
            if !step.preserve {
                self.pending.push((step.from.clone(), step.to.clone()));
                assert(self.pending.deep_view() =~= before.push((step.from@, step.to@)));
                assert(self.pending.deep_view() =~= first + copies_among(all.take(i + 1)));
            }
            i = i + 1;
        }
        assert(all.take(i as int) =~= all);
    }
}

/// What a dependency in the virtual store is linked to.
pub open spec fn layout_target(
    virtual_root: Seq<char>,
    lockfile_dir: Seq<char>,
    alias: Seq<char>,
    dependency: PackageSnapshotDependency,
    local_store_name: Seq<char>,
    on_windows: bool,
) -> Seq<char> {
    match dependency {
        PackageSnapshotDependency::PkgVerPeer(suffix) => package_import::saved_at(
            virtual_root,
            suffix.store_name@,
            alias,
            on_windows,
        ),
        PackageSnapshotDependency::PkgNameVerPeer(specifier) => package_import::saved_at(
            virtual_root,
            specifier.suffix.store_name@,
            specifier.name@,
            on_windows,
        ),
        PackageSnapshotDependency::DependencyPath(path) => package_import::saved_at(
            virtual_root,
            lockfile::specifier_store_name(path.package_specifier),
            lockfile::specifier_name(path.ident().specifier),
            on_windows,
        ),
        PackageSnapshotDependency::Link(link) => if text::starts_with(link@, "file:"@) {
            package_import::saved_at(virtual_root, local_store_name, alias, on_windows)
        } else {
            paths::joined(
                lockfile_dir,
                match text::stripped_prefix(link@, "link:"@) {
                    Some(rest) => rest,
                    None => link@,
                },
                on_windows,
            )
        },
    }
}

fn layout_target_of(
    virtual_root: &str,
    lockfile_dir: &str,
    alias: &str,
    dependency: &PackageSnapshotDependency,
    local_store_name: &str,
    on_windows: bool,
) -> (target: String)
    ensures
        target@ == layout_target(
            virtual_root@,
            lockfile_dir@,
            alias@,
            *dependency,
            local_store_name@,
            on_windows,
        ),
{
    match dependency {
        PackageSnapshotDependency::PkgVerPeer(suffix) => package_import::save_path(
            virtual_root,
            suffix.store_name.as_str(),
            alias,
            on_windows,
        ),
        PackageSnapshotDependency::PkgNameVerPeer(specifier) => package_import::save_path(
            virtual_root,
            specifier.suffix.store_name.as_str(),
            specifier.name.as_str(),
            on_windows,
        ),
        PackageSnapshotDependency::DependencyPath(path) => package_import::save_path(
            virtual_root,
            path.package_specifier.to_virtual_store_name(),
            path.package_specifier.name(),
            on_windows,
        ),
        PackageSnapshotDependency::Link(link) => if text::has_prefix(link.as_str(), "file:") {
            package_import::save_path(virtual_root, local_store_name, alias, on_windows)
        } else {
            let relative = match text::strip_prefix(link.as_str(), "link:") {
                Some(rest) => rest,
                None => link.as_str(),
            };
            paths::join_paths(lockfile_dir, relative, on_windows)
        },
    }
}

/// The links to the dependencies of a package in the virtual store: what each
/// leads to, and where it is.
pub open spec fn layout_links(
    dependencies: TextMap<PackageSnapshotDependency>,
    local_store_names: Seq<Seq<char>>,
    virtual_root: Seq<char>,
    lockfile_dir: Seq<char>,
    dir: Seq<char>,
    on_windows: bool,
) -> Seq<(Seq<char>, Seq<char>)> {
    Seq::new(
        dependencies.pairs().len(),
        |i: int|
            (
                layout_target(
                    virtual_root,
                    lockfile_dir,
                    dependencies.key(i)@,
                    dependencies.value(i),
                    local_store_names[i],
                    on_windows,
                ),
                paths::joined(dir, dependencies.key(i)@, on_windows),
            ),
    )
}

/// The links to the dependencies of a package in the virtual store.
/// `local_store_names` holds, for each dependency that is a directory, how that
/// is called in the virtual store.
pub fn create_symlink_layout(
    dependencies: &TextMap<PackageSnapshotDependency>,
    local_store_names: &Vec<String>,
    virtual_root: &str,
    lockfile_dir: &str,
    virtual_node_modules_dir: &str,
    on_windows: bool,
) -> (links: Vec<(String, String)>)
    requires
        local_store_names@.len() == dependencies.pairs().len(),
    ensures
        links.deep_view() == layout_links(
            *dependencies,
            local_store_names.deep_view(),
            virtual_root@,
            lockfile_dir@,
            virtual_node_modules_dir@,
            on_windows,
        ),
{
    let ghost all = layout_links(
        *dependencies,
        local_store_names.deep_view(),
        virtual_root@,
        lockfile_dir@,
        virtual_node_modules_dir@,
        on_windows,
    );
    let n: usize = dependencies.len();
    let mut links: Vec<(String, String)> = Vec::new();
    let mut i: usize = 0;
    while i < n
        invariant
            i <= n,
            n == dependencies.pairs().len(),
            n == all.len(),
            local_store_names@.len() == n,
            all == layout_links(
                *dependencies,
                local_store_names.deep_view(),
                virtual_root@,
                lockfile_dir@,
                virtual_node_modules_dir@,
                on_windows,
            ),
            links.deep_view() == all.take(i as int),
        decreases n - i,
    {
        let ghost before = links.deep_view();
        let alias = dependencies.key_at(i).as_str();
        let target = layout_target_of(
            virtual_root,
            lockfile_dir,
            alias,
            dependencies.value_at(i),
            local_store_names[i].as_str(),
            on_windows,
        );
        let path = paths::join_paths(virtual_node_modules_dir, alias, on_windows);
        proof {
            assert(local_store_names.deep_view()[i as int] == local_store_names@[i as int]@);
            assert(all[i as int] == (target@, path@));
            assert(all.take(i + 1) =~= all.take(i as int).push(all[i as int]));
        }
        links.push((target, path));
        assert(links.deep_view() =~= before.push(all[i as int]));
        i = i + 1;
    }
    assert(all.take(i as int) =~= all);
    links
}

/// Once every link is made that the layout of a package asks for, the layout is
/// present.
pub proof fn law_linked_layout_is_present(
    dependencies: TextMap<PackageSnapshotDependency>,
    local_store_names: Seq<Seq<char>>,
    virtual_root: Seq<char>,
    lockfile_dir: Seq<char>,
    dir: Seq<char>,
    present: Seq<Seq<char>>,
    on_windows: bool,
)
    requires
        forall|k: int|
            0 <= k < dependencies.pairs().len() ==> present.contains(
                (#[trigger] layout_links(
                    dependencies,
                    local_store_names,
                    virtual_root,
                    lockfile_dir,
                    dir,
                    on_windows,
                )[k]).1,
            ),
    ensures
        create_virtual_store::layout_is_present(dependencies.deep_view(), dir, present, on_windows),
{
    let pairs = dependencies.pairs();
    let links = layout_links(
        dependencies,
        local_store_names,
        virtual_root,
        lockfile_dir,
        dir,
        on_windows,
    );
    assert forall|alias: Seq<char>| #[trigger] dependencies.deep_view().dom().contains(
        alias,
    ) implies create_virtual_store::is_laid_out(present, dir, alias, on_windows) by {
        let k = table::keys(pairs).index_of(alias);
        assert(table::keys(pairs)[k] == alias);
        dependencies.lemma_entry(k);
        assert(present.contains(links[k].1));
    }
}

/// A link is made unless it leads where it should.
pub fn link_is_needed(
    link_exists: bool,
    existing: Option<&str>,
    wanted: Option<&str>,
    on_windows: bool,
) -> (yes: bool)
    ensures
        yes == !(link_exists && existing is Some && wanted is Some && paths::same_path(
            existing->0@,
            wanted->0@,
            on_windows,
        )),
{
    if !link_exists {
        return true;
    }
    match (existing, wanted) {
        (Some(existing), Some(wanted)) => !paths::is_same_path(existing, wanted, on_windows),
        _ => true,
    }
}

/// What is done after an attempt at a link of the layout.
#[derive(Debug, Clone, Copy, PartialEq, Eq, Structural)]
pub enum LayoutNext {
    Done,
    WaitAndRetry,
    GiveUp,
}

/// What is done after an attempt at a link of the layout: on Windows, one that
/// failed is followed by a second and a third.
pub fn layout_link_next(linked: bool, attempts: u32, on_windows: bool) -> (next: LayoutNext)
    ensures
        next == (if linked {
            LayoutNext::Done
        } else if on_windows && attempts < 3 {
            LayoutNext::WaitAndRetry
        } else {
            LayoutNext::GiveUp
        }),
{
    if linked {
        LayoutNext::Done
    } else if on_windows && attempts < 3 {
        LayoutNext::WaitAndRetry
    } else {
        LayoutNext::GiveUp
    }
}

proof fn lemma_scope_spares_source(
    source: Seq<char>,
    destination: Seq<char>,
    scope: Seq<char>,
    scoped: Seq<EntryLink>,
    i: int,
    on_windows: bool,
)
    requires
        0 <= i < scope_copies(source, destination, scope, scoped, on_windows).len(),
    ensures
        !paths::same_path(
            scope_copies(source, destination, scope, scoped, on_windows)[i].1,
            source,
            on_windows,
        ),
    decreases scoped.len(),
{
    if i < scope_copies(source, destination, scope, scoped.drop_last(), on_windows).len() {
        lemma_scope_spares_source(source, destination, scope, scoped.drop_last(), i, on_windows);
    }
}

/// A package is not copied as one of its own dependencies.
pub proof fn law_package_is_no_dependency_of_itself(
    source: Seq<char>,
    destination: Seq<char>,
    entries: Seq<DependencyEntry>,
    i: int,
    on_windows: bool,
)
    requires
        0 <= i < all_copies(source, destination, entries, on_windows).len(),
    ensures
        !paths::same_path(
            all_copies(source, destination, entries, on_windows)[i].1,
            source,
            on_windows,
        ),
    decreases entries.len(),
{
    let before = all_copies(source, destination, entries.drop_last(), on_windows);
    if i < before.len() {
        law_package_is_no_dependency_of_itself(
            source,
            destination,
            entries.drop_last(),
            i,
            on_windows,
        );
    } else {
        let name = entries.last().link.name@;
        if name != ".bin"@ && name.len() > 0 && name[0] == '@' && !entries.last().has_manifest {
            lemma_scope_spares_source(
                source,
                destination,
                name,
                entries.last().scoped@,
                i - before.len(),
                on_windows,
            );
        }
    }
}

/// What is done about a direct dependency: a package of a registry is linked to in the
/// directory of the virtual store that its version has, by its own name; a directory is
/// linked to or copied as it is asked for. What is there already is left alone, unless it
/// is a copy that has to be made anew.
pub proof fn law_direct_dependency_is_put_in_place(
    link: DirectLink,
    config: Npmrc,
    project: ProjectSnapshot,
    packages: Option<PackageMap>,
    name: Seq<char>,
    wanted: ResolvedDependencySpec,
    manifest: Option<JsonModel>,
    exists: bool,
    on_windows: bool,
)
    requires
        is_direct_link(
            link,
            config,
            project,
            packages,
            name,
            wanted,
            manifest,
            exists,
            on_windows,
        ),
    ensures
        wanted.version matches ResolvedDependencyVersion::PkgVerPeer(suffix) ==> (if exists {
            link is Leave
        } else {
            link is LinkPackage && link->LinkPackage_source@ == package_import::saved_at(
                config.virtual_store_dir@,
                suffix.store_name@,
                name,
                on_windows,
            )
        }),
        wanted.version matches ResolvedDependencyVersion::PkgNameVerPeer(specifier) ==> (
        if exists {
            link is Leave
        } else {
            link is LinkPackage && link->LinkPackage_source@ == package_import::saved_at(
                config.virtual_store_dir@,
                specifier.suffix.store_name@,
                specifier.name@,
                on_windows,
            )
        }),
        wanted.version matches ResolvedDependencyVersion::Link(target) ==> {
            let copied = text::starts_with(target@, "file:"@);
            &&& copied && !config.disable_relink_local_dir_deps ==> link is MaterializeTree
                || link is ImportCopy
            &&& copied && config.disable_relink_local_dir_deps && exists ==> link is Leave
            &&& copied && !exists ==> link is MaterializeTree || link is ImportCopy
            &&& !copied && exists ==> link is Leave
            &&& !copied && !exists && !text::starts_with(wanted.specifier@, "file:"@)
                && config.symlink ==> link is Symlink && link->Symlink_source@ == publish_target(
                paths::joined(
                    project_dir(config, on_windows),
                    without_protocol(target@),
                    on_windows,
                ),
                manifest,
                on_windows,
            )
            &&& !copied && !exists && !text::starts_with(wanted.specifier@, "file:"@)
                && !config.symlink ==> link is Leave
        },
{
}

/// Where a link of the lockfile leads: without its protocol, seen from the project; one to
/// a directory that the lockfile has as a package leads into the virtual store.
pub proof fn law_local_links_lead_to_their_directory(
    target: (String, bool),
    config: Npmrc,
    packages: Option<PackageMap>,
    name: Seq<char>,
    dir: Seq<char>,
    link: Seq<char>,
    on_windows: bool,
    i: int,
)
    requires
        (target.0@, target.1) == local_target(config, packages, name, link, on_windows),
    ensures
        link == "link:"@ + dir ==> !target.1 && target.0@ == paths::joined(
            project_dir(config, on_windows),
            dir,
            on_windows,
        ),
        link == "file:"@ + dir && packages is None ==> !target.1 && target.0@ == paths::joined(
            project_dir(config, on_windows),
            dir,
            on_windows,
        ),
        link == "file:"@ + dir && packages is Some && 0 <= i < packages->0.pairs().len()
            && packages->0.pairs()[i].0.specifier == (lockfile::SpecifierId::LocalFile {
            name,
            reference: link,
        }) ==> target.1,
        target.1 ==> packages is Some && text::starts_with(link, "file:"@),
{
    reveal_strlit("link:");
    reveal_strlit("file:");
    assert("link:"@[0] == 'l' && "file:"@[0] == 'f');
    assert(("link:"@ + dir).subrange(0, 5) =~= "link:"@);
    assert(("file:"@ + dir).subrange(0, 5) =~= "file:"@);
    assert(text::tail("link:"@ + dir, 5) =~= dir);
    assert(text::tail("file:"@ + dir, 5) =~= dir);
    if text::starts_with("file:"@ + dir, "link:"@) {
        assert(("file:"@ + dir).subrange(0, 5)[0] == 'f');
    }
    if packages is Some && 0 <= i < packages->0.pairs().len() {
        lemma_local_package_found(packages->0, name, link, 0, i);
    }
}

proof fn lemma_local_package_found(
    packages: PackageMap,
    name: Seq<char>,
    link: Seq<char>,
    from: int,
    i: int,
)
    requires
        0 <= from <= i < packages.pairs().len(),
    ensures
        packages.pairs()[i].0.specifier == (lockfile::SpecifierId::LocalFile {
            name,
            reference: link,
        }) ==> local_package(packages, name, link, from) is Some,
    decreases i - from,
{
    if from < i {
        lemma_local_package_found(packages, name, link, from + 1, i);
    }
}

/// A project that publishes a directory of its own is linked to there, where it says that
/// the directory is to be linked to.
pub proof fn law_published_directory_is_linked_to(
    path: Seq<char>,
    target: Seq<char>,
    manifest: Map<Seq<char>, JsonModel>,
    on_windows: bool,
)
    requires
        path == publish_target(target, Some(JsonModel::Object(manifest)), on_windows),
    ensures
        ({
            let publish = if manifest.dom().contains("publishConfig"@)
                && manifest["publishConfig"@] is Object {
                manifest["publishConfig"@]->Object_0
            } else {
                Map::empty()
            };
            let named = publish.dom().contains("directory"@) && publish["directory"@] is Text && (
            publish["directory"@]->Text_0).len() > 0;
            let linked = publish.dom().contains("linkDirectory"@) && publish["linkDirectory"@]
                == JsonModel::Bool(true);
            if named && linked {
                path == paths::joined(target, publish["directory"@]->Text_0, on_windows)
            } else {
                path == target
            }
        }),
{
}

/// The layout of a package has a link for each of its dependencies, by the name that the
/// package has for it, to where the virtual store has the package that it is on.
pub proof fn law_layout_links_lead_to_the_packages(
    links: Seq<(Seq<char>, Seq<char>)>,
    dependencies: TextMap<PackageSnapshotDependency>,
    local_store_names: Seq<Seq<char>>,
    virtual_root: Seq<char>,
    lockfile_dir: Seq<char>,
    dir: Seq<char>,
    on_windows: bool,
    i: int,
)
    requires
        links == layout_links(
            dependencies,
            local_store_names,
            virtual_root,
            lockfile_dir,
            dir,
            on_windows,
        ),
        0 <= i < dependencies.pairs().len(),
    ensures
        links.len() == dependencies.pairs().len(),
        links[i].1 == paths::joined(dir, dependencies.key(i)@, on_windows),
        dependencies.value(i) matches PackageSnapshotDependency::PkgVerPeer(suffix) ==> links[i].0
            == package_import::saved_at(
            virtual_root,
            suffix.store_name@,
            dependencies.key(i)@,
            on_windows,
        ),
        dependencies.value(i) matches PackageSnapshotDependency::PkgNameVerPeer(specifier)
            ==> links[i].0 == package_import::saved_at(
            virtual_root,
            specifier.suffix.store_name@,
            specifier.name@,
            on_windows,
        ),
        dependencies.value(i) matches PackageSnapshotDependency::Link(link) ==> (
        text::starts_with(link@, "link:"@) ==> links[i].0 == paths::joined(
            lockfile_dir,
            link@.skip(5),
            on_windows,
        )),
{
    reveal_strlit("link:");
    reveal_strlit("file:");
    assert("link:"@[0] == 'l' && "file:"@[0] == 'f');
    if let PackageSnapshotDependency::Link(link) = dependencies.value(i) {
        if text::starts_with(link@, "link:"@) {
            assert(link@.subrange(0, 5)[0] == link@[0]);
            assert(text::tail(link@, 5) =~= link@.skip(5));
        }
    }
}

/// What is copied along with a package are the entries of the directory of its
/// dependencies, by name, and not its commands or the package itself.
pub proof fn law_dependencies_are_copied_along(
    steps: Seq<CopyModel>,
    source: Seq<char>,
    destination: Seq<char>,
    entries: Seq<DependencyEntry>,
    on_windows: bool,
    i: int,
)
    requires
        steps == all_copies(source, destination, entries, on_windows),
        0 <= i < entries.len(),
        entries[i].link.name@ != ".bin"@,
        entries[i].link.name@.len() > 0,
        entries[i].link.name@[0] != '@' || entries[i].has_manifest,
        !paths::same_path(
            paths::joined(
                dependencies_dir(source, on_windows),
                entries[i].link.name@,
                on_windows,
            ),
            source,
            on_windows,
        ),
    ensures
        exists|k: int|
            0 <= k < steps.len() && (#[trigger] steps[k]).1 == paths::joined(
                dependencies_dir(source, on_windows),
                entries[i].link.name@,
                on_windows,
            ) && steps[k].2 == paths::joined(
                paths::joined(destination, "node_modules"@, on_windows),
                entries[i].link.name@,
                on_windows,
            ),
    decreases entries.len(),
{
    let rest = entries.drop_last();
    let before = all_copies(source, destination, rest, on_windows);
    if i < rest.len() {
        assert(rest[i] == entries[i]);
        law_dependencies_are_copied_along(before, source, destination, rest, on_windows, i);
        let k = choose|k: int|
            0 <= k < before.len() && (#[trigger] before[k]).1 == paths::joined(
                dependencies_dir(source, on_windows),
                entries[i].link.name@,
                on_windows,
            ) && before[k].2 == paths::joined(
                paths::joined(destination, "node_modules"@, on_windows),
                entries[i].link.name@,
                on_windows,
            );
        assert(steps[k] == before[k]);
    } else {
        assert(entries.last() == entries[i]);
        let here = entry_copies(source, destination, entries[i], on_windows);
        assert(here.len() == 1);
        assert(steps[before.len() as int] == here[0]);
    }
}

/// In the layout of a package a dependency by key leads to the directory of that key, and
/// one on a directory that is copied leads to where the virtual store has the copy.
pub proof fn law_layout_links_of_keys_and_copies(
    target: Seq<char>,
    virtual_root: Seq<char>,
    lockfile_dir: Seq<char>,
    alias: Seq<char>,
    dependency: PackageSnapshotDependency,
    local_store_name: Seq<char>,
    on_windows: bool,
)
    requires
        target == layout_target(
            virtual_root,
            lockfile_dir,
            alias,
            dependency,
            local_store_name,
            on_windows,
        ),
    ensures
        dependency matches PackageSnapshotDependency::DependencyPath(path) ==> (
        path.package_specifier matches lockfile::PackageSpecifier::Registry(specifier) ==> target
            == package_import::saved_at(
            virtual_root,
            specifier.suffix.store_name@,
            specifier.name@,
            on_windows,
        )),
        dependency matches PackageSnapshotDependency::Link(link) ==> (text::starts_with(
            link@,
            "file:"@,
        ) ==> target == package_import::saved_at(
            virtual_root,
            local_store_name,
            alias,
            on_windows,
        )),
{
}

} // verus!
