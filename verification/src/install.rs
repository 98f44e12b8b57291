//! How a project is installed: which way is taken, and why it may be refused.
use crate::config::Npmrc;
use crate::current_lockfile;
use crate::install_frozen_lockfile;
use crate::install_with_lockfile;
use crate::json::{Json, JsonModel};
use crate::lockfile;
use crate::lockfile::{
    DependencyGroup, Lockfile, PackageMap, PackageModel, PathId, PathModel, ProjectSnapshot,
    ResolvedDependencyMap, ResolvedDependencyVersion, RootProjectSnapshot,
};
use crate::lockfile_check;
use crate::lockfile_check::RuntimeLockfileConfig;
use crate::manifest_check;
use crate::modules_manifest;
use crate::modules_manifest::ModulesManifest;
use crate::paths;
use crate::pnpmfile;
use crate::progress_reporter::InstallReporter;
use crate::snapshots;
use crate::sorted;
use crate::table;
use crate::table::Table;
use crate::text;
use crate::value;
use crate::value::Value;
use crate::workspace;
use crate::workspace::WorkspaceAnswers;
use crate::write_lockfile;
use crate::write_lockfile::LockfileParts;
use vstd::prelude::*;
use vstd::string::*;

verus! {

/// A dependency is on a directory, not on a tarball.
pub open spec fn is_local_directory(specifier: Seq<char>) -> bool {
    match text::stripped_prefix(specifier, "file:"@) {
        Some(target) => !text::ends_with(target, ".tgz"@) && !text::ends_with(target, ".tar.gz"@),
        None => false,
    }
}

/// One of some dependencies is on a directory.
pub open spec fn has_local_directory(all: Seq<pnpmfile::Wish>) -> bool {
    exists|i: int| 0 <= i < all.len() && is_local_directory((#[trigger] all[i]).2)
}

/// Whether a manifest asks for a directory.
pub fn manifest_has_local_directory_dependency(
    manifest: &Json,
    dependency_groups: &Vec<DependencyGroup>,
) -> (yes: bool)
    ensures
        yes == has_local_directory(pnpmfile::wishes(manifest, dependency_groups@)),
{
    let wanted = pnpmfile::dependencies_from_manifest_value_grouped(manifest, dependency_groups);
    let ghost all = pnpmfile::wishes(manifest, dependency_groups@);
    let mut i: usize = 0;
    while i < wanted.len()
        invariant
            i <= wanted@.len(),
            all == pnpmfile::wishes_of(wanted@),
            all == pnpmfile::wishes(manifest, dependency_groups@),
            forall|j: int| 0 <= j < i ==> !is_local_directory((#[trigger] all[j]).2),
        decreases wanted@.len() - i,
    {
        assert(all[i as int].2 == wanted@[i as int].2@);
        if let Some(target) = text::strip_prefix(wanted[i].2.as_str(), "file:") {
            if !text::has_suffix(target, ".tgz") && !text::has_suffix(target, ".tar.gz") {
                return true;
            }
        }
        i = i + 1;
    }
    false
}

/// Whether what a lockfile says is installed as it is. A directory may have
/// changed, so it is looked at again.
pub fn should_prefer_frozen_lockfile_path(
    lockfile_is_reusable: bool,
    prefer_frozen_lockfile: bool,
    has_local_directory_dependency_specs: bool,
) -> (yes: bool)
    ensures
        yes == (lockfile_is_reusable && prefer_frozen_lockfile
            && !has_local_directory_dependency_specs),
{
    lockfile_is_reusable && prefer_frozen_lockfile && !has_local_directory_dependency_specs
}

/// The package of the workspace that a dependency is expected to be on.
pub open spec fn expected_package(
    config: Npmrc,
    specifier: Seq<char>,
    depth: int,
    answers: WorkspaceAnswers,
) -> Option<usize> {
    if text::starts_with(specifier, "workspace:"@) {
        answers.by_protocol.ok()
    } else if config.link_workspace_packages.links(depth) {
        answers.by_plain_spec
    } else {
        None
    }
}

/// The package of the workspace that a dependency is expected to be on, given
/// what was found of it.
pub fn expected_workspace_dependency_for_install(
    config: &Npmrc,
    specifier: &str,
    depth: usize,
    answers: &WorkspaceAnswers,
) -> (found: Option<usize>)
    ensures
        found == expected_package(*config, specifier@, depth as int, *answers),
{
    if text::has_prefix(specifier, "workspace:") {
        return match answers.by_protocol {
            Ok(i) => Some(i),
            Err(_) => None,
        };
    }
    if !config.link_workspace_packages.links_at_depth(depth) {
        return None;
    }
    answers.by_plain_spec
}

/// What a lockfile says of a dependency in the first of some groups that has it.
pub open spec fn first_resolved(
    project: ProjectSnapshot,
    groups: Seq<DependencyGroup>,
    name: Seq<char>,
    from: int,
) -> Option<ResolvedDependencyVersion>
    decreases groups.len() - from,
{
    if from >= groups.len() {
        None
    } else {
        match lockfile::group_table(project, groups[from]) {
            Some(map) if table::keys(map.pairs()).contains(name) => Some(
                map.value(table::keys(map.pairs()).index_of(name)).version,
            ),
            _ => first_resolved(project, groups, name, from + 1),
        }
    }
}

fn find_resolved<'a>(
    project: &'a ProjectSnapshot,
    groups: &Vec<DependencyGroup>,
    name: &String,
) -> (version: Option<&'a ResolvedDependencyVersion>)
    ensures
        match version {
            Some(version) => first_resolved(*project, groups@, name@, 0) == Some(*version),
            None => first_resolved(*project, groups@, name@, 0) is None,
        },
{
    let mut g: usize = 0;
    while g < groups.len()
        invariant
            g <= groups@.len(),
            first_resolved(*project, groups@, name@, 0) == first_resolved(
                *project,
                groups@,
                name@,
                g as int,
            ),
        decreases groups@.len() - g,
    {
        if let Some(map) = project.get_map_by_group(groups[g]) {
            if let Some(i) = map.position(name) {
                return Some(&map.value_at(i).version);
            }
        }
        g = g + 1;
    }
    None
}

/// A dependency that is expected to be on a package of the workspace is linked
/// to it.
pub open spec fn link_is_current(
    project: ProjectSnapshot,
    groups: Seq<DependencyGroup>,
    project_dir: Seq<char>,
    name: Seq<char>,
    root_dir: Option<Seq<char>>,
    on_windows: bool,
) -> bool {
    match root_dir {
        None => true,
        Some(root_dir) => match first_resolved(project, groups, name, 0) {
            Some(ResolvedDependencyVersion::Link(link)) => link@ == workspace::workspace_link(
                project_dir,
                root_dir,
                on_windows,
            ),
            _ => false,
        },
    }
}

/// Every dependency that is expected to be on a package of the workspace is
/// linked to it.
pub open spec fn links_are_current(
    project: ProjectSnapshot,
    groups: Seq<DependencyGroup>,
    project_dir: Seq<char>,
    wanted: Seq<pnpmfile::Wish>,
    root_dirs: Seq<Option<Seq<char>>>,
    on_windows: bool,
) -> bool {
    forall|i: int|
        0 <= i < wanted.len() ==> link_is_current(
            project,
            groups,
            project_dir,
            (#[trigger] wanted[i]).1,
            root_dirs[i],
            on_windows,
        )
}

/// Whether every dependency that is expected to be on a package of the workspace
/// is linked to it. `root_dirs` holds where that package lies, for each
/// dependency of the manifest.
pub fn direct_workspace_links_match_current_config(
    manifest_path: &str,
    manifest: &Json,
    project_snapshot: &ProjectSnapshot,
    dependency_groups: &Vec<DependencyGroup>,
    root_dirs: &Vec<Option<String>>,
    on_windows: bool,
) -> (yes: bool)
    requires
        root_dirs@.len() == pnpmfile::wishes(manifest, dependency_groups@).len(),
    ensures
        yes == links_are_current(
            *project_snapshot,
            dependency_groups@,
            workspace::manifest_dir(manifest_path@, on_windows),
            pnpmfile::wishes(manifest, dependency_groups@),
            root_dirs.deep_view(),
            on_windows,
        ),
{
    let project_dir = workspace::dir_of_manifest(manifest_path, on_windows);
    let wanted = pnpmfile::dependencies_from_manifest_value_grouped(manifest, dependency_groups);
    let ghost all = pnpmfile::wishes(manifest, dependency_groups@);
    let ghost dirs = root_dirs.deep_view();
    let mut i: usize = 0;
    while i < wanted.len()
        invariant
            i <= wanted@.len(),
            all == pnpmfile::wishes_of(wanted@),
            all == pnpmfile::wishes(manifest, dependency_groups@),
            dirs == root_dirs.deep_view(),
            root_dirs@.len() == all.len(),
            project_dir@ == workspace::manifest_dir(manifest_path@, on_windows),
            forall|j: int|
                0 <= j < i ==> link_is_current(
                    *project_snapshot,
                    dependency_groups@,
                    project_dir@,
                    (#[trigger] all[j]).1,
                    dirs[j],
                    on_windows,
                ),
        decreases wanted@.len() - i,
    {
        proof {
            assert(all[i as int].1 == wanted@[i as int].1@);
            assert(dirs[i as int] == root_dirs@[i as int].deep_view());
        }
        if let Some(root_dir) = &root_dirs[i] {
            let expected = workspace::link_to_workspace_package(
                project_dir.as_str(),
                root_dir.as_str(),
                on_windows,
            );
            let fits = match find_resolved(project_snapshot, dependency_groups, &wanted[i].1) {
                Some(ResolvedDependencyVersion::Link(link)) => text::same_text(
                    link.as_str(),
                    expected.as_str(),
                ),
                _ => false,
            };
            if !fits {
                assert(!link_is_current(
                    *project_snapshot,
                    dependency_groups@,
                    project_dir@,
                    all[i as int].1,
                    dirs[i as int],
                    on_windows,
                ));
                return false;
            }
        }
        i = i + 1;
    }
    true
}

/// A direct dependency is in `node_modules`, or cannot be.
pub open spec fn root_is_ready(
    config: Npmrc,
    alias: Seq<char>,
    version: ResolvedDependencyVersion,
    packages: Option<PackageMap>,
    present: Seq<Seq<char>>,
    on_windows: bool,
) -> bool {
    present.contains(paths::joined(
        config.modules_dir@,
        alias,
        on_windows,
    )) || snapshots::store_location(
        alias,
        version,
        packages,
    ) is None
}

/// The direct dependencies of a group are in `node_modules`, or cannot be.
pub open spec fn root_group_is_ready(
    config: Npmrc,
    map: ResolvedDependencyMap,
    packages: Option<PackageMap>,
    present: Seq<Seq<char>>,
    on_windows: bool,
) -> bool {
    forall|i: int|
        0 <= i < map.pairs().len() ==> root_is_ready(
            config,
            (#[trigger] map.key(i))@,
            map.value(i).version,
            packages,
            present,
            on_windows,
        )
}

/// The direct dependencies of some groups are in `node_modules`, or cannot be.
pub open spec fn roots_are_ready(
    config: Npmrc,
    project: ProjectSnapshot,
    groups: Seq<DependencyGroup>,
    packages: Option<PackageMap>,
    present: Seq<Seq<char>>,
    on_windows: bool,
) -> bool {
    forall|g: int|
        0 <= g < groups.len() ==> match lockfile::group_table(project, #[trigger] groups[g]) {
            Some(map) => root_group_is_ready(config, map, packages, present, on_windows),
            None => true,
        }
}

/// What may be given by reference as a value.
pub open spec fn held<T>(value: Option<&T>) -> Option<T> {
    match value {
        Some(value) => Some(*value),
        None => None,
    }
}

fn root_group_ready(
    config: &Npmrc,
    map: &ResolvedDependencyMap,
    packages: Option<&PackageMap>,
    present: &Vec<String>,
    on_windows: bool,
) -> (ready: bool)
    ensures
        ready == root_group_is_ready(
            *config,
            *map,
            held(packages),
            present.deep_view(),
            on_windows,
        ),
{
    let ghost all = held(packages);
    let ghost there = present.deep_view();
    let n: usize = map.len();
    let mut i: usize = 0;
    while i < n
        invariant
            i <= n,
            n == map.pairs().len(),
            all == held(packages),
            there == present.deep_view(),
            forall|j: int|
                0 <= j < i ==> root_is_ready(
                    *config,
                    (#[trigger] map.key(j))@,
                    map.value(j).version,
                    all,
                    there,
                    on_windows,
                ),
        decreases n - i,
    {
        let alias = map.key_at(i);
        let path = paths::join_paths(config.modules_dir.as_str(), alias.as_str(), on_windows);
        if !value::list_contains(present, path.as_str()) {
            let location = snapshots::direct_dependency_virtual_store_location(
                alias.as_str(),
                &map.value_at(i).version,
                packages,
            );
            if location.is_some() {
                assert(!root_is_ready(
                    *config,
                    map.key(i as int)@,
                    map.value(i as int).version,
                    all,
                    there,
                    on_windows,
                ));
                return false;
            }
        }
        i = i + 1;
    }
    true
}

/// Whether the direct dependencies are in `node_modules`, or cannot be, given
/// the paths that are there.
pub fn direct_root_dependencies_ready(
    config: &Npmrc,
    project_snapshot: &ProjectSnapshot,
    packages: Option<&PackageMap>,
    dependency_groups: &Vec<DependencyGroup>,
    present: &Vec<String>,
    on_windows: bool,
) -> (ready: bool)
    ensures
        ready == roots_are_ready(
            *config,
            *project_snapshot,
            dependency_groups@,
            held(packages),
            present.deep_view(),
            on_windows,
        ),
{
    let ghost all = held(packages);
    let ghost groups = dependency_groups@;
    let mut g: usize = 0;
    while g < dependency_groups.len()
        invariant
            g <= groups.len(),
            groups == dependency_groups@,
            all == held(packages),
            forall|j: int|
                0 <= j < g ==> match lockfile::group_table(*project_snapshot, #[trigger] groups[j]) {
                    Some(map) => root_group_is_ready(
                        *config,
                        map,
                        all,
                        present.deep_view(),
                        on_windows,
                    ),
                    None => true,
                },
        decreases groups.len() - g,
    {
        if let Some(map) = project_snapshot.get_map_by_group(dependency_groups[g]) {
            if !root_group_ready(config, map, packages, present, on_windows) {
                assert(lockfile::group_table(*project_snapshot, groups[g as int]) == Some(*map));
                return false;
            }
        }
        g = g + 1;
    }
    true
}

/// The parts of a lockfile that tell whether what the last installation left is
/// as it should be.
pub open spec fn state_fits(
    expected: Lockfile,
    config: Npmrc,
    importer_id: Seq<char>,
    groups: Seq<DependencyGroup>,
    current: Lockfile,
    present: Seq<Seq<char>>,
    on_windows: bool,
) -> bool {
    &&& current_lockfile::matches_expected(
        current.deep_view(),
        expected.deep_view(),
        importer_id,
    )
    &&& match recorded_by_id(expected.project_snapshot, importer_id) {
        Some(project) => install_frozen_lockfile::is_ready(
            config,
            project,
            groups,
            expected.packages,
            present,
            on_windows,
        ) && roots_are_ready(config, project, groups, expected.packages, present, on_windows),
        None => false,
    }
}

/// An importer of a lockfile by its id; a lockfile with one importer keeps it
/// under the id of the root.
pub open spec fn recorded_by_id(root: RootProjectSnapshot, id: Seq<char>) -> Option<ProjectSnapshot> {
    match root {
        RootProjectSnapshot::Single(project) => if id == "."@ {
            Some(project)
        } else {
            None
        },
        RootProjectSnapshot::Multi(importers) => if table::keys(importers.pairs()).contains(id) {
            Some(importers.value(table::keys(importers.pairs()).index_of(id)))
        } else {
            None
        },
    }
}

/// An importer of a lockfile by its id.
pub fn snapshot_for_importer<'a>(root: &'a RootProjectSnapshot, importer_id: &str) -> (project: Option<
    &'a ProjectSnapshot,
>)
    ensures
        held(project) == recorded_by_id(*root, importer_id@),
{
    match root {
        RootProjectSnapshot::Single(project) => if text::same_text(importer_id, ".") {
            Some(project)
        } else {
            None
        },
        RootProjectSnapshot::Multi(importers) => match importers.position(
            &text::copy(importer_id),
        ) {
            Some(i) => Some(importers.value_at(i)),
            None => None,
        },
    }
}

/// Whether what the last installation left is as it is expected to be, given the
/// paths that are there.
pub fn persisted_state_fits(
    expected: &Lockfile,
    config: &Npmrc,
    importer_id: &str,
    dependency_groups: &Vec<DependencyGroup>,
    current: &Lockfile,
    present: &Vec<String>,
    on_windows: bool,
) -> (yes: bool)
    ensures
        yes == state_fits(
            *expected,
            *config,
            importer_id@,
            dependency_groups@,
            *current,
            present.deep_view(),
            on_windows,
        ),
{
    if !current_lockfile::current_lockfile_matches_expected(current, expected, importer_id) {
        return false;
    }
    let project = match snapshot_for_importer(&expected.project_snapshot, importer_id) {
        Some(project) => project,
        None => {
            return false;
        },
    };
    install_frozen_lockfile::importer_dependencies_ready(
        config,
        project,
        expected.packages.as_ref(),
        dependency_groups,
        present,
        on_windows,
    ) && direct_root_dependencies_ready(
        config,
        project,
        expected.packages.as_ref(),
        dependency_groups,
        present,
        on_windows,
    )
}

proof fn lemma_more_roots_are_ready(
    config: Npmrc,
    project: ProjectSnapshot,
    groups: Seq<DependencyGroup>,
    packages: Option<PackageMap>,
    present: Seq<Seq<char>>,
    other: Seq<Seq<char>>,
    on_windows: bool,
)
    requires
        roots_are_ready(config, project, groups, packages, present, on_windows),
        forall|p: Seq<char>| #[trigger]
            install_frozen_lockfile::probes_of(
                config,
                project,
                groups,
                packages,
                on_windows,
            ).contains(p)
                && present.contains(p) ==> other.contains(p),
    ensures
        roots_are_ready(config, project, groups, packages, other, on_windows),
{
    let all = install_frozen_lockfile::probes_of(config, project, groups, packages, on_windows);
    let first = seq![config.virtual_store_dir@];
    let direct = install_frozen_lockfile::group_probes(
        config,
        project,
        groups,
        packages,
        on_windows,
    );
    let stored = match packages {
        Some(packages) => install_frozen_lockfile::package_probes(
            config,
            packages,
            packages.pairs().len() as int,
            on_windows,
        ),
        None => Seq::empty(),
    };
    assert forall|g: int| 0 <= g < groups.len() implies match lockfile::group_table(
        project,
        #[trigger] groups[g],
    ) {
        Some(map) => root_group_is_ready(config, map, packages, other, on_windows),
        None => true,
    } by {
        if let Some(map) = lockfile::group_table(project, groups[g]) {
            let n = map.pairs().len() as int;
            assert(root_group_is_ready(config, map, packages, present, on_windows));
            assert forall|i: int| 0 <= i < n implies root_is_ready(
                config,
                (#[trigger] map.key(i))@,
                map.value(i).version,
                packages,
                other,
                on_windows,
            ) by {
                let p = paths::joined(config.modules_dir@, map.key(i)@, on_windows);
                install_frozen_lockfile::lemma_direct_probe(
                    config,
                    map,
                    packages,
                    n,
                    i,
                    on_windows,
                );
                install_frozen_lockfile::lemma_group_probe(
                    config,
                    project,
                    groups,
                    packages,
                    g,
                    map,
                    p,
                    on_windows,
                );
                install_frozen_lockfile::lemma_in_either(first, direct, p);
                install_frozen_lockfile::lemma_in_either(first + direct, stored, p);
                assert(all == first + direct + stored);
                assert(all.contains(p));
            }
        }
    }
}

/// Whether what the last installation left is as it should be is decided by the
/// lockfiles and by the probes for the importer: two lists of paths that agree
/// on those lead to one answer.
pub proof fn law_probes_decide_state(
    expected: Lockfile,
    config: Npmrc,
    importer_id: Seq<char>,
    groups: Seq<DependencyGroup>,
    current: Lockfile,
    present: Seq<Seq<char>>,
    other: Seq<Seq<char>>,
    on_windows: bool,
)
    requires
        recorded_by_id(expected.project_snapshot, importer_id) matches Some(project)
            ==> forall|p: Seq<char>| #[trigger]
            install_frozen_lockfile::probes_of(
                config,
                project,
                groups,
                expected.packages,
                on_windows,
            ).contains(p) ==> (present.contains(p) <==> other.contains(p)),
    ensures
        state_fits(
            expected,
            config,
            importer_id,
            groups,
            current,
            present,
            on_windows,
        ) == state_fits(
            expected,
            config,
            importer_id,
            groups,
            current,
            other,
            on_windows,
        ),
{
    if let Some(project) = recorded_by_id(expected.project_snapshot, importer_id) {
        let packages = expected.packages;
        install_frozen_lockfile::law_probes_decide_readiness(
            config,
            project,
            groups,
            packages,
            present,
            other,
            on_windows,
        );
        if roots_are_ready(config, project, groups, packages, present, on_windows) {
            lemma_more_roots_are_ready(
                config,
                project,
                groups,
                packages,
                present,
                other,
                on_windows,
            );
        }
        if roots_are_ready(config, project, groups, packages, other, on_windows) {
            lemma_more_roots_are_ready(
                config,
                project,
                groups,
                packages,
                other,
                present,
                on_windows,
            );
        }
    }
}

/// What is on disk of the last installation: what it left in `node_modules`
/// about itself, its lockfile, where the store lies, and whether that is on
/// Windows.
#[derive(Debug)]
pub struct LastInstallation {
    pub modules_manifest: Option<ModulesManifest>,
    pub current_lockfile: Option<Lockfile>,
    pub store_dir: String,
    pub on_windows: bool,
}

/// What the last installation left is what is expected of one lockfile.
pub open spec fn is_reusable(
    config: Npmrc,
    importer_id: Seq<char>,
    groups: Vec<DependencyGroup>,
    last: LastInstallation,
    present: Seq<Seq<char>>,
    expected: Lockfile,
) -> bool {
    &&& last.modules_manifest is Some
    &&& last.current_lockfile is Some
    &&& modules_manifest::is_compatible(
        last.modules_manifest->0,
        config,
        last.store_dir@,
        groups@,
        last.on_windows,
    )
    &&& state_fits(
        expected,
        config,
        importer_id,
        groups@,
        last.current_lockfile->0,
        present,
        last.on_windows,
    )
}

/// The lockfile that the last installation is expected to have left.
pub open spec fn is_expected(
    expected: Lockfile,
    lockfile: Lockfile,
    importer_id: Seq<char>,
    groups: Vec<DependencyGroup>,
    last: LastInstallation,
) -> bool {
    last.modules_manifest is Some ==> expected.deep_view() == current_lockfile::current_lockfile(
        lockfile,
        seq![importer_id],
        groups,
        last.modules_manifest->0.skipped,
    )
}

/// Whether nothing is left to do, because what the last installation left is
/// what this lockfile asks for.
pub fn persisted_install_state_is_reusable(
    lockfile: &Lockfile,
    config: &Npmrc,
    importer_id: &str,
    dependency_groups: &Vec<DependencyGroup>,
    last: &LastInstallation,
    present: &Vec<String>,
) -> (yes: bool)
    ensures
        exists|expected: Lockfile| #[trigger]
            is_expected(expected, *lockfile, importer_id@, *dependency_groups, *last) && yes
                == is_reusable(
                *config,
                importer_id@,
                *dependency_groups,
                *last,
                present.deep_view(),
                expected,
            ),
{
    let manifest = match &last.modules_manifest {
        Some(manifest) => manifest,
        None => {
            assert(is_expected(*lockfile, *lockfile, importer_id@, *dependency_groups, *last));
            return false;
        },
    };
    let expected = expected_current_lockfile(lockfile, importer_id, dependency_groups, manifest);
    assert(is_expected(expected, *lockfile, importer_id@, *dependency_groups, *last));
    let current = match &last.current_lockfile {
        Some(current) => current,
        None => {
            return false;
        },
    };
    if !modules_manifest::modules_manifest_is_compatible(
        manifest,
        config,
        last.store_dir.as_str(),
        dependency_groups,
        last.on_windows,
    ) {
        return false;
    }
    persisted_state_fits(
        &expected,
        config,
        importer_id,
        dependency_groups,
        current,
        present,
        last.on_windows,
    )
}

/// The lockfile that the last installation is expected to have left.
pub fn expected_current_lockfile(
    lockfile: &Lockfile,
    importer_id: &str,
    dependency_groups: &Vec<DependencyGroup>,
    modules_manifest: &ModulesManifest,
) -> (expected: Lockfile)
    ensures
        expected.deep_view() == current_lockfile::current_lockfile(
            *lockfile,
            seq![importer_id@],
            *dependency_groups,
            modules_manifest.skipped,
        ),
{
    let mut ids: Vec<String> = Vec::new();
    ids.push(text::copy(importer_id));
    assert(ids.deep_view() =~= seq![importer_id@]);
    current_lockfile::current_lockfile_for_installers(
        lockfile,
        &ids,
        dependency_groups,
        &modules_manifest.skipped,
    )
}

/// What a lockfile keeps of the importer that is installed. A lockfile with one
/// importer is taken to be about that one.
pub open spec fn recorded(root: RootProjectSnapshot, id: Seq<char>) -> Option<ProjectSnapshot> {
    match root {
        RootProjectSnapshot::Single(project) => Some(project),
        RootProjectSnapshot::Multi(_) => recorded_by_id(root, id),
    }
}

/// What a lockfile keeps of the importer that is installed.
pub fn recorded_project<'a>(root: &'a RootProjectSnapshot, importer_id: &str) -> (project: Option<
    &'a ProjectSnapshot,
>)
    ensures
        held(project) == recorded(*root, importer_id@),
{
    match root {
        RootProjectSnapshot::Single(project) => Some(project),
        RootProjectSnapshot::Multi(_) => snapshot_for_importer(root, importer_id),
    }
}

/// The verdict on whether an importer of a lockfile still fits its manifest.
pub open spec fn manifest_verdict(
    lockfile: Lockfile,
    project: ProjectSnapshot,
    config: Npmrc,
    manifest: Json,
    reason: Option<Seq<char>>,
) -> bool {
    manifest_check::is_verdict(
        project,
        manifest_check::manifest_of(manifest.deep_view()),
        manifest_check::wanted(
            project.deep_view(),
            manifest_check::manifest_of(manifest.deep_view()),
            config.auto_install_peers,
            config.exclude_links_from_lockfile,
        ),
        lockfile.lockfile_version.0 >= 9,
        reason,
    )
}

/// The specifiers of an importer can be read, as far as they are when it is held
/// against its manifest.
pub open spec fn specifiers_readable(
    lockfile: Lockfile,
    project: ProjectSnapshot,
    config: Npmrc,
    manifest: Json,
) -> bool {
    manifest_check::specifiers_readable(
        project,
        manifest_check::manifest_of(manifest.deep_view()),
        manifest_check::wanted(
            project.deep_view(),
            manifest_check::manifest_of(manifest.deep_view()),
            config.auto_install_peers,
            config.exclude_links_from_lockfile,
        ),
        lockfile.lockfile_version.0 >= 9,
    )
}

/// An importer can be checked: its specifiers can be read, unless a setting that
/// has changed comes first.
pub open spec fn importer_readable(
    lockfile: Lockfile,
    project: ProjectSnapshot,
    config: Npmrc,
    runtime: RuntimeLockfileConfig,
    manifest: Json,
) -> bool {
    lockfile_check::outdated_setting(lockfile.deep_view(), runtime.deep_view()) is None
        ==> specifiers_readable(lockfile, project, config, manifest)
}

/// Whether an importer can be checked.
pub fn importer_is_readable(
    lockfile: &Lockfile,
    project: &ProjectSnapshot,
    config: &Npmrc,
    runtime: &RuntimeLockfileConfig,
    manifest: &Json,
) -> (yes: bool)
    ensures
        yes == importer_readable(*lockfile, *project, *config, *runtime, *manifest),
{
    lockfile_check::get_outdated_lockfile_setting(lockfile, runtime).is_some()
        || manifest_check::specifiers_are_readable(
        project,
        manifest,
        config.auto_install_peers,
        config.exclude_links_from_lockfile,
        lockfile.lockfile_version.0 >= 9,
    )
}

fn check_manifest(
    lockfile: &Lockfile,
    project: &ProjectSnapshot,
    config: &Npmrc,
    manifest: &Json,
) -> (result: Result<(), String>)
    requires
        specifiers_readable(*lockfile, *project, *config, *manifest),
    ensures
        manifest_verdict(
            *lockfile,
            *project,
            *config,
            *manifest,
            match result {
                Ok(_) => None,
                Err(message) => Some(message@),
            },
        ),
{
    manifest_check::satisfies_package_manifest(
        project,
        manifest,
        config.auto_install_peers,
        config.exclude_links_from_lockfile,
        lockfile.lockfile_version.0 >= 9,
    )
}

/// What is told about a setting that has changed since the lockfile was written.
pub open spec fn outdated_message(setting: Seq<char>) -> Seq<char> {
    "Cannot proceed with the frozen installation. The current \""@ + setting
        + "\" configuration doesn't match the value found in the lockfile"@
}

/// What is told about a lockfile that does not fit a manifest.
pub open spec fn not_up_to_date(manifest_path: Seq<char>, reason: Seq<char>) -> Seq<char> {
    "Cannot install with --frozen-lockfile because pnpm-lock.yaml is not up to date with "@
        + manifest_path + " ("@ + reason + ")"@
}

/// What is told about an importer of a lockfile that is not to be changed, if
/// it cannot be installed as it is.
pub open spec fn is_frozen_verdict(
    lockfile: Lockfile,
    project: ProjectSnapshot,
    config: Npmrc,
    runtime: RuntimeLockfileConfig,
    manifest: Json,
    manifest_path: Seq<char>,
    root_config: Result<(), String>,
    message: Option<Seq<char>>,
) -> bool {
    match lockfile_check::outdated_setting(lockfile.deep_view(), runtime.deep_view()) {
        Some(setting) => message == Some(outdated_message(setting)),
        None => {
            ||| message is Some && exists|reason: Seq<char>| #[trigger]
                manifest_verdict(lockfile, project, config, manifest, Some(reason)) && message
                    == Some(not_up_to_date(manifest_path, reason))
            ||| manifest_verdict(lockfile, project, config, manifest, None) && message == (
            match root_config {
                Ok(_) => None,
                Err(reason) => Some(not_up_to_date(manifest_path, reason@)),
            })
        },
    }
}

fn refuse_not_up_to_date(manifest_path: &str, reason: &str) -> (message: String)
    ensures
        message@ == not_up_to_date(manifest_path@, reason@),
{
    text::copy(
        "Cannot install with --frozen-lockfile because pnpm-lock.yaml is not up to date with ",
    ).concat(manifest_path).concat(" (").concat(reason).concat(")")
}

/// Whether an importer of a lockfile that is not to be changed can be installed
/// as it is: the settings are those that it was written under, and it fits the
/// manifest of the project and that of the root.
pub fn check_frozen_importer(
    lockfile: &Lockfile,
    project: &ProjectSnapshot,
    config: &Npmrc,
    runtime: &RuntimeLockfileConfig,
    manifest: &Json,
    manifest_path: &str,
    root_config: &Result<(), String>,
) -> (result: Result<(), String>)
    requires
        importer_readable(*lockfile, *project, *config, *runtime, *manifest),
    ensures
        is_frozen_verdict(
            *lockfile,
            *project,
            *config,
            *runtime,
            *manifest,
            manifest_path@,
            *root_config,
            match result {
                Ok(_) => None,
                Err(message) => Some(message@),
            },
        ),
{
    if let Some(setting) = lockfile_check::get_outdated_lockfile_setting(lockfile, runtime) {
        return Err(
            text::copy("Cannot proceed with the frozen installation. The current \"").concat(
                setting,
            ).concat("\" configuration doesn't match the value found in the lockfile"),
        );
    }
    if let Err(reason) = check_manifest(lockfile, project, config, manifest) {
        return Err(refuse_not_up_to_date(manifest_path, reason.as_str()));
    }
    match root_config {
        Ok(_) => Ok(()),
        Err(reason) => Err(refuse_not_up_to_date(manifest_path, reason.as_str())),
    }
}

/// Whether an importer of a lockfile that is not to be changed can be installed
/// as it is; nothing where a specifier is met that cannot be read without harm.
pub fn examine_frozen_importer(
    lockfile: &Lockfile,
    project: &ProjectSnapshot,
    config: &Npmrc,
    runtime: &RuntimeLockfileConfig,
    manifest: &Json,
    manifest_path: &str,
    root_config: &Result<(), String>,
) -> (checked: Option<Result<(), String>>)
    ensures
        checked is Some <==> importer_readable(*lockfile, *project, *config, *runtime, *manifest),
        checked matches Some(result) ==> is_frozen_verdict(
            *lockfile,
            *project,
            *config,
            *runtime,
            *manifest,
            manifest_path@,
            *root_config,
            match result {
                Ok(_) => None,
                Err(message) => Some(message@),
            },
        ),
{
    if !importer_is_readable(lockfile, project, config, runtime, manifest) {
        return None;
    }
    Some(
        check_frozen_importer(
            lockfile,
            project,
            config,
            runtime,
            manifest,
            manifest_path,
            root_config,
        ),
    )
}

/// A lockfile still says what is to be installed.
pub open spec fn says_what_to_install(
    lockfile: Lockfile,
    importer_id: Seq<char>,
    config: Npmrc,
    runtime: RuntimeLockfileConfig,
    manifest: Json,
    links_match: bool,
    root_config: Result<(), String>,
) -> bool {
    match recorded(lockfile.project_snapshot, importer_id) {
        Some(project) => {
            &&& lockfile_check::outdated_setting(lockfile.deep_view(), runtime.deep_view()) is None
            &&& manifest_verdict(lockfile, project, config, manifest, None)
            &&& links_match
            &&& root_config is Ok
        },
        None => false,
    }
}

/// What a lockfile keeps of an importer can be checked.
pub open spec fn recorded_is_readable(
    lockfile: Lockfile,
    importer_id: Seq<char>,
    config: Npmrc,
    runtime: RuntimeLockfileConfig,
    manifest: Json,
) -> bool {
    match recorded(lockfile.project_snapshot, importer_id) {
        Some(project) => importer_readable(lockfile, project, config, runtime, manifest),
        None => true,
    }
}

/// Whether a lockfile still says what is to be installed. `links_match` says
/// whether its links into the workspace are current, and `root_config` whether
/// it fits the manifest of the root.
pub fn lockfile_is_reusable(
    lockfile: &Lockfile,
    importer_id: &str,
    config: &Npmrc,
    runtime: &RuntimeLockfileConfig,
    manifest: &Json,
    links_match: bool,
    root_config: &Result<(), String>,
) -> (yes: bool)
    requires
        recorded_is_readable(*lockfile, importer_id@, *config, *runtime, *manifest),
    ensures
        yes == says_what_to_install(
            *lockfile,
            importer_id@,
            *config,
            *runtime,
            *manifest,
            links_match,
            *root_config,
        ),
{
    match recorded_project(&lockfile.project_snapshot, importer_id) {
        Some(project) => {
            lockfile_check::get_outdated_lockfile_setting(lockfile, runtime).is_none()
                && check_manifest(lockfile, project, config, manifest).is_ok() && links_match
                && root_config.is_ok()
        },
        None => false,
    }
}

/// Whether what a lockfile keeps of an importer can be checked.
fn recorded_can_be_read(
    lockfile: &Lockfile,
    importer_id: &str,
    config: &Npmrc,
    runtime: &RuntimeLockfileConfig,
    manifest: &Json,
) -> (yes: bool)
    ensures
        yes == recorded_is_readable(*lockfile, importer_id@, *config, *runtime, *manifest),
{
    match recorded_project(&lockfile.project_snapshot, importer_id) {
        Some(project) => importer_is_readable(lockfile, project, config, runtime, manifest),
        None => true,
    }
}

/// Whether a lockfile still says what is to be installed; nothing where a
/// specifier is met that cannot be read without harm.
pub fn examine_lockfile(
    lockfile: &Lockfile,
    importer_id: &str,
    config: &Npmrc,
    runtime: &RuntimeLockfileConfig,
    manifest: &Json,
    links_match: bool,
    root_config: &Result<(), String>,
) -> (checked: Option<bool>)
    ensures
        checked is Some <==> recorded_is_readable(
            *lockfile,
            importer_id@,
            *config,
            *runtime,
            *manifest,
        ),
        checked matches Some(yes) ==> yes == says_what_to_install(
            *lockfile,
            importer_id@,
            *config,
            *runtime,
            *manifest,
            links_match,
            *root_config,
        ),
{
    if !recorded_can_be_read(lockfile, importer_id, config, runtime, manifest) {
        return None;
    }
    Some(
        lockfile_is_reusable(
            lockfile,
            importer_id,
            config,
            runtime,
            manifest,
            links_match,
            root_config,
        ),
    )
}

/// What was asked of an installation.
#[derive(Debug, Clone, Copy, PartialEq, Eq, Structural)]
pub struct InstallOptions {
    pub frozen_lockfile: bool,
    pub lockfile_only: bool,
    pub force: bool,
}

/// What is decided before anything is touched.
#[derive(Debug)]
pub enum InstallStart {
    Refused { message: String },
    UpToDate,
    GoOn,
}

/// Why an installation is refused before anything is looked at.
pub open spec fn refusal(config: Npmrc, options: InstallOptions) -> Option<Seq<char>> {
    if options.lockfile_only && !config.lockfile {
        Some("Cannot generate a pnpm-lock.yaml because lockfile is set to false"@)
    } else {
        None
    }
}

/// Why an installation is refused before anything is looked at: only a lockfile
/// is wanted, and none may be written.
pub fn install_refusal(config: &Npmrc, options: InstallOptions) -> (message: Option<String>)
    ensures
        message.deep_view() == refusal(*config, options),
{
    if options.lockfile_only && !config.lockfile {
        Some(text::copy("Cannot generate a pnpm-lock.yaml because lockfile is set to false"))
    } else {
        None
    }
}

/// Whether an installation has anything to do: it is refused where only a
/// lockfile is wanted and none may be written, and it is done at once where the
/// lockfile still says what to install and that is what is there.
pub fn install_start(
    config: &Npmrc,
    options: InstallOptions,
    lockfile_is_reusable: bool,
    has_local_directories: bool,
    state_is_reusable: bool,
) -> (start: InstallStart)
    ensures
        match start {
            InstallStart::Refused { message } => refusal(*config, options) == Some(message@),
            InstallStart::UpToDate => config.lockfile && is_up_to_date(
                *config,
                options,
                lockfile_is_reusable,
                has_local_directories,
                state_is_reusable,
            ),
            InstallStart::GoOn => refusal(*config, options) is None && !is_up_to_date(
                *config,
                options,
                lockfile_is_reusable,
                has_local_directories,
                state_is_reusable,
            ),
        },
{
    if let Some(message) = install_refusal(config, options) {
        return InstallStart::Refused { message };
    }
    if !options.force && !options.lockfile_only && config.lockfile && !options.frozen_lockfile
        && should_prefer_frozen_lockfile_path(
        lockfile_is_reusable,
        config.prefer_frozen_lockfile,
        has_local_directories,
    ) && state_is_reusable {
        return InstallStart::UpToDate;
    }
    InstallStart::GoOn
}

/// There is nothing to do.
pub open spec fn is_up_to_date(
    config: Npmrc,
    options: InstallOptions,
    lockfile_is_reusable: bool,
    has_local_directories: bool,
    state_is_reusable: bool,
) -> bool {
    &&& !options.force && !options.lockfile_only && !options.frozen_lockfile
    &&& config.lockfile && config.prefer_frozen_lockfile
    &&& lockfile_is_reusable && !has_local_directories && state_is_reusable
}

/// The way that an installation takes: without a lockfile; by resolving what
/// the manifest asks for and writing a lockfile; by what the lockfile says; none,
/// because there is nothing to do; or it is refused.
#[derive(Debug)]
pub enum InstallWay {
    Refused { message: String },
    WithoutLockfile,
    WithLockfile,
    Frozen,
    Nothing,
}

/// What is known of a project when the way to install it is chosen.
pub struct InstallCase<'a> {
    pub config: &'a Npmrc,
    pub options: InstallOptions,
    pub lockfile: Option<&'a Lockfile>,
    pub importer_id: &'a str,
    pub runtime: &'a RuntimeLockfileConfig,
    pub manifest: &'a Json,
    pub manifest_path: &'a str,
    pub dependency_groups: &'a Vec<DependencyGroup>,
    pub links_match: bool,
    pub root_config: &'a Result<(), String>,
    pub state_is_reusable: bool,
}

/// What the lockfile says is installed, unless that is what is there.
pub open spec fn is_frozen_way(case: InstallCase, way: InstallWay) -> bool {
    if case.options.lockfile_only || !case.options.force && case.state_is_reusable {
        way is Nothing
    } else {
        way is Frozen
    }
}

/// The way that an installation takes.
pub open spec fn is_install_way(case: InstallCase, way: InstallWay) -> bool {
    if !case.config.lockfile {
        way is WithoutLockfile
    } else {
        match case.lockfile {
            None => if case.options.frozen_lockfile {
                way is Refused && way->message@
                    == "Cannot install with --frozen-lockfile because pnpm-lock.yaml was not found"@
            } else {
                way is WithLockfile
            },
            Some(lockfile) => if case.options.frozen_lockfile {
                match recorded(lockfile.project_snapshot, case.importer_id@) {
                    None => way is Refused && way->message@ == "Cannot find importer `"@
                        + case.importer_id@ + "` in pnpm-lock.yaml"@,
                    Some(project) => {
                        ||| way is Refused && is_case_verdict(
                            case,
                            *lockfile,
                            project,
                            Some(way->message@),
                        )
                        ||| is_case_verdict(case, *lockfile, project, None) && is_frozen_way(
                            case,
                            way,
                        )
                    },
                }
            } else if says_what_to_install(
                *lockfile,
                case.importer_id@,
                *case.config,
                *case.runtime,
                *case.manifest,
                case.links_match,
                *case.root_config,
            ) && case.config.prefer_frozen_lockfile && !has_local_directory(
                pnpmfile::wishes(case.manifest, case.dependency_groups@),
            ) {
                is_frozen_way(case, way)
            } else {
                way is WithLockfile
            },
        }
    }
}

/// What is told about the importer of a case.
pub open spec fn is_case_verdict(
    case: InstallCase,
    lockfile: Lockfile,
    project: ProjectSnapshot,
    message: Option<Seq<char>>,
) -> bool {
    is_frozen_verdict(
        lockfile,
        project,
        *case.config,
        *case.runtime,
        *case.manifest,
        case.manifest_path@,
        *case.root_config,
        message,
    )
}

fn frozen_way(case: &InstallCase) -> (way: InstallWay)
    ensures
        is_frozen_way(*case, way),
{
    if case.options.lockfile_only || !case.options.force && case.state_is_reusable {
        InstallWay::Nothing
    } else {
        InstallWay::Frozen
    }
}

/// The way that an installation takes. A lockfile that is not to be changed has
/// to be of a version that is known.
pub fn install_way(case: &InstallCase) -> (way: InstallWay)
    requires
        case_is_readable(*case),
    ensures
        is_install_way(*case, way),
{
    if !case.config.lockfile {
        return InstallWay::WithoutLockfile;
    }
    let lockfile = match case.lockfile {
        Some(lockfile) => lockfile,
        None => {
            return if case.options.frozen_lockfile {
                InstallWay::Refused {
                    message: text::copy(
                        "Cannot install with --frozen-lockfile because pnpm-lock.yaml was not found",
                    ),
                }
            } else {
                InstallWay::WithLockfile
            };
        },
    };
    if case.options.frozen_lockfile {
        let project = match recorded_project(&lockfile.project_snapshot, case.importer_id) {
            Some(project) => project,
            None => {
                return InstallWay::Refused {
                    message: text::copy("Cannot find importer `").concat(
                        case.importer_id,
                    ).concat("` in pnpm-lock.yaml"),
                };
            },
        };
        return match check_frozen_importer(
            lockfile,
            project,
            case.config,
            case.runtime,
            case.manifest,
            case.manifest_path,
            case.root_config,
        ) {
            Err(message) => InstallWay::Refused { message },
            Ok(_) => frozen_way(case),
        };
    }
    let reusable = lockfile_is_reusable(
        lockfile,
        case.importer_id,
        case.config,
        case.runtime,
        case.manifest,
        case.links_match,
        case.root_config,
    );
    let has_local_directories = manifest_has_local_directory_dependency(
        case.manifest,
        case.dependency_groups,
    );
    if should_prefer_frozen_lockfile_path(
        reusable,
        case.config.prefer_frozen_lockfile,
        has_local_directories,
    ) {
        frozen_way(case)
    } else {
        InstallWay::WithLockfile
    }
}

/// What an installation reads of its lockfile can be read: the specifiers of the
/// importer, and the version of a lockfile that is not to be changed.
pub open spec fn case_is_readable(case: InstallCase) -> bool {
    case.config.lockfile && case.lockfile is Some ==> {
        &&& recorded_is_readable(
            *case.lockfile->0,
            case.importer_id@,
            *case.config,
            *case.runtime,
            *case.manifest,
        )
        &&& case.options.frozen_lockfile ==> case.lockfile->0.lockfile_version.0 == 6
            || case.lockfile->0.lockfile_version.0 == 9
    }
}

/// The way that an installation takes; nothing where what it reads of its
/// lockfile cannot be read.
pub fn find_install_way(case: &InstallCase) -> (found: Option<InstallWay>)
    ensures
        found is Some <==> case_is_readable(*case),
        found matches Some(way) ==> is_install_way(*case, way),
{
    if case.config.lockfile {
        if let Some(lockfile) = case.lockfile {
            if case.options.frozen_lockfile && lockfile.lockfile_version.0 != 6
                && lockfile.lockfile_version.0 != 9 {
                return None;
            }
            if !recorded_can_be_read(
                lockfile,
                case.importer_id,
                case.config,
                case.runtime,
                case.manifest,
            ) {
                return None;
            }
        }
    }
    Some(install_way(case))
}

/// What is done once everything is in place.
#[derive(Debug, Clone, Copy, PartialEq, Eq, Structural)]
pub enum FinishingStep {
    Hoist,
    ValidatePeers,
    LinkBins,
    WriteModulesManifest,
    WritePnpManifest,
}

/// What is done once everything is in place.
pub open spec fn finishing(lockfile_only: bool, strict_peers: bool) -> Seq<FinishingStep> {
    if lockfile_only {
        Seq::empty()
    } else if strict_peers {
        seq![
            FinishingStep::Hoist,
            FinishingStep::ValidatePeers,
            FinishingStep::LinkBins,
            FinishingStep::WriteModulesManifest,
            FinishingStep::WritePnpManifest,
        ]
    } else {
        seq![
            FinishingStep::Hoist,
            FinishingStep::LinkBins,
            FinishingStep::WriteModulesManifest,
            FinishingStep::WritePnpManifest,
        ]
    }
}

/// What is done once everything is in place. Where only a lockfile is wanted,
/// `node_modules` is left alone.
pub fn finishing_steps(config: &Npmrc, lockfile_only: bool) -> (steps: Vec<FinishingStep>)
    ensures
        steps@ == finishing(lockfile_only, config.strict_peer_dependencies),
{
    let mut steps: Vec<FinishingStep> = Vec::new();
    if !lockfile_only {
        steps.push(FinishingStep::Hoist);
        if config.strict_peer_dependencies {
            steps.push(FinishingStep::ValidatePeers);
        }
        steps.push(FinishingStep::LinkBins);
        steps.push(FinishingStep::WriteModulesManifest);
        steps.push(FinishingStep::WritePnpManifest);
    }
    assert(steps@ =~= finishing(lockfile_only, config.strict_peer_dependencies));
    steps
}

/// Whether a summary is printed.
pub fn should_print_summary(succeeded: bool, print_summary: bool, reporter: InstallReporter) -> (yes:
    bool)
    ensures
        yes == (succeeded && print_summary && !(reporter is Silent)),
{
    succeeded && print_summary && !matches!(reporter, InstallReporter::Silent)
}

/// The names of the dependencies that a manifest asks for.
pub fn direct_dependency_names(manifest: &Json, dependency_groups: &Vec<DependencyGroup>) -> (names:
    Vec<String>)
    ensures
        names.deep_view() == pnpmfile::wishes(manifest, dependency_groups@).map_values(
            |wish: pnpmfile::Wish| wish.1,
        ),
{
    let wanted = pnpmfile::dependencies_from_manifest_value_grouped(manifest, dependency_groups);
    let ghost all = pnpmfile::wishes(manifest, dependency_groups@).map_values(
        |wish: pnpmfile::Wish| wish.1,
    );
    let mut names: Vec<String> = Vec::new();
    let mut i: usize = 0;
    while i < wanted.len()
        invariant
            i <= wanted@.len(),
            all == pnpmfile::wishes_of(wanted@).map_values(|wish: pnpmfile::Wish| wish.1),
            names.deep_view() == all.take(i as int),
        decreases wanted@.len() - i,
    {
        let ghost before = names.deep_view();
        names.push(wanted[i].1.clone());
        proof {
            assert(all[i as int] == wanted@[i as int].1@);
            assert(all.take(i + 1) =~= all.take(i as int).push(all[i as int]));
            assert(names.deep_view() =~= before.push(all[i as int]));
        }
        i = i + 1;
    }
    assert(all.take(i as int) =~= all);
    names
}

/// An importer with what is left of its dependencies, what is left of the packages
/// for it, and which of them are skipped.
#[derive(Debug)]
pub struct TargetPackages {
    pub importer_id: String,
    pub project_snapshot: ProjectSnapshot,
    pub packages: Option<PackageMap>,
    pub skipped: Vec<String>,
}

/// The packages of several importers; where two keep one under the same key,
/// that of the later importer counts.
pub open spec fn united(targets: Seq<TargetPackages>) -> Map<PathId, PackageModel>
    decreases targets.len(),
{
    if targets.len() == 0 {
        Map::empty()
    } else {
        match targets.last().packages {
            Some(packages) => united(targets.drop_last()).union_prefer_right(packages.deep_view()),
            None => united(targets.drop_last()),
        }
    }
}

/// The keys of the packages of several importers; where two keep one under the
/// same key, that of the earlier importer stays.
pub open spec fn united_keys(targets: Seq<TargetPackages>) -> Map<PathId, PathModel>
    decreases targets.len(),
{
    if targets.len() == 0 {
        Map::empty()
    } else {
        match targets.last().packages {
            Some(packages) => packages.full_keys().union_prefer_right(
                united_keys(targets.drop_last()),
            ),
            None => united_keys(targets.drop_last()),
        }
    }
}

/// What is skipped for several importers.
pub open spec fn all_skipped(targets: Seq<TargetPackages>) -> Seq<Seq<char>>
    decreases targets.len(),
{
    if targets.len() == 0 {
        Seq::empty()
    } else {
        all_skipped(targets.drop_last()) + targets.last().skipped.deep_view()
    }
}

/// The importers of a workspace as they came, what they need together, and what is
/// skipped for any of them, given what is left of the packages for each.
pub fn filter_installable_workspace_targets(
    has_packages: bool,
    targets: Vec<TargetPackages>,
) -> (result: (Vec<TargetPackages>, Option<PackageMap>, Vec<String>))
    ensures
        result.0 == targets,
        (result.1.deep_view(), result.2.deep_view()) == (if has_packages {
            (Some(united(targets@)), sorted::in_order(all_skipped(targets@).to_set()))
        } else {
            (None, Seq::empty())
        }),
        lockfile::full_keys(result.1) == (if has_packages {
            Some(united_keys(targets@))
        } else {
            None
        }),
{
    if !has_packages {
        let none: Vec<String> = Vec::new();
        assert(none.deep_view() =~= Seq::<Seq<char>>::empty());
        return (targets, None, none);
    }
    let mut packages: PackageMap = Table::new();
    let mut skipped: Vec<String> = Vec::new();
    let mut i: usize = 0;
    assert(packages.deep_view() =~= united(targets@.take(0)));
    assert(packages.full_keys() =~= united_keys(targets@.take(0)));
    assert(skipped.deep_view() =~= all_skipped(targets@.take(0)));
    while i < targets.len()
        invariant
            i <= targets@.len(),
            packages.deep_view() == united(targets@.take(i as int)),
            packages.full_keys() == united_keys(targets@.take(i as int)),
            skipped.deep_view() == all_skipped(targets@.take(i as int)),
        decreases targets@.len() - i,
    {
        assert(targets@.take(i + 1).drop_last() =~= targets@.take(i as int));
        let ghost before = skipped.deep_view();
        if let Some(more) = &targets[i].packages {
            packages.extend(more);
        }
        let mut more = targets[i].skipped.duplicate();
        let ghost added = more.deep_view();
        skipped.append(&mut more);
        assert(skipped.deep_view() =~= before + added);
        i = i + 1;
    }
    assert(targets@.take(i as int) =~= targets@);
    (targets, Some(packages), sorted::sorted_texts(&skipped))
}

/// Something that an importer needs is not in place.
pub open spec fn some_not_ready(
    config: Npmrc,
    projects: Seq<ProjectSnapshot>,
    packages: Option<PackageMap>,
    groups: Seq<DependencyGroup>,
    present: Seq<Seq<char>>,
    on_windows: bool,
) -> bool {
    exists|i: int|
        0 <= i < projects.len() && !install_frozen_lockfile::is_ready(
            config,
            #[trigger] projects[i],
            groups,
            packages,
            present,
            on_windows,
        )
}

/// Whether the virtual store is filled for the importers of a workspace.
pub fn workspace_needs_virtual_store(
    force: bool,
    config: &Npmrc,
    projects: &Vec<ProjectSnapshot>,
    packages: Option<&PackageMap>,
    dependency_groups: &Vec<DependencyGroup>,
    present: &Vec<String>,
    on_windows: bool,
) -> (yes: bool)
    ensures
        yes == (force || some_not_ready(
            *config,
            projects@,
            held(packages),
            dependency_groups@,
            present.deep_view(),
            on_windows,
        )),
{
    if force {
        return true;
    }
    let ghost all = held(packages);
    let ghost there = present.deep_view();
    let mut i: usize = 0;
    while i < projects.len()
        invariant
            i <= projects@.len(),
            all == held(packages),
            there == present.deep_view(),
            forall|j: int|
                0 <= j < i ==> install_frozen_lockfile::is_ready(
                    *config,
                    #[trigger] projects@[j],
                    dependency_groups@,
                    all,
                    there,
                    on_windows,
                ),
        decreases projects@.len() - i,
    {
        let ready = install_frozen_lockfile::importer_dependencies_ready(
            config,
            &projects[i],
            packages,
            dependency_groups,
            present,
            on_windows,
        );
        if !ready {
            assert(!install_frozen_lockfile::is_ready(
                *config,
                projects@[i as int],
                dependency_groups@,
                all,
                there,
                on_windows,
            ));
            return true;
        }
        i = i + 1;
    }
    false
}

/// A lockfile that is not to be changed is never changed: the way that writes
/// one is not taken.
pub proof fn law_frozen_lockfile_is_not_written(case: InstallCase, way: InstallWay)
    requires
        is_install_way(case, way),
        case.config.lockfile,
        case.options.frozen_lockfile,
    ensures
        !(way is WithLockfile),
        !(way is WithoutLockfile),
{
}

/// With force, what the lockfile says is installed even where it is there.
pub proof fn law_force_installs(case: InstallCase, way: InstallWay)
    requires
        is_install_way(case, way),
        case.options.force,
        !case.options.lockfile_only,
    ensures
        !(way is Nothing),
{
}

/// Where only a lockfile is wanted, nothing is installed by what the lockfile
/// says.
pub proof fn law_lockfile_only_installs_nothing(case: InstallCase, way: InstallWay)
    requires
        is_install_way(case, way),
        case.options.lockfile_only,
    ensures
        !(way is Frozen),
{
}

/// An installation that is repeated has nothing to do: what the first one left
/// is taken up by the next one with the same lockfile and settings, as long as
/// what was put in place is still there. On Windows the place of the virtual store
/// that was found on disk is where it lies by the settings; elsewhere its path starts
/// at the root.
pub proof fn law_repeated_installation_has_nothing_to_do(
    lockfile: Lockfile,
    existing: Option<Lockfile>,
    existing_skipped: Vec<String>,
    config: Npmrc,
    importer_id: Seq<char>,
    groups: Vec<DependencyGroup>,
    left: ModulesManifest,
    place_on_windows: Option<Seq<char>>,
    now: u64,
    last: LastInstallation,
    present: Seq<Seq<char>>,
    expected: Lockfile,
)
    requires
        modules_manifest::tells_settings(
            left,
            config.modules_dir@,
            config,
            groups@,
            last.store_dir@,
            place_on_windows,
        ),
        last.modules_manifest is Some,
        modules_manifest::is_completed(
            last.modules_manifest->0,
            left,
            config.modules_dir@,
            now,
            last.on_windows,
        ),
        last.on_windows == (place_on_windows is Some),
        match place_on_windows {
            Some(_) => modules_manifest::place_leads_back(config, place_on_windows),
            None => paths::is_absolute(config.virtual_store_dir@, false),
        },
        last.current_lockfile is Some,
        last.current_lockfile->0.deep_view() == current_lockfile::preserving_lockfile(
            lockfile,
            existing,
            existing_skipped,
            seq![importer_id],
            groups,
            left.skipped,
        ),
        current_lockfile::spares(
            existing,
            existing_skipped,
            seq![importer_id],
            groups,
            importer_id,
        ),
        is_expected(expected, lockfile, importer_id, groups, last),
        recorded_by_id(expected.project_snapshot, importer_id) is Some,
        install_frozen_lockfile::is_ready(
            config,
            recorded_by_id(expected.project_snapshot, importer_id)->0,
            groups@,
            expected.packages,
            present,
            last.on_windows,
        ),
        roots_are_ready(
            config,
            recorded_by_id(expected.project_snapshot, importer_id)->0,
            groups@,
            expected.packages,
            present,
            last.on_windows,
        ),
    ensures
        is_reusable(config, importer_id, groups, last, present, expected),
{
    modules_manifest::law_manifest_read_again_is_compatible(
        left,
        last.modules_manifest->0,
        config,
        groups@,
        last.store_dir@,
        place_on_windows,
        now,
    );
    current_lockfile::law_kept_lockfile_is_expected(
        lockfile,
        existing,
        existing_skipped,
        seq![importer_id],
        groups,
        left.skipped,
        importer_id,
    );
}

/// What an installation writes down, the next one with the same manifest and
/// settings takes as it is, without resolving anything again: the lockfile says
/// what is to be installed, whether or not it may be changed.
pub proof fn law_written_lockfile_is_installed_as_it_is(
    lockfile: Lockfile,
    parts: LockfileParts,
    added: Map<PathId, PackageModel>,
    added_keys: Map<PathId, PathModel>,
    runtime: RuntimeLockfileConfig,
    patched: Option<Map<Seq<char>, JsonModel>>,
    project: ProjectSnapshot,
    root_config: Result<(), String>,
    manifest_path: Seq<char>,
    on_windows: bool,
)
    requires
        write_lockfile::is_assembled(
            lockfile.deep_view(),
            parts,
            added,
            added_keys,
            runtime,
            patched,
            on_windows,
        ),
        recorded(lockfile.project_snapshot, parts.lockfile_importer_id@) == Some(project),
        lockfile_check::catalogs_are_current(
            runtime.deep_view().catalogs,
            match parts.existing_lockfile {
                Some(existing) => existing.catalogs.deep_view(),
                None => None,
            },
        ),
        parts.dependency_groups@.contains(DependencyGroup::Prod),
        parts.dependency_groups@.contains(DependencyGroup::Optional),
        parts.dependency_groups@.contains(DependencyGroup::Dev),
        !parts.dependency_groups@.contains(DependencyGroup::Peer),
        install_with_lockfile::groups_are_apart(parts.manifest.deep_view()),
        install_with_lockfile::all_resolved(
            parts.manifest.deep_view(),
            parts.resolved_direct_dependencies.deep_view(),
            parts.config.exclude_links_from_lockfile,
        ),
        install_with_lockfile::versions_fit(project, parts.manifest.deep_view()),
        root_config is Ok,
    ensures
        says_what_to_install(
            lockfile,
            parts.lockfile_importer_id@,
            *parts.config,
            runtime,
            *parts.manifest,
            true,
            root_config,
        ),
        is_frozen_verdict(
            lockfile,
            project,
            *parts.config,
            runtime,
            *parts.manifest,
            manifest_path,
            root_config,
            None,
        ),
{
    lemma_recorded(lockfile.project_snapshot, parts.lockfile_importer_id@);
    write_lockfile::law_written_lockfile_is_current(
        lockfile.deep_view(),
        parts,
        added,
        added_keys,
        runtime,
        patched,
        on_windows,
    );
    write_lockfile::law_written_lockfile_fits_its_manifest(
        lockfile.deep_view(),
        parts,
        added,
        added_keys,
        runtime,
        patched,
        project,
        parts.config.auto_install_peers,
        on_windows,
    );
}

proof fn lemma_recorded(root: RootProjectSnapshot, importer_id: Seq<char>)
    requires
        recorded(root, importer_id) is Some,
    ensures
        recorded(root, importer_id)->0.deep_view() == write_lockfile::installed_importer(
            root.deep_view(),
            importer_id,
        ),
{
    if let RootProjectSnapshot::Multi(importers) = root {
        let i = table::keys(importers.pairs()).index_of(importer_id);
        assert(importers.pairs()[i].0 == importer_id);
        importers.lemma_entry(i);
    }
}

/// What a lockfile that is not to be changed is told to be outdated by comes before
/// anything that its importers say; and where it is current, an importer is installed
/// as it is only where it fits its manifest and the root does.
pub proof fn law_frozen_importer_is_refused_for_a_reason(
    result: Result<(), String>,
    lockfile: Lockfile,
    project: ProjectSnapshot,
    config: Npmrc,
    runtime: RuntimeLockfileConfig,
    manifest: Json,
    manifest_path: Seq<char>,
    root_config: Result<(), String>,
)
    requires
        is_frozen_verdict(
            lockfile,
            project,
            config,
            runtime,
            manifest,
            manifest_path,
            root_config,
            match result {
                Ok(_) => None,
                Err(message) => Some(message@),
            },
        ),
    ensures
        result is Ok ==> {
            &&& lockfile_check::outdated_setting(lockfile.deep_view(), runtime.deep_view()) is None
            &&& root_config is Ok
            &&& manifest_check::is_checked(
                Ok(()),
                project,
                manifest.deep_view(),
                config.auto_install_peers,
                config.exclude_links_from_lockfile,
                lockfile.lockfile_version.0 >= 9,
            )
        },
        lockfile_check::outdated_setting(lockfile.deep_view(), runtime.deep_view()) matches Some(
            setting,
        ) ==> result is Err && result->Err_0@
            == "Cannot proceed with the frozen installation. The current \""@ + setting
            + "\" configuration doesn't match the value found in the lockfile"@,
        result is Err && lockfile_check::outdated_setting(
            lockfile.deep_view(),
            runtime.deep_view(),
        ) is None ==> exists|reason: Seq<char>|
            result->Err_0@
                == "Cannot install with --frozen-lockfile because pnpm-lock.yaml is not up to date with "@
                + manifest_path + " ("@ + reason + ")"@,
{
    if result is Err && lockfile_check::outdated_setting(
        lockfile.deep_view(),
        runtime.deep_view(),
    ) is None {
        let message = Some(result->Err_0@);
        if exists|reason: Seq<char>| #[trigger]
            manifest_verdict(lockfile, project, config, manifest, Some(reason)) && message == Some(
                not_up_to_date(manifest_path, reason),
            ) {
            let reason = choose|reason: Seq<char>| #[trigger]
                manifest_verdict(lockfile, project, config, manifest, Some(reason)) && message
                    == Some(not_up_to_date(manifest_path, reason));
            assert(result->Err_0@ == not_up_to_date(manifest_path, reason));
        } else {
            assert(result->Err_0@ == not_up_to_date(manifest_path, root_config->Err_0@));
        }
    }
}

/// A lockfile is taken as it is only where it has the importer, is current, fits the
/// manifest and the root, and its links into the workspace are current; and it is
/// wherever all of that holds.
pub proof fn law_reusable_lockfile_says_what_to_install(
    yes: bool,
    lockfile: Lockfile,
    importer_id: Seq<char>,
    config: Npmrc,
    runtime: RuntimeLockfileConfig,
    manifest: Json,
    links_match: bool,
    root_config: Result<(), String>,
)
    requires
        yes == says_what_to_install(
            lockfile,
            importer_id,
            config,
            runtime,
            manifest,
            links_match,
            root_config,
        ),
    ensures
        yes <==> {
            &&& links_match
            &&& root_config is Ok
            &&& lockfile_check::outdated_setting(lockfile.deep_view(), runtime.deep_view()) is None
            &&& recorded(lockfile.project_snapshot, importer_id) matches Some(project)
                && manifest_check::is_checked(
                Ok(()),
                project,
                manifest.deep_view(),
                config.auto_install_peers,
                config.exclude_links_from_lockfile,
                lockfile.lockfile_version.0 >= 9,
            )
        },
{
}

/// What a lockfile keeps of an importer is found by its id; where it keeps only one
/// project, that is the one, whatever the id is, unless it is asked for by id, when it
/// goes by `.` alone.
pub proof fn law_importer_is_found_by_its_id(
    root: RootProjectSnapshot,
    id: Seq<char>,
    i: int,
)
    ensures
        root matches RootProjectSnapshot::Single(project) ==> recorded(root, id) == Some(project)
            && (id == "."@ ==> recorded_by_id(root, id) == Some(project)) && (id != "."@
            ==> recorded_by_id(root, id) is None),
        root matches RootProjectSnapshot::Multi(importers) ==> {
            &&& recorded(root, id) == recorded_by_id(root, id)
            &&& table::keys(importers.pairs()).no_duplicates() && 0 <= i < importers.pairs().len()
                && importers.pairs()[i].0 == id ==> recorded(root, id) == Some(importers.value(i))
            &&& (forall|k: int|
                0 <= k < importers.pairs().len() ==> (#[trigger] importers.pairs()[k]).0 != id)
                ==> recorded(root, id) is None
        },
{
    if let RootProjectSnapshot::Multi(importers) = root {
        let pairs = importers.pairs();
        if table::keys(pairs).no_duplicates() && 0 <= i < pairs.len() && pairs[i].0 == id {
            table::lemma_map_entry(pairs, i);
        }
        if table::keys(pairs).contains(id) {
            let k = table::keys(pairs).index_of(id);
            assert(table::keys(pairs)[k] == id);
            assert(pairs[k].0 == id);
        }
    }
}

/// The way that an installation takes, case by case: without lockfiles none is used; a
/// frozen installation is refused where there is no lockfile, where that lacks the
/// importer or where that is outdated, and else installs what it says; any other one
/// installs what a current lockfile says where that is preferred and no directory is
/// depended on, and else resolves everything anew.
pub proof fn law_way_of_an_installation(case: InstallCase, way: InstallWay)
    requires
        is_install_way(case, way),
    ensures
        way is WithoutLockfile <==> !case.config.lockfile,
        case.config.lockfile && case.options.frozen_lockfile && case.lockfile is None
            ==> way is Refused,
        case.config.lockfile && case.options.frozen_lockfile && case.lockfile is Some && recorded(
            case.lockfile->0.project_snapshot,
            case.importer_id@,
        ) is None ==> way is Refused,
        case.config.lockfile && case.options.frozen_lockfile && case.lockfile is Some
            && lockfile_check::outdated_setting(
            case.lockfile->0.deep_view(),
            case.runtime.deep_view(),
        ) is Some ==> way is Refused,
        way is Refused ==> case.options.frozen_lockfile,
        way is WithLockfile ==> !case.options.frozen_lockfile,
        case.config.lockfile && !case.options.frozen_lockfile && (case.lockfile is None
            || !case.links_match || *case.root_config is Err
            || !case.config.prefer_frozen_lockfile) ==> way is WithLockfile,
        case.config.lockfile && !case.options.frozen_lockfile && (exists|i: int|
            0 <= i < pnpmfile::wishes(case.manifest, case.dependency_groups@).len()
                && is_local_directory(
                (#[trigger] pnpmfile::wishes(case.manifest, case.dependency_groups@)[i]).2,
            )) ==> way is WithLockfile,
        way is Nothing ==> case.options.lockfile_only || case.state_is_reusable
            && !case.options.force,
        way is Frozen ==> !case.options.lockfile_only && (case.options.force
            || !case.state_is_reusable) && case.lockfile is Some && lockfile_check::outdated_setting(
            case.lockfile->0.deep_view(),
            case.runtime.deep_view(),
        ) is None,
        case.config.lockfile && !case.options.frozen_lockfile && case.config.prefer_frozen_lockfile
            && case.lockfile is Some && says_what_to_install(
            *case.lockfile->0,
            case.importer_id@,
            *case.config,
            *case.runtime,
            *case.manifest,
            case.links_match,
            *case.root_config,
        ) && !has_local_directory(pnpmfile::wishes(case.manifest, case.dependency_groups@))
            ==> way is Frozen || way is Nothing,
{
}

/// A dependency is on a local directory where it is written with `file:` and names no
/// archive.
pub proof fn law_local_directories(target: Seq<char>, specifier: Seq<char>)
    ensures
        is_local_directory("file:"@ + target) <==> !text::ends_with(target, ".tgz"@)
            && !text::ends_with(target, ".tar.gz"@),
        !text::starts_with(specifier, "file:"@) ==> !is_local_directory(specifier),
{
    reveal_strlit("file:");
    let whole = "file:"@ + target;
    assert(whole.subrange(0, 5) =~= "file:"@);
    assert(text::tail(whole, 5) =~= target);
}

/// What several importers need together is what each of them needs; what is skipped
/// for any of them is skipped.
pub proof fn law_targets_are_united(
    result: (Vec<TargetPackages>, Option<PackageMap>, Vec<String>),
    targets: Seq<TargetPackages>,
    t: int,
    id: PathId,
    path: Seq<char>,
)
    requires
        result.1.deep_view() == Some(united(targets)),
        result.2.deep_view() == sorted::in_order(all_skipped(targets).to_set()),
        0 <= t < targets.len(),
    ensures
        targets[t].packages is Some && targets[t].packages->0.deep_view().dom().contains(id)
            ==> result.1->0.deep_view().dom().contains(id),
        result.1->0.deep_view().dom().contains(id) ==> exists|k: int|
            0 <= k < targets.len() && (#[trigger] targets[k]).packages is Some
                && targets[k].packages->0.deep_view().dom().contains(id)
                && result.1->0.deep_view()[id] == targets[k].packages->0.deep_view()[id],
        targets[t].skipped.deep_view().contains(path) ==> result.2.deep_view().contains(path),
        result.2.deep_view().contains(path) ==> exists|k: int|
            0 <= k < targets.len() && (#[trigger] targets[k]).skipped.deep_view().contains(path),
{
    lemma_united(targets, id);
    lemma_all_skipped(targets, path);
    assert(targets[t] == targets[t]);
    let all = all_skipped(targets).to_set();
    vstd::seq_lib::seq_to_set_is_finite(all_skipped(targets));
    sorted::lemma_listed(all);
    let listed = sorted::in_order(all);
    assert(listed.contains(path) <==> listed.to_set().contains(path));
}

proof fn lemma_united(targets: Seq<TargetPackages>, id: PathId)
    ensures
        united(targets).dom().contains(id) <==> exists|k: int|
            0 <= k < targets.len() && (#[trigger] targets[k]).packages is Some
                && targets[k].packages->0.deep_view().dom().contains(id),
        united(targets).dom().contains(id) ==> exists|k: int|
            0 <= k < targets.len() && (#[trigger] targets[k]).packages is Some
                && targets[k].packages->0.deep_view().dom().contains(id) && united(targets)[id]
                == targets[k].packages->0.deep_view()[id],
    decreases targets.len(),
{
    if targets.len() > 0 {
        let rest = targets.drop_last();
        lemma_united(rest, id);
        let n = targets.len() - 1;
        assert(targets[n] == targets.last());
        assert forall|k: int| 0 <= k < n implies #[trigger] targets[k] == rest[k] by {}
        if united(rest).dom().contains(id) {
            let k = choose|k: int|
                0 <= k < rest.len() && (#[trigger] rest[k]).packages is Some
                    && rest[k].packages->0.deep_view().dom().contains(id) && united(rest)[id]
                    == rest[k].packages->0.deep_view()[id];
            assert(targets[k] == rest[k]);
        }
    }
}

proof fn lemma_all_skipped(targets: Seq<TargetPackages>, path: Seq<char>)
    ensures
        all_skipped(targets).contains(path) <==> exists|k: int|
            0 <= k < targets.len() && (#[trigger] targets[k]).skipped.deep_view().contains(path),
    decreases targets.len(),
{
    if targets.len() > 0 {
        let rest = targets.drop_last();
        lemma_all_skipped(rest, path);
        let n = targets.len() - 1;
        let own = targets.last().skipped.deep_view();
        let all = all_skipped(targets);
        assert(targets[n] == targets.last());
        assert forall|k: int| 0 <= k < n implies #[trigger] targets[k] == rest[k] by {}
        if all_skipped(rest).contains(path) || own.contains(path) {
            install_frozen_lockfile::lemma_in_either(all_skipped(rest), own, path);
        }
        if all.contains(path) {
            let i = all.index_of(path);
            if i < all_skipped(rest).len() {
                assert(all_skipped(rest)[i] == path);
            } else {
                assert(own[i - all_skipped(rest).len()] == path);
            }
        }
        if exists|k: int|
            0 <= k < targets.len() && (#[trigger] targets[k]).skipped.deep_view().contains(path) {
            let k = choose|k: int|
                0 <= k < targets.len() && (#[trigger] targets[k]).skipped.deep_view().contains(
                    path,
                );
            if k < n {
                assert(rest[k] == targets[k]);
            }
        }
        if exists|k: int|
            0 <= k < rest.len() && (#[trigger] rest[k]).skipped.deep_view().contains(path) {
            let k = choose|k: int|
                0 <= k < rest.len() && (#[trigger] rest[k]).skipped.deep_view().contains(path);
            assert(targets[k] == rest[k]);
        }
    }
}

/// Links into the workspace are current where every dependency that is on a package of
/// the workspace is recorded as a link that leads there.
pub proof fn law_current_links_lead_into_the_workspace(
    yes: bool,
    project: ProjectSnapshot,
    groups: Seq<DependencyGroup>,
    project_dir: Seq<char>,
    wanted: Seq<pnpmfile::Wish>,
    root_dirs: Seq<Option<Seq<char>>>,
    on_windows: bool,
    i: int,
)
    requires
        yes == links_are_current(project, groups, project_dir, wanted, root_dirs, on_windows),
        0 <= i < wanted.len(),
        root_dirs.len() == wanted.len(),
    ensures
        yes && root_dirs[i] is Some ==> {
            &&& first_resolved(project, groups, wanted[i].1, 0) matches Some(
                ResolvedDependencyVersion::Link(link),
            ) && link@ == workspace::workspace_link(project_dir, root_dirs[i]->0, on_windows)
        },
        (forall|k: int| 0 <= k < root_dirs.len() ==> (#[trigger] root_dirs[k]) is None) ==> yes,
        root_dirs[i] is Some && first_resolved(project, groups, wanted[i].1, 0) is None ==> !yes,
{
    assert(wanted[i] == wanted[i]);
    if yes {
        assert(link_is_current(
            project,
            groups,
            project_dir,
            wanted[i].1,
            root_dirs[i],
            on_windows,
        ));
    }
}

/// An installation is up to date at its start only where nothing was asked for that
/// writes or installs anew and what the last one left can be taken up.
pub proof fn law_start_of_an_installation(
    start: InstallStart,
    config: Npmrc,
    options: InstallOptions,
    lockfile_is_reusable: bool,
    has_local_directories: bool,
    state_is_reusable: bool,
)
    requires
        match start {
            InstallStart::Refused { message } => refusal(config, options) == Some(message@),
            InstallStart::UpToDate => config.lockfile && is_up_to_date(
                config,
                options,
                lockfile_is_reusable,
                has_local_directories,
                state_is_reusable,
            ),
            InstallStart::GoOn => refusal(config, options) is None && !is_up_to_date(
                config,
                options,
                lockfile_is_reusable,
                has_local_directories,
                state_is_reusable,
            ),
        },
    ensures
        start is Refused <==> options.lockfile_only && !config.lockfile,
        options.force || options.frozen_lockfile || options.lockfile_only || !config.lockfile
            || !config.prefer_frozen_lockfile || has_local_directories || !lockfile_is_reusable
            || !state_is_reusable ==> !(start is UpToDate),
        !options.force && !options.frozen_lockfile && !options.lockfile_only && config.lockfile
            && config.prefer_frozen_lockfile && !has_local_directories && lockfile_is_reusable
            && state_is_reusable ==> start is UpToDate,
{
}

/// After an installation packages are hoisted, commands are linked, and what was done is
/// written down, in this order; peers are looked at after hoisting where they have to
/// fit. Where only a lockfile is wanted nothing is done.
pub proof fn law_finishing_steps(
    steps: Seq<FinishingStep>,
    config: Npmrc,
    lockfile_only: bool,
)
    requires
        steps == finishing(lockfile_only, config.strict_peer_dependencies),
    ensures
        lockfile_only ==> steps.len() == 0,
        !lockfile_only ==> {
            &&& steps.len() >= 4
            &&& steps[0] == FinishingStep::Hoist
            &&& steps[steps.len() - 3] == FinishingStep::LinkBins
            &&& steps[steps.len() - 2] == FinishingStep::WriteModulesManifest
            &&& steps[steps.len() - 1] == FinishingStep::WritePnpManifest
            &&& steps.contains(FinishingStep::ValidatePeers) <==> config.strict_peer_dependencies
            &&& steps.no_duplicates()
        },
{
    if !lockfile_only && config.strict_peer_dependencies {
        assert(steps[1] == FinishingStep::ValidatePeers);
    }
}

/// What is recorded of the direct dependencies is in place where every one that has a
/// place in the virtual store is in `node_modules` by its name.
pub proof fn law_root_dependencies_are_in_place(
    ready: bool,
    config: Npmrc,
    project: ProjectSnapshot,
    groups: Seq<DependencyGroup>,
    packages: Option<PackageMap>,
    present: Seq<Seq<char>>,
    on_windows: bool,
    g: int,
    map: ResolvedDependencyMap,
    i: int,
)
    requires
        ready == roots_are_ready(config, project, groups, packages, present, on_windows),
        0 <= g < groups.len(),
        lockfile::group_table(project, groups[g]) == Some(map),
        0 <= i < map.pairs().len(),
        !(map.value(i).version is Link),
    ensures
        ready ==> present.contains(paths::joined(config.modules_dir@, map.key(i)@, on_windows)),
{
    assert(groups[g] == groups[g]);
    if ready {
        assert(root_group_is_ready(config, map, packages, present, on_windows));
        assert(root_is_ready(
            config,
            map.key(i)@,
            map.value(i).version,
            packages,
            present,
            on_windows,
        ));
    }
}

} // verus!
