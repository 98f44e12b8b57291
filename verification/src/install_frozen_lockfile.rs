//! Whether what a lockfile asks for is in place already.
use crate::config::{NodeLinker, Npmrc};
use crate::create_virtual_store;
use crate::lockfile;
use crate::lockfile::{
    DependencyGroup, DependencyPath, PackageMap, PackageModel, PackageSnapshotDependency, PathId,
    PathModel, ProjectSnapshot, ResolvedDependencyMap, ResolvedDependencyVersion, SnapshotDependencyModel,
};
use crate::package_import;
use crate::paths;
use crate::reach;
use crate::snapshots;
use crate::sorted;
use crate::table;
use crate::table::TextMap;
use crate::text;
use crate::value;
use vstd::prelude::*;
use vstd::string::*;

verus! {

/// A direct dependency that is a copy of a directory.
pub open spec fn is_copy(version: ResolvedDependencyVersion) -> bool {
    version matches ResolvedDependencyVersion::Link(link) && text::starts_with(link@, "file:"@)
}

/// The links to direct dependencies are to be there.
pub open spec fn expects_links(config: Npmrc) -> bool {
    config.symlink || config.node_linker is Hoisted
}

/// The directory of the package at `i` in the virtual store is in place under a
/// name, with the dependencies of the package beside it.
pub open spec fn dir_is_ready(
    config: Npmrc,
    packages: PackageMap,
    present: Seq<Seq<char>>,
    i: int,
    store_name: Seq<char>,
    on_windows: bool,
) -> bool {
    let (package, dir) = (
        packages.pairs()[i],
        create_virtual_store::modules_dir_of(config.virtual_store_dir@, store_name, on_windows),
    );
    &&& present.contains(
        paths::joined(dir, lockfile::specifier_name(package.0.specifier), on_windows),
    )
    &&& create_virtual_store::layout_is_present(
        snapshots::all_dependencies(package.1),
        dir,
        present,
        on_windows,
    )
}

/// What a key leads to, if anything, is in place where the key has it.
pub open spec fn reference_is_ready(
    config: Npmrc,
    packages: PackageMap,
    present: Seq<Seq<char>>,
    path: Option<PathModel>,
    on_windows: bool,
) -> bool {
    match path {
        Some(path) => match snapshots::resolved_index(packages.pairs(), lockfile::path_id(path)) {
            Some(i) => dir_is_ready(
                config,
                packages,
                present,
                i,
                lockfile::store_name_of(snapshots::resolved_as(packages, path).specifier),
                on_windows,
            ),
            None => true,
        },
        None => true,
    }
}

/// What a direct dependency leads to is in place.
pub open spec fn direct_reference_is_ready(
    config: Npmrc,
    alias: Seq<char>,
    version: ResolvedDependencyVersion,
    packages: Option<PackageMap>,
    present: Seq<Seq<char>>,
    on_windows: bool,
) -> bool {
    match packages {
        Some(packages) => reference_is_ready(
            config,
            packages,
            present,
            snapshots::resolved_key(alias, version.deep_view()),
            on_windows,
        ),
        None => true,
    }
}

/// A direct dependency is in place: it is no copy that has to be made anew, it
/// is linked to if it is to be, and the virtual store has it, with its dependencies
/// beside it where the packages are known.
pub open spec fn direct_is_ready(
    config: Npmrc,
    alias: Seq<char>,
    version: ResolvedDependencyVersion,
    packages: Option<PackageMap>,
    present: Seq<Seq<char>>,
    on_windows: bool,
) -> bool {
    &&& config.disable_relink_local_dir_deps || !is_copy(version)
    &&& expects_links(config) && !(version is Link) ==> present.contains(
        paths::joined(config.modules_dir@, alias, on_windows),
    )
    &&& match snapshots::store_location(alias, version, packages) {
        Some((_, store_name, name)) => present.contains(
            package_import::saved_at(config.virtual_store_dir@, store_name, name, on_windows),
        ),
        None => true,
    }
    &&& direct_reference_is_ready(config, alias, version, packages, present, on_windows)
}

/// The direct dependencies of a group are in place.
pub open spec fn group_is_ready(
    config: Npmrc,
    map: ResolvedDependencyMap,
    packages: Option<PackageMap>,
    present: Seq<Seq<char>>,
    on_windows: bool,
) -> bool {
    forall|i: int|
        0 <= i < map.pairs().len() ==> direct_is_ready(
            config,
            (#[trigger] map.key(i))@,
            map.value(i).version,
            packages,
            present,
            on_windows,
        )
}

/// The direct dependencies of some groups are in place.
pub open spec fn groups_are_ready(
    config: Npmrc,
    project: ProjectSnapshot,
    groups: Seq<DependencyGroup>,
    packages: Option<PackageMap>,
    present: Seq<Seq<char>>,
    on_windows: bool,
) -> bool {
    forall|g: int|
        0 <= g < groups.len() ==> match lockfile::group_table(project, #[trigger] groups[g]) {
            Some(map) => group_is_ready(config, map, packages, present, on_windows),
            None => true,
        }
}

/// A dependency of a package leads to a package that is not there.
pub open spec fn is_broken(
    pairs: Seq<(PathId, PackageModel)>,
    alias: Seq<char>,
    dependency: SnapshotDependencyModel,
) -> bool {
    snapshots::dependency_path_of(alias, dependency) matches Some(path)
        && snapshots::resolved_index(pairs, path) is None
}

/// No dependency of a package leads nowhere.
pub open spec fn is_unbroken(pairs: Seq<(PathId, PackageModel)>, i: int) -> bool {
    forall|alias: Seq<char>| #[trigger]
        snapshots::all_dependencies(pairs[i].1).dom().contains(alias) ==> !is_broken(
            pairs,
            alias,
            snapshots::all_dependencies(pairs[i].1)[alias],
        )
}

/// What the dependencies of the package at `i` lead to is in place.
pub open spec fn dependencies_are_ready(
    config: Npmrc,
    packages: PackageMap,
    present: Seq<Seq<char>>,
    i: int,
    on_windows: bool,
) -> bool {
    let all = snapshots::all_dependencies(packages.pairs()[i].1);
    forall|alias: Seq<char>| #[trigger]
        all.dom().contains(alias) ==> reference_is_ready(
            config,
            packages,
            present,
            snapshots::dependency_key(alias, all[alias]),
            on_windows,
        )
}

/// A package has what it needs: no dependency leads nowhere, and what they lead to
/// is in place.
pub open spec fn package_is_ready(
    config: Npmrc,
    packages: PackageMap,
    present: Seq<Seq<char>>,
    i: int,
    on_windows: bool,
) -> bool {
    &&& dependencies_are_ready(config, packages, present, i, on_windows)
    &&& is_unbroken(packages.pairs(), i)
}

/// A dependency of a package leads to another package.
pub open spec fn leads_on(pairs: Seq<(PathId, PackageModel)>, from: int, to: int) -> bool {
    let all = snapshots::all_dependencies(pairs[from].1);
    exists|alias: Seq<char>| #[trigger]
        all.dom().contains(alias) && (snapshots::dependency_path_of(alias, all[alias]) matches Some(
            path,
        ) && snapshots::resolved_index(pairs, path) == Some(to))
}

/// The steps from a package to the packages that it depends on.
pub open spec fn package_steps(pairs: Seq<(PathId, PackageModel)>) -> spec_fn(int, int) -> bool {
    |from: int, to: int| leads_on(pairs, from, to)
}

/// A package is a direct dependency out of a group.
pub open spec fn group_names(
    map: ResolvedDependencyMap,
    pairs: Seq<(PathId, PackageModel)>,
    i: int,
) -> bool {
    exists|k: int|
        0 <= k < map.pairs().len() && snapshots::direct_index(
            pairs,
            (#[trigger] map.pairs()[k]).0,
            map.pairs()[k].1.version,
        ) == Some(i)
}

/// A package is a direct dependency out of some groups.
pub open spec fn names_package(
    project: ProjectSnapshot,
    groups: Seq<DependencyGroup>,
    pairs: Seq<(PathId, PackageModel)>,
    i: int,
) -> bool {
    exists|g: int|
        0 <= g < groups.len() && match lockfile::group_table(project, #[trigger] groups[g]) {
            Some(map) => group_names(map, pairs, i),
            None => false,
        }
}

/// The direct dependencies of a project.
pub open spec fn direct_packages(
    project: ProjectSnapshot,
    groups: Seq<DependencyGroup>,
    pairs: Seq<(PathId, PackageModel)>,
) -> Set<int> {
    Set::new(|i: int| names_package(project, groups, pairs, i))
}

/// A package is needed by a project.
pub open spec fn is_needed(
    project: ProjectSnapshot,
    groups: Seq<DependencyGroup>,
    pairs: Seq<(PathId, PackageModel)>,
    i: int,
) -> bool {
    reach::is_reachable(direct_packages(project, groups, pairs), package_steps(pairs), i)
}

/// Every package that a project needs is in place.
pub open spec fn packages_are_ready(
    config: Npmrc,
    project: ProjectSnapshot,
    groups: Seq<DependencyGroup>,
    packages: PackageMap,
    present: Seq<Seq<char>>,
    on_windows: bool,
) -> bool {
    forall|i: int| #[trigger]
        is_needed(project, groups, packages.pairs(), i) ==> package_is_ready(
            config,
            packages,
            present,
            i,
            on_windows,
        )
}

/// Everything that a project needs is in place.
pub open spec fn is_ready(
    config: Npmrc,
    project: ProjectSnapshot,
    groups: Seq<DependencyGroup>,
    packages: Option<PackageMap>,
    present: Seq<Seq<char>>,
    on_windows: bool,
) -> bool {
    &&& present.contains(config.virtual_store_dir@)
    &&& groups_are_ready(config, project, groups, packages, present, on_windows)
    &&& match packages {
        Some(packages) => packages_are_ready(
            config,
            project,
            groups,
            packages,
            present,
            on_windows,
        ),
        None => true,
    }
}

fn check_direct(
    config: &Npmrc,
    alias: &str,
    version: &ResolvedDependencyVersion,
    packages: Option<&PackageMap>,
    present: &Vec<String>,
    on_windows: bool,
) -> (ready: bool)
    ensures
        ready == direct_is_ready(
            *config,
            alias@,
            *version,
            match packages {
                Some(packages) => Some(*packages),
                None => None,
            },
            present.deep_view(),
            on_windows,
        ),
{
    let (is_link, copied) = match version {
        ResolvedDependencyVersion::Link(link) => (true, text::has_prefix(link.as_str(), "file:")),
        _ => (false, false),
    };
    if !config.disable_relink_local_dir_deps && copied {
        return false;
    }
    let hoisted = matches!(config.node_linker, NodeLinker::Hoisted);
    if (config.symlink || hoisted) && !is_link {
        let link = paths::join_paths(config.modules_dir.as_str(), alias, on_windows);
        if !value::list_contains(present, link.as_str()) {
            return false;
        }
    }
    match snapshots::direct_dependency_virtual_store_location(alias, version, packages) {
        Some((_, store_name, name)) => {
            let dir = package_import::save_path(
                config.virtual_store_dir.as_str(),
                store_name.as_str(),
                name.as_str(),
                on_windows,
            );
            if !value::list_contains(present, dir.as_str()) {
                return false;
            }
        },
        None => {},
    }
    match packages {
        Some(packages) => check_reference(
            config,
            packages,
            present,
            snapshots::dependency_path_from_resolved_version(alias, version),
            on_windows,
        ),
        None => true,
    }
}

/// Whether what a key leads to, if anything, is in place.
fn check_reference(
    config: &Npmrc,
    packages: &PackageMap,
    present: &Vec<String>,
    path: Option<DependencyPath>,
    on_windows: bool,
) -> (ready: bool)
    ensures
        ready == reference_is_ready(
            *config,
            *packages,
            present.deep_view(),
            path.deep_view(),
            on_windows,
        ),
{
    let path = match path {
        Some(path) => path,
        None => {
            return true;
        },
    };
    match snapshots::resolved_store_name(packages, &path) {
        Some((i, store_name)) => {
            let dir = create_virtual_store::virtual_modules_dir(
                config.virtual_store_dir.as_str(),
                store_name,
                on_windows,
            );
            let package_dir = paths::join_paths(
                dir.as_str(),
                packages.key_at(i).package_specifier.name(),
                on_windows,
            );
            if !value::list_contains(present, package_dir.as_str()) {
                return false;
            }
            let dependencies = snapshots::package_dependency_map(packages.value_at(i));
            create_virtual_store::dependency_layout_is_present(
                &dependencies,
                dir.as_str(),
                present,
                on_windows,
            )
        },
        None => true,
    }
}

fn check_group(
    config: &Npmrc,
    map: &ResolvedDependencyMap,
    packages: Option<&PackageMap>,
    present: &Vec<String>,
    on_windows: bool,
) -> (ready: bool)
    ensures
        ready == group_is_ready(
            *config,
            *map,
            match packages {
                Some(packages) => Some(*packages),
                None => None,
            },
            present.deep_view(),
            on_windows,
        ),
{
    let n: usize = map.len();
    let ghost all = match packages {
        Some(packages) => Some(*packages),
        None => None,
    };
    let mut i: usize = 0;
    while i < n
        invariant
            n == map.pairs().len(),
            i <= n,
            all == (match packages {
                Some(packages) => Some(*packages),
                None => None,
            }),
            forall|j: int|
                0 <= j < i ==> direct_is_ready(
                    *config,
                    (#[trigger] map.key(j))@,
                    map.value(j).version,
                    all,
                    present.deep_view(),
                    on_windows,
                ),
        decreases n - i,
    {
        let alias = map.key_at(i);
        let spec_entry = map.value_at(i);
        if !check_direct(
            config,
            alias.as_str(),
            &spec_entry.version,
            packages,
            present,
            on_windows,
        ) {
            assert(!direct_is_ready(
                *config,
                map.key(i as int)@,
                map.value(i as int).version,
                all,
                present.deep_view(),
                on_windows,
            ));
            return false;
        }
        i = i + 1;
    }
    true
}

fn push_group(map: &ResolvedDependencyMap, packages: &PackageMap, queue: &mut Vec<usize>)
    requires
        forall|k: int| 0 <= k < old(queue)@.len() ==> old(queue)@[k] < packages.pairs().len(),
    ensures
        forall|k: int| 0 <= k < final(queue)@.len() ==> final(queue)@[k] < packages.pairs().len(),
        forall|i: usize| #[trigger]
            final(queue)@.contains(i) <==> old(queue)@.contains(i) || group_names(
                *map,
                packages.pairs(),
                i as int,
            ),
        forall|i: int| #[trigger]
            group_names(*map, packages.pairs(), i) ==> 0 <= i < packages.pairs().len(),
{
    let ghost first = queue@;
    let ghost pairs = packages.pairs();
    let ghost entries = map.pairs();
    let n: usize = map.len();
    let mut k: usize = 0;
    while k < n
        invariant
            n == entries.len(),
            entries == map.pairs(),
            pairs == packages.pairs(),
            k <= n,
            forall|j: int| 0 <= j < queue@.len() ==> queue@[j] < pairs.len(),
            forall|i: usize| #[trigger]
                queue@.contains(i) <==> first.contains(i) || exists|j: int|
                    0 <= j < k && snapshots::direct_index(
                        pairs,
                        (#[trigger] entries[j]).0,
                        entries[j].1.version,
                    ) == Some(i as int),
            forall|j: int|
                0 <= j < k ==> match snapshots::direct_index(
                    pairs,
                    (#[trigger] entries[j]).0,
                    entries[j].1.version,
                ) {
                    Some(i) => 0 <= i < pairs.len(),
                    None => true,
                },
        decreases n - k,
    {
        let found = snapshots::direct_dependency_path(
            map.key_at(k).as_str(),
            &map.value_at(k).version,
            packages,
        );
        let ghost before = queue@;
        assert(entries[k as int].0 == map.key(k as int)@);
        if let Some(i) = found {
            queue.push(i);
            proof {
                reach::lemma_push_contains(before, i);
            }
        }
        k = k + 1;
    }
    proof {
        assert forall|i: int| #[trigger] group_names(*map, pairs, i) implies 0 <= i < pairs.len() by {
            let j = choose|j: int|
                0 <= j < entries.len() && snapshots::direct_index(
                    pairs,
                    (#[trigger] entries[j]).0,
                    entries[j].1.version,
                ) == Some(i);
            assert(entries[j] == entries[j]);
        }
    }
}

/// The packages that the dependencies of a package lead to.
fn push_children(
    dependencies: &TextMap<PackageSnapshotDependency>,
    packages: &PackageMap,
    Ghost(from): Ghost<int>,
    queue: &mut Vec<usize>,
) -> (unbroken: bool)
    requires
        0 <= from < packages.pairs().len(),
        dependencies.deep_view() == snapshots::all_dependencies(packages.pairs()[from].1),
        forall|k: int| 0 <= k < old(queue)@.len() ==> old(queue)@[k] < packages.pairs().len(),
    ensures
        unbroken == is_unbroken(packages.pairs(), from),
        unbroken ==> forall|k: int|
            0 <= k < final(queue)@.len() ==> final(queue)@[k] < packages.pairs().len(),
        unbroken ==> forall|i: usize| #[trigger]
            final(queue)@.contains(i) <==> old(queue)@.contains(i) || leads_on(
                packages.pairs(),
                from,
                i as int,
            ),
        unbroken ==> forall|i: int| #[trigger]
            leads_on(packages.pairs(), from, i) ==> 0 <= i < packages.pairs().len(),
{
    let ghost first = queue@;
    let ghost pairs = packages.pairs();
    let ghost all = dependencies.deep_view();
    let ghost entries = dependencies.pairs();
    let n: usize = dependencies.len();
    let mut k: usize = 0;
    while k < n
        invariant
            n == entries.len(),
            entries == dependencies.pairs(),
            table::keys(entries).no_duplicates(),
            all == dependencies.deep_view(),
            all == table::map_of(entries),
            pairs == packages.pairs(),
            0 <= from < pairs.len(),
            all == snapshots::all_dependencies(pairs[from].1),
            k <= n,
            forall|j: int| 0 <= j < queue@.len() ==> queue@[j] < pairs.len(),
            forall|i: usize| #[trigger]
                queue@.contains(i) <==> first.contains(i) || exists|j: int|
                    0 <= j < k && target(pairs, #[trigger] entries[j]) == Some(i as int),
            forall|j: int|
                0 <= j < k ==> !is_broken(pairs, (#[trigger] entries[j]).0, entries[j].1),
            forall|j: int|
                0 <= j < k ==> match target(pairs, #[trigger] entries[j]) {
                    Some(i) => 0 <= i < pairs.len(),
                    None => true,
                },
        decreases n - k,
    {
        let ghost before = queue@;
        let alias = dependencies.key_at(k);
        proof {
            table::lemma_map_entry(entries, k as int);
        }
        let path = snapshots::dependency_path_from_snapshot_dependency(
            alias.as_str(),
            dependencies.value_at(k),
        );
        if let Some(path) = path {
            match snapshots::resolve_package_snapshot(packages, &path) {
                None => {
                    assert(all.dom().contains(alias@));
                    assert(is_broken(pairs, alias@, all[alias@]));
                    return false;
                },
                Some(i) => {
                    assert(target(pairs, entries[k as int]) == Some(i as int));
                    queue.push(i);
                    proof {
                        reach::lemma_push_contains(before, i);
                    }
                },
            }
        }
        k = k + 1;
    }
    proof {
        assert forall|alias: Seq<char>| #[trigger] all.dom().contains(alias) implies !is_broken(
            pairs,
            alias,
            all[alias],
        ) by {
            let j = table::lemma_map_index(entries, alias);
            table::lemma_map_entry(entries, j);
            assert(entries[j].0 == alias);
        }
        assert forall|i: int| #[trigger] leads_on(pairs, from, i) <==> exists|j: int|
            0 <= j < n && target(pairs, #[trigger] entries[j]) == Some(i) by {
            if leads_on(pairs, from, i) {
                let alias = choose|alias: Seq<char>| #[trigger]
                    all.dom().contains(alias) && (snapshots::dependency_path_of(
                        alias,
                        all[alias],
                    ) matches Some(path) && snapshots::resolved_index(pairs, path) == Some(i));
                let j = table::lemma_map_index(entries, alias);
                table::lemma_map_entry(entries, j);
                assert(target(pairs, entries[j]) == Some(i));
            }
            if exists|j: int| 0 <= j < n && target(pairs, #[trigger] entries[j]) == Some(i) {
                let j = choose|j: int|
                    0 <= j < n && target(pairs, #[trigger] entries[j]) == Some(i);
                table::lemma_map_entry(entries, j);
                assert(all.dom().contains(entries[j].0));
            }
        }
    }
    true
}

/// The package that a dependency leads to.
spec fn target(
    pairs: Seq<(PathId, PackageModel)>,
    entry: (Seq<char>, SnapshotDependencyModel),
) -> Option<int> {
    match snapshots::dependency_path_of(entry.0, entry.1) {
        Some(path) => snapshots::resolved_index(pairs, path),
        None => None,
    }
}

/// Whether what the dependencies of the package at `i` lead to is in place.
fn check_dependencies(
    config: &Npmrc,
    packages: &PackageMap,
    present: &Vec<String>,
    i: usize,
    on_windows: bool,
) -> (ready: bool)
    requires
        i < packages.pairs().len(),
    ensures
        ready == dependencies_are_ready(
            *config,
            *packages,
            present.deep_view(),
            i as int,
            on_windows,
        ),
{
    let dependencies = snapshots::package_dependency_map(packages.value_at(i));
    let ghost all = snapshots::all_dependencies(packages.pairs()[i as int].1);
    let ghost entries = dependencies.pairs();
    let n: usize = dependencies.len();
    let mut k: usize = 0;
    while k < n
        invariant
            n == entries.len(),
            entries == dependencies.pairs(),
            table::keys(entries).no_duplicates(),
            all == dependencies.deep_view(),
            all == table::map_of(entries),
            i < packages.pairs().len(),
            all == snapshots::all_dependencies(packages.pairs()[i as int].1),
            k <= n,
            forall|j: int|
                0 <= j < k ==> reference_is_ready(
                    *config,
                    *packages,
                    present.deep_view(),
                    snapshots::dependency_key((#[trigger] entries[j]).0, entries[j].1),
                    on_windows,
                ),
        decreases n - k,
    {
        let alias = dependencies.key_at(k);
        proof {
            table::lemma_map_entry(entries, k as int);
        }
        let path = snapshots::dependency_path_from_snapshot_dependency(
            alias.as_str(),
            dependencies.value_at(k),
        );
        if !check_reference(config, packages, present, path, on_windows) {
            assert(all.dom().contains(alias@));
            assert(!reference_is_ready(
                *config,
                *packages,
                present.deep_view(),
                snapshots::dependency_key(alias@, all[alias@]),
                on_windows,
            ));
            return false;
        }
        k = k + 1;
    }
    assert forall|alias: Seq<char>| #[trigger] all.dom().contains(alias) implies reference_is_ready(
        *config,
        *packages,
        present.deep_view(),
        snapshots::dependency_key(alias, all[alias]),
        on_windows,
    ) by {
        let j = table::lemma_map_index(entries, alias);
        table::lemma_map_entry(entries, j);
        assert(entries[j].0 == alias);
    }
    true
}

/// Whether everything that a project needs is in place, given the paths that
/// are there.
pub fn importer_dependencies_ready(
    config: &Npmrc,
    project_snapshot: &ProjectSnapshot,
    packages: Option<&PackageMap>,
    dependency_groups: &Vec<DependencyGroup>,
    present: &Vec<String>,
    on_windows: bool,
) -> (ready: bool)
    ensures
        ready == is_ready(
            *config,
            *project_snapshot,
            dependency_groups@,
            match packages {
                Some(packages) => Some(*packages),
                None => None,
            },
            present.deep_view(),
            on_windows,
        ),
{
    let ghost all = match packages {
        Some(packages) => Some(*packages),
        None => None,
    };
    let ghost groups = dependency_groups@;
    if !value::list_contains(present, config.virtual_store_dir.as_str()) {
        return false;
    }
    let mut g: usize = 0;
    while g < dependency_groups.len()
        invariant
            g <= dependency_groups@.len(),
            groups == dependency_groups@,
            all == (match packages {
                Some(packages) => Some(*packages),
                None => None,
            }),
            forall|j: int|
                0 <= j < g ==> match lockfile::group_table(
                    *project_snapshot,
                    #[trigger] groups[j],
                ) {
                    Some(map) => group_is_ready(*config, map, all, present.deep_view(), on_windows),
                    None => true,
                },
        decreases dependency_groups@.len() - g,
    {
        if let Some(map) = project_snapshot.get_map_by_group(dependency_groups[g]) {
            if !check_group(config, map, packages, present, on_windows) {
                assert(lockfile::group_table(*project_snapshot, groups[g as int]) == Some(*map));
                return false;
            }
        }
        g = g + 1;
    }
    match packages {
        None => true,
        Some(packages) => check_packages(
            config,
            project_snapshot,
            packages,
            dependency_groups,
            present,
            on_windows,
        ),
    }
}

fn collect_direct(
    project_snapshot: &ProjectSnapshot,
    packages: &PackageMap,
    dependency_groups: &Vec<DependencyGroup>,
) -> (queue: Vec<usize>)
    ensures
        forall|k: int| 0 <= k < queue@.len() ==> queue@[k] < packages.pairs().len(),
        forall|i: usize| #[trigger]
            queue@.contains(i) <==> names_package(
                *project_snapshot,
                dependency_groups@,
                packages.pairs(),
                i as int,
            ),
        forall|i: int| #[trigger]
            names_package(*project_snapshot, dependency_groups@, packages.pairs(), i) ==> 0 <= i
                < packages.pairs().len(),
{
    let ghost pairs = packages.pairs();
    let ghost groups = dependency_groups@;
    let mut queue: Vec<usize> = Vec::new();
    let mut g: usize = 0;
    while g < dependency_groups.len()
        invariant
            g <= dependency_groups@.len(),
            groups == dependency_groups@,
            pairs == packages.pairs(),
            forall|k: int| 0 <= k < queue@.len() ==> queue@[k] < pairs.len(),
            forall|i: usize| #[trigger]
                queue@.contains(i) <==> names_package(
                    *project_snapshot,
                    groups.take(g as int),
                    pairs,
                    i as int,
                ),
            forall|i: int| #[trigger]
                names_package(*project_snapshot, groups.take(g as int), pairs, i) ==> 0 <= i
                    < pairs.len(),
        decreases dependency_groups@.len() - g,
    {
        let ghost before = queue@;
        if let Some(map) = project_snapshot.get_map_by_group(dependency_groups[g]) {
            push_group(map, packages, &mut queue);
        }
        proof {
            let shorter = groups.take(g as int);
            let longer = groups.take(g + 1);
            assert(longer =~= shorter.push(groups[g as int]));
            assert forall|i: int| #[trigger] names_package(
                *project_snapshot,
                longer,
                pairs,
                i,
            ) <==> names_package(*project_snapshot, shorter, pairs, i) || (
            match lockfile::group_table(*project_snapshot, groups[g as int]) {
                Some(map) => group_names(map, pairs, i),
                None => false,
            }) by {
                lemma_names_next(*project_snapshot, groups, pairs, g as int, i);
            }
        }
        g = g + 1;
    }
    assert(groups.take(g as int) =~= groups);
    queue
}

proof fn lemma_names_next(
    project: ProjectSnapshot,
    groups: Seq<DependencyGroup>,
    pairs: Seq<(PathId, PackageModel)>,
    g: int,
    i: int,
)
    requires
        0 <= g < groups.len(),
    ensures
        names_package(project, groups.take(g + 1), pairs, i) <==> names_package(
            project,
            groups.take(g),
            pairs,
            i,
        ) || (match lockfile::group_table(project, groups[g]) {
            Some(map) => group_names(map, pairs, i),
            None => false,
        }),
{
    let shorter = groups.take(g);
    let longer = groups.take(g + 1);
    assert(longer[g] == groups[g]);
    if names_package(project, shorter, pairs, i) {
        let k = choose|k: int|
            0 <= k < shorter.len() && match lockfile::group_table(project, #[trigger] shorter[k]) {
                Some(map) => group_names(map, pairs, i),
                None => false,
            };
        assert(longer[k] == shorter[k]);
    }
    if names_package(project, longer, pairs, i) {
        let k = choose|k: int|
            0 <= k < longer.len() && match lockfile::group_table(project, #[trigger] longer[k]) {
                Some(map) => group_names(map, pairs, i),
                None => false,
            };
        if k < g {
            assert(shorter[k] == longer[k]);
        }
    }
}

fn check_packages(
    config: &Npmrc,
    project_snapshot: &ProjectSnapshot,
    packages: &PackageMap,
    dependency_groups: &Vec<DependencyGroup>,
    present: &Vec<String>,
    on_windows: bool,
) -> (ready: bool)
    ensures
        ready == packages_are_ready(
            *config,
            *project_snapshot,
            dependency_groups@,
            *packages,
            present.deep_view(),
            on_windows,
        ),
{
    let ghost pairs = packages.pairs();
    let ghost groups = dependency_groups@;
    let ghost start = direct_packages(*project_snapshot, groups, pairs);
    let ghost step = package_steps(pairs);
    let ghost there = present.deep_view();
    let mut queue = collect_direct(project_snapshot, packages, dependency_groups);
    let n: usize = packages.len();
    let mut marks: Vec<bool> = table::no_marks(n);
    let ghost mut done: Set<int> = Set::empty();
    proof {
        reach::lemma_positions_bound(done, n as int);
        assert forall|i: usize| #[trigger] queue@.contains(i) implies reach::is_reachable(
            start,
            step,
            i as int,
        ) by {
            assert(start.contains(i as int));
            reach::lemma_reachable_root(start, step, i as int);
        }
        assert forall|i: int| start.contains(i) implies 0 <= i < n && queue@.contains(i as usize) by {
            assert(names_package(*project_snapshot, groups, pairs, i));
            assert(queue@.contains(i as usize) <==> names_package(
                *project_snapshot,
                groups,
                pairs,
                (i as usize) as int,
            ));
        }
    }
    while queue.len() > 0
        invariant
            n == pairs.len(),
            n == marks@.len(),
            pairs == packages.pairs(),
            groups == dependency_groups@,
            there == present.deep_view(),
            start == direct_packages(*project_snapshot, groups, pairs),
            step == package_steps(pairs),
            forall|i: int| #[trigger] done.contains(i) <==> 0 <= i < n && marks@[i],
            done.finite(),
            done.len() <= n,
            forall|k: int| 0 <= k < queue@.len() ==> queue@[k] < n,
            forall|i: usize| #[trigger]
                queue@.contains(i) ==> reach::is_reachable(start, step, i as int),
            forall|i: int|
                0 <= i < n && #[trigger] marks@[i] ==> reach::is_reachable(start, step, i)
                    && package_is_ready(*config, *packages, there, i, on_windows),
            forall|i: int| #[trigger]
                start.contains(i) ==> 0 <= i < n && (marks@[i] || queue@.contains(i as usize)),
            forall|i: int, j: int|
                0 <= i < n && marks@[i] && #[trigger] leads_on(pairs, i, j) ==> 0 <= j < n && (
                marks@[j] || queue@.contains(j as usize)),
        decreases n - done.len(), queue@.len(),
    {
        let ghost before_queue = queue@;
        let ghost before_marks = marks@;
        let i = queue.pop().unwrap();
        proof {
            assert(before_queue =~= queue@.push(i));
            reach::lemma_push_contains(queue@, i);
            assert(before_queue[before_queue.len() - 1] == i);
            assert(before_queue.contains(i));
            assert forall|q: usize| #[trigger] queue@.contains(q) implies before_queue.contains(q) by {
                assert(queue@.push(i).contains(q));
            }
        }
        if !marks[i] {
            let ghost popped = queue@;
            assert(reach::is_reachable(start, step, i as int));
            assert(is_needed(*project_snapshot, groups, pairs, i as int));
            if !check_dependencies(config, packages, present, i, on_windows) {
                assert(!package_is_ready(*config, *packages, there, i as int, on_windows));
                return false;
            }
            let dependencies = snapshots::package_dependency_map(packages.value_at(i));
            if !push_children(&dependencies, packages, Ghost(i as int), &mut queue) {
                assert(!package_is_ready(*config, *packages, there, i as int, on_windows));
                return false;
            }
            marks.set(i, true);
            proof {
                let added = done.insert(i as int);
                reach::lemma_positions_bound(added, n as int);
                done = added;
                assert forall|q: usize| #[trigger] queue@.contains(q) implies reach::is_reachable(
                    start,
                    step,
                    q as int,
                ) by {
                    if !popped.contains(q) {
                        assert(step(i as int, q as int));
                        reach::lemma_reachable_step(start, step, i as int, q as int);
                    } else {
                        assert(before_queue.contains(q));
                    }
                }
                assert forall|a: int, j: int|
                    0 <= a < n && marks@[a] && #[trigger] leads_on(pairs, a, j) implies 0 <= j < n
                    && (marks@[j] || queue@.contains(j as usize)) by {
                    if a == i {
                        assert(leads_on(pairs, i as int, (j as usize) as int));
                    } else {
                        assert(before_marks[a]);
                        assert(before_marks[j] || before_queue.contains(j as usize));
                    }
                }
                assert forall|a: int| #[trigger] start.contains(a) implies 0 <= a < n && (marks@[a]
                    || queue@.contains(a as usize)) by {
                    assert(before_marks[a] || before_queue.contains(a as usize));
                }
            }
        } else {
            proof {
                assert forall|a: int, j: int|
                    0 <= a < n && marks@[a] && #[trigger] leads_on(pairs, a, j) implies 0 <= j < n
                    && (marks@[j] || queue@.contains(j as usize)) by {
                    assert(before_marks[j] || before_queue.contains(j as usize));
                }
            }
        }
    }
    proof {
        let closed = Set::new(|i: int| 0 <= i < n && marks@[i]);
        assert(reach::is_closed(closed, start, step)) by {
            assert forall|p: int, q: int| closed.contains(p) && #[trigger] step(p, q) implies closed.contains(
                q,
            ) by {
                assert(leads_on(pairs, p, q));
            }
        }
        assert forall|i: int| #[trigger] is_needed(
            *project_snapshot,
            groups,
            pairs,
            i,
        ) implies package_is_ready(*config, *packages, there, i, on_windows) by {
            assert(closed.contains(i));
            assert(marks@[i]);
        }
    }
    true
}

/// Whether packages are put into the virtual store: by force, or because
/// something is missing.
pub fn should_create_virtual_store(force: bool, ready: bool) -> (create: bool)
    ensures
        create == (force || !ready),
{
    force || !ready
}

/// Where everything is in place, every package that another one needs is in
/// place as well, where the other one has it, and has in turn what it needs.
pub proof fn law_readiness_spreads(
    config: Npmrc,
    project: ProjectSnapshot,
    groups: Seq<DependencyGroup>,
    packages: PackageMap,
    present: Seq<Seq<char>>,
    from: int,
    to: int,
    on_windows: bool,
)
    requires
        is_ready(config, project, groups, Some(packages), present, on_windows),
        is_needed(project, groups, packages.pairs(), from),
        leads_on(packages.pairs(), from, to),
    ensures
        is_needed(project, groups, packages.pairs(), to),
        dependencies_are_ready(config, packages, present, from, on_windows),
        package_is_ready(config, packages, present, to, on_windows),
{
    let start = direct_packages(project, groups, packages.pairs());
    let step = package_steps(packages.pairs());
    assert(step(from, to));
    reach::lemma_reachable_step(start, step, from, to);
    assert(packages_are_ready(config, project, groups, packages, present, on_windows));
    assert(is_needed(project, groups, packages.pairs(), to));
}

/// The paths that tell whether the directory of the package at `i` is in place under
/// a name.
pub open spec fn dir_probes(
    config: Npmrc,
    packages: PackageMap,
    i: int,
    store_name: Seq<char>,
    on_windows: bool,
) -> Seq<Seq<char>> {
    let (package, dir) = (
        packages.pairs()[i],
        create_virtual_store::modules_dir_of(config.virtual_store_dir@, store_name, on_windows),
    );
    seq![paths::joined(dir, lockfile::specifier_name(package.0.specifier), on_windows)]
        + sorted::in_order(snapshots::all_dependencies(package.1).dom()).map_values(
        |alias: Seq<char>| paths::joined(dir, alias, on_windows),
    )
}

/// The paths that tell whether what a key leads to is in place.
pub open spec fn reference_probes(
    config: Npmrc,
    packages: PackageMap,
    path: Option<PathModel>,
    on_windows: bool,
) -> Seq<Seq<char>> {
    match path {
        Some(path) => match snapshots::resolved_index(packages.pairs(), lockfile::path_id(path)) {
            Some(i) => dir_probes(
                config,
                packages,
                i,
                lockfile::store_name_of(snapshots::resolved_as(packages, path).specifier),
                on_windows,
            ),
            None => Seq::empty(),
        },
        None => Seq::empty(),
    }
}

/// The paths that tell whether what a direct dependency leads to is in place.
pub open spec fn direct_reference_probes(
    config: Npmrc,
    alias: Seq<char>,
    version: ResolvedDependencyVersion,
    packages: Option<PackageMap>,
    on_windows: bool,
) -> Seq<Seq<char>> {
    match packages {
        Some(packages) => reference_probes(
            config,
            packages,
            snapshots::resolved_key(alias, version.deep_view()),
            on_windows,
        ),
        None => Seq::empty(),
    }
}

/// The paths that tell whether a direct dependency is in place.
pub open spec fn direct_probes(
    config: Npmrc,
    map: ResolvedDependencyMap,
    packages: Option<PackageMap>,
    n: int,
    on_windows: bool,
) -> Seq<Seq<char>>
    decreases n,
{
    if n <= 0 {
        Seq::empty()
    } else {
        let alias = map.key(n - 1)@;
        direct_probes(config, map, packages, n - 1, on_windows).push(
            paths::joined(config.modules_dir@, alias, on_windows),
        ) + (match snapshots::store_location(alias, map.value(n - 1).version, packages) {
            Some((_, store_name, name)) => seq![
                package_import::saved_at(config.virtual_store_dir@, store_name, name, on_windows),
            ],
            None => Seq::empty(),
        }) + direct_reference_probes(
            config,
            alias,
            map.value(n - 1).version,
            packages,
            on_windows,
        )
    }
}

/// The paths that tell whether the direct dependencies of some groups are in
/// place.
pub open spec fn group_probes(
    config: Npmrc,
    project: ProjectSnapshot,
    groups: Seq<DependencyGroup>,
    packages: Option<PackageMap>,
    on_windows: bool,
) -> Seq<Seq<char>>
    decreases groups.len(),
{
    if groups.len() == 0 {
        Seq::empty()
    } else {
        group_probes(
            config,
            project,
            groups.drop_last(),
            packages,
            on_windows,
        ) + (match lockfile::group_table(
            project,
            groups.last(),
        ) {
            Some(map) => direct_probes(config, map, packages, map.pairs().len() as int, on_windows),
            None => Seq::empty(),
        })
    }
}

/// The paths that tell whether what the first `k` dependencies lead to is in place.
pub open spec fn dependency_probes(
    config: Npmrc,
    packages: PackageMap,
    all: Map<Seq<char>, SnapshotDependencyModel>,
    k: int,
    on_windows: bool,
) -> Seq<Seq<char>>
    decreases k,
{
    if k <= 0 {
        Seq::empty()
    } else {
        let alias = sorted::in_order(all.dom())[k - 1];
        dependency_probes(config, packages, all, k - 1, on_windows) + reference_probes(
            config,
            packages,
            snapshots::dependency_key(alias, all[alias]),
            on_windows,
        )
    }
}

/// The paths that tell whether the first `n` packages have what they need.
pub open spec fn package_probes(
    config: Npmrc,
    packages: PackageMap,
    n: int,
    on_windows: bool,
) -> Seq<Seq<char>>
    decreases n,
{
    if n <= 0 {
        Seq::empty()
    } else {
        let all = snapshots::all_dependencies(packages.pairs()[n - 1].1);
        package_probes(config, packages, n - 1, on_windows) + dependency_probes(
            config,
            packages,
            all,
            sorted::in_order(all.dom()).len() as int,
            on_windows,
        )
    }
}

fn push_reference_probes(
    config: &Npmrc,
    packages: &PackageMap,
    path: Option<DependencyPath>,
    probes: &mut Vec<String>,
    on_windows: bool,
)
    ensures
        final(probes).deep_view() == old(probes).deep_view() + reference_probes(
            *config,
            *packages,
            path.deep_view(),
            on_windows,
        ),
{
    let ghost before = probes.deep_view();
    assert(before + Seq::<Seq<char>>::empty() =~= before);
    let path = match path {
        Some(path) => path,
        None => {
            return;
        },
    };
    let (i, store_name) = match snapshots::resolved_store_name(packages, &path) {
        Some(found) => found,
        None => {
            return;
        },
    };
    let dir = create_virtual_store::virtual_modules_dir(
        config.virtual_store_dir.as_str(),
        store_name,
        on_windows,
    );
    let package_dir = paths::join_paths(
        dir.as_str(),
        packages.key_at(i).package_specifier.name(),
        on_windows,
    );
    let ghost own = package_dir@;
    probes.push(package_dir);
    let dependencies = snapshots::package_dependency_map(packages.value_at(i));
    let names = sorted::sorted_keys(&dependencies);
    let ghost aliases = names.deep_view();
    let ghost places = aliases.map_values(
        |alias: Seq<char>| paths::joined(dir@, alias, on_windows),
    );
    let mut k: usize = 0;
    assert(probes.deep_view() =~= before + (seq![own] + places.take(0)));
    while k < names.len()
        invariant
            k <= names@.len(),
            aliases == names.deep_view(),
            places == aliases.map_values(
                |alias: Seq<char>| paths::joined(dir@, alias, on_windows),
            ),
            probes.deep_view() == before + (seq![own] + places.take(k as int)),
        decreases names@.len() - k,
    {
        let ghost last = probes.deep_view();
        let place = paths::join_paths(dir.as_str(), names[k].as_str(), on_windows);
        proof {
            assert(aliases[k as int] == names@[k as int]@);
            assert(place@ == places[k as int]);
            assert(places.take(k + 1) =~= places.take(k as int).push(places[k as int]));
        }
        probes.push(place);
        assert(probes.deep_view() =~= last.push(places[k as int]));
        assert(probes.deep_view() =~= before + (seq![own] + places.take(k + 1)));
        k = k + 1;
    }
    proof {
        assert(places.take(k as int) =~= places);
        assert(seq![own] + places =~= dir_probes(
            *config,
            *packages,
            i as int,
            store_name@,
            on_windows,
        ));
    }
}

fn push_direct_probes(
    config: &Npmrc,
    map: &ResolvedDependencyMap,
    packages: Option<&PackageMap>,
    probes: &mut Vec<String>,
    on_windows: bool,
)
    ensures
        final(probes).deep_view() == old(probes).deep_view() + direct_probes(
            *config,
            *map,
            match packages {
                Some(packages) => Some(*packages),
                None => None,
            },
            map.pairs().len() as int,
            on_windows,
        ),
{
    let ghost first = probes.deep_view();
    let ghost all = match packages {
        Some(packages) => Some(*packages),
        None => None,
    };
    let n: usize = map.len();
    let mut i: usize = 0;
    assert(probes.deep_view() =~= first + direct_probes(*config, *map, all, 0, on_windows));
    while i < n
        invariant
            n == map.pairs().len(),
            i <= n,
            all == (match packages {
                Some(packages) => Some(*packages),
                None => None,
            }),
            probes.deep_view() == first + direct_probes(*config, *map, all, i as int, on_windows),
        decreases n - i,
    {
        let ghost before = probes.deep_view();
        let alias = map.key_at(i).as_str();
        let version = &map.value_at(i).version;
        let link = paths::join_paths(config.modules_dir.as_str(), alias, on_windows);
        let ghost linked = link@;
        probes.push(link);
        assert(probes.deep_view() =~= before.push(linked));
        if let Some((_, store_name, name)) = snapshots::direct_dependency_virtual_store_location(
            alias,
            version,
            packages,
        ) {
            let ghost held = probes.deep_view();
            let dir = package_import::save_path(
                config.virtual_store_dir.as_str(),
                store_name.as_str(),
                name.as_str(),
                on_windows,
            );
            let ghost saved = dir@;
            probes.push(dir);
            assert(probes.deep_view() =~= held + seq![saved]);
        }
        let ghost held = probes.deep_view();
        if let Some(packages) = packages {
            push_reference_probes(
                config,
                packages,
                snapshots::dependency_path_from_resolved_version(alias, version),
                probes,
                on_windows,
            );
        }
        assert(probes.deep_view() =~= held + direct_reference_probes(
            *config,
            map.key(i as int)@,
            map.value(i as int).version,
            all,
            on_windows,
        ));
        assert(probes.deep_view() =~= first + direct_probes(*config, *map, all, i + 1, on_windows));
        i = i + 1;
    }
}

fn push_package_probes(
    config: &Npmrc,
    packages: &PackageMap,
    probes: &mut Vec<String>,
    on_windows: bool,
)
    ensures
        final(probes).deep_view() == old(probes).deep_view() + package_probes(
            *config,
            *packages,
            packages.pairs().len() as int,
            on_windows,
        ),
{
    let ghost first = probes.deep_view();
    let n: usize = packages.len();
    let mut i: usize = 0;
    assert(probes.deep_view() =~= first + package_probes(*config, *packages, 0, on_windows));
    while i < n
        invariant
            n == packages.pairs().len(),
            i <= n,
            probes.deep_view() == first + package_probes(*config, *packages, i as int, on_windows),
        decreases n - i,
    {
        let ghost before = probes.deep_view();
        let dependencies = snapshots::package_dependency_map(packages.value_at(i));
        let names = sorted::sorted_keys(&dependencies);
        let ghost all = snapshots::all_dependencies(packages.pairs()[i as int].1);
        let ghost aliases = sorted::in_order(all.dom());
        let mut k: usize = 0;
        assert(probes.deep_view() =~= before + dependency_probes(
            *config,
            *packages,
            all,
            0,
            on_windows,
        ));
        while k < names.len()
            invariant
                k <= names@.len(),
                all == dependencies.deep_view(),
                aliases == sorted::in_order(all.dom()),
                aliases == names.deep_view(),
                aliases.to_set() == all.dom(),
                probes.deep_view() == before + dependency_probes(
                    *config,
                    *packages,
                    all,
                    k as int,
                    on_windows,
                ),
            decreases names@.len() - k,
        {
            let ghost last = probes.deep_view();
            let alias = &names[k];
            proof {
                assert(aliases[k as int] == alias@);
                assert(aliases.contains(alias@));
                assert(all.dom().contains(alias@));
            }
            if let Some(dependency) = dependencies.get(alias) {
                let path = snapshots::dependency_path_from_snapshot_dependency(
                    alias.as_str(),
                    dependency,
                );
                push_reference_probes(config, packages, path, probes, on_windows);
            }
            assert(probes.deep_view() =~= before + dependency_probes(
                *config,
                *packages,
                all,
                k + 1,
                on_windows,
            ));
            k = k + 1;
        }
        assert(probes.deep_view() =~= first + package_probes(
            *config,
            *packages,
            i + 1,
            on_windows,
        ));
        i = i + 1;
    }
}

/// The paths that tell whether everything that a project needs is in place.
pub open spec fn probes_of(
    config: Npmrc,
    project: ProjectSnapshot,
    groups: Seq<DependencyGroup>,
    packages: Option<PackageMap>,
    on_windows: bool,
) -> Seq<Seq<char>> {
    seq![config.virtual_store_dir@] + group_probes(
        config,
        project,
        groups,
        packages,
        on_windows,
    ) + (
    match packages {
        Some(packages) => package_probes(
            config,
            packages,
            packages.pairs().len() as int,
            on_windows,
        ),
        None => Seq::empty(),
    })
}

/// The paths that tell whether everything that a project needs is in place.
pub fn readiness_probes(
    config: &Npmrc,
    project_snapshot: &ProjectSnapshot,
    packages: Option<&PackageMap>,
    dependency_groups: &Vec<DependencyGroup>,
    on_windows: bool,
) -> (probes: Vec<String>)
    ensures
        probes.deep_view() == probes_of(
            *config,
            *project_snapshot,
            dependency_groups@,
            match packages {
                Some(packages) => Some(*packages),
                None => None,
            },
            on_windows,
        ),
{
    let ghost all = match packages {
        Some(packages) => Some(*packages),
        None => None,
    };
    let ghost groups = dependency_groups@;
    let ghost first = seq![config.virtual_store_dir@];
    let mut probes: Vec<String> = Vec::new();
    probes.push(config.virtual_store_dir.clone());
    assert(probes.deep_view() =~= first + group_probes(
        *config,
        *project_snapshot,
        groups.take(0),
        all,
        on_windows,
    ));
    let mut g: usize = 0;
    while g < dependency_groups.len()
        invariant
            g <= dependency_groups@.len(),
            groups == dependency_groups@,
            all == (match packages {
                Some(packages) => Some(*packages),
                None => None,
            }),
            probes.deep_view() == first + group_probes(
                *config,
                *project_snapshot,
                groups.take(g as int),
                all,
                on_windows,
            ),
        decreases dependency_groups@.len() - g,
    {
        assert(groups.take(g + 1).drop_last() =~= groups.take(g as int));
        if let Some(map) = project_snapshot.get_map_by_group(dependency_groups[g]) {
            push_direct_probes(config, map, packages, &mut probes, on_windows);
        }
        assert(probes.deep_view() =~= first + group_probes(
            *config,
            *project_snapshot,
            groups.take(g + 1),
            all,
            on_windows,
        ));
        g = g + 1;
    }
    assert(groups.take(g as int) =~= groups);
    if let Some(packages) = packages {
        push_package_probes(config, packages, &mut probes, on_windows);
    }
    assert(probes.deep_view() =~= probes_of(*config, *project_snapshot, groups, all, on_windows));
    probes
}

/// What one of two lists holds, both together hold.
pub proof fn lemma_in_either(a: Seq<Seq<char>>, b: Seq<Seq<char>>, p: Seq<char>)
    requires
        a.contains(p) || b.contains(p),
    ensures
        (a + b).contains(p),
{
    if a.contains(p) {
        assert((a + b)[a.index_of(p)] == p);
    } else {
        assert((a + b)[a.len() + b.index_of(p)] == p);
    }
}

/// The paths for the direct dependencies of a group hold those for each.
pub proof fn lemma_direct_probe(
    config: Npmrc,
    map: ResolvedDependencyMap,
    packages: Option<PackageMap>,
    n: int,
    i: int,
    on_windows: bool,
)
    requires
        0 <= i < n,
    ensures
        direct_probes(config, map, packages, n, on_windows).contains(
            paths::joined(config.modules_dir@, map.key(i)@, on_windows),
        ),
        snapshots::store_location(map.key(i)@, map.value(i).version, packages) matches Some((
            _,
            store_name,
            name,
        )) ==> direct_probes(config, map, packages, n, on_windows).contains(
            package_import::saved_at(config.virtual_store_dir@, store_name, name, on_windows),
        ),
        forall|p: Seq<char>| #[trigger]
            direct_reference_probes(
                config,
                map.key(i)@,
                map.value(i).version,
                packages,
                on_windows,
            ).contains(p) ==> direct_probes(config, map, packages, n, on_windows).contains(p),
    decreases n,
{
    let alias = map.key(n - 1)@;
    let location = snapshots::store_location(alias, map.value(n - 1).version, packages);
    let before = direct_probes(config, map, packages, n - 1, on_windows);
    let link = paths::joined(config.modules_dir@, alias, on_windows);
    let stored = match location {
        Some((_, store_name, name)) => seq![
            package_import::saved_at(config.virtual_store_dir@, store_name, name, on_windows),
        ],
        None => Seq::empty(),
    };
    let behind = direct_reference_probes(
        config,
        alias,
        map.value(n - 1).version,
        packages,
        on_windows,
    );
    let whole = before.push(link) + stored + behind;
    assert(direct_probes(config, map, packages, n, on_windows) == whole);
    assert forall|p: Seq<char>|
        before.contains(p) || p == link || stored.contains(p) || behind.contains(
            p,
        ) implies #[trigger] whole.contains(p) by {
        if before.contains(p) {
            assert(before.push(link)[before.index_of(p)] == p);
        }
        if p == link {
            assert(before.push(link)[before.len() as int] == p);
        }
        if !behind.contains(p) {
            lemma_in_either(before.push(link), stored, p);
        }
        lemma_in_either(before.push(link) + stored, behind, p);
    }
    if i < n - 1 {
        lemma_direct_probe(config, map, packages, n - 1, i, on_windows);
    } else if let Some((_, store_name, name)) = location {
        assert(stored[0] == package_import::saved_at(
            config.virtual_store_dir@,
            store_name,
            name,
            on_windows,
        ));
    }
}

/// The paths for some groups hold those for each.
pub proof fn lemma_group_probe(
    config: Npmrc,
    project: ProjectSnapshot,
    groups: Seq<DependencyGroup>,
    packages: Option<PackageMap>,
    g: int,
    map: ResolvedDependencyMap,
    p: Seq<char>,
    on_windows: bool,
)
    requires
        0 <= g < groups.len(),
        lockfile::group_table(project, groups[g]) == Some(map),
        direct_probes(config, map, packages, map.pairs().len() as int, on_windows).contains(p),
    ensures
        group_probes(config, project, groups, packages, on_windows).contains(p),
    decreases groups.len(),
{
    let before = group_probes(config, project, groups.drop_last(), packages, on_windows);
    let own = match lockfile::group_table(project, groups.last()) {
        Some(map) => direct_probes(config, map, packages, map.pairs().len() as int, on_windows),
        None => Seq::empty(),
    };
    if g < groups.len() - 1 {
        assert(groups.drop_last()[g] == groups[g]);
        lemma_group_probe(config, project, groups.drop_last(), packages, g, map, p, on_windows);
    }
    lemma_in_either(before, own, p);
}

/// The paths for some dependencies hold those for each.
proof fn lemma_dependency_probe(
    config: Npmrc,
    packages: PackageMap,
    all: Map<Seq<char>, SnapshotDependencyModel>,
    n: int,
    k: int,
    p: Seq<char>,
    on_windows: bool,
)
    requires
        0 <= k < n,
        ({
            let alias = sorted::in_order(all.dom())[k];
            reference_probes(
                config,
                packages,
                snapshots::dependency_key(alias, all[alias]),
                on_windows,
            ).contains(p)
        }),
    ensures
        dependency_probes(config, packages, all, n, on_windows).contains(p),
    decreases n,
{
    let alias = sorted::in_order(all.dom())[n - 1];
    let before = dependency_probes(config, packages, all, n - 1, on_windows);
    let own = reference_probes(
        config,
        packages,
        snapshots::dependency_key(alias, all[alias]),
        on_windows,
    );
    if k < n - 1 {
        lemma_dependency_probe(config, packages, all, n - 1, k, p, on_windows);
    }
    lemma_in_either(before, own, p);
}

/// The paths for the packages hold those for each.
proof fn lemma_package_probe(
    config: Npmrc,
    packages: PackageMap,
    n: int,
    i: int,
    alias: Seq<char>,
    p: Seq<char>,
    on_windows: bool,
)
    requires
        0 <= i < n <= packages.pairs().len(),
        snapshots::all_dependencies(packages.pairs()[i].1).dom().contains(alias),
        reference_probes(
            config,
            packages,
            snapshots::dependency_key(
                alias,
                snapshots::all_dependencies(packages.pairs()[i].1)[alias],
            ),
            on_windows,
        ).contains(p),
    ensures
        package_probes(config, packages, n, on_windows).contains(p),
    decreases n,
{
    let before = package_probes(config, packages, n - 1, on_windows);
    let all = snapshots::all_dependencies(packages.pairs()[n - 1].1);
    let aliases = sorted::in_order(all.dom());
    let own = dependency_probes(config, packages, all, aliases.len() as int, on_windows);
    if i < n - 1 {
        lemma_package_probe(config, packages, n - 1, i, alias, p, on_windows);
    } else {
        packages.lemma_entry(i);
        snapshots::lemma_dependencies_finite(packages.value(i));
        sorted::lemma_listed(all.dom());
        assert(aliases.to_set().contains(alias));
        let k = aliases.index_of(alias);
        lemma_dependency_probe(
            config,
            packages,
            all,
            aliases.len() as int,
            k,
            p,
            on_windows,
        );
    }
    lemma_in_either(before, own, p);
}

/// Whether what a key leads to is in place is decided by the paths for it.
proof fn lemma_reference_stays_ready(
    config: Npmrc,
    packages: PackageMap,
    path: Option<PathModel>,
    present: Seq<Seq<char>>,
    other: Seq<Seq<char>>,
    on_windows: bool,
)
    requires
        reference_is_ready(config, packages, present, path, on_windows),
        forall|p: Seq<char>| #[trigger]
            reference_probes(config, packages, path, on_windows).contains(p) && present.contains(p)
                ==> other.contains(p),
    ensures
        reference_is_ready(config, packages, other, path, on_windows),
{
    if let Some(path) = path {
        let id = lockfile::path_id(path);
        if let Some(i) = snapshots::resolved_index(packages.pairs(), id) {
            snapshots::lemma_resolved_index(packages.pairs(), id);
            let store_name = lockfile::store_name_of(
                snapshots::resolved_as(packages, path).specifier,
            );
            let dir = create_virtual_store::modules_dir_of(
                config.virtual_store_dir@,
                store_name,
                on_windows,
            );
            let own = paths::joined(
                dir,
                lockfile::specifier_name(packages.pairs()[i].0.specifier),
                on_windows,
            );
            let all = snapshots::all_dependencies(packages.pairs()[i].1);
            let aliases = sorted::in_order(all.dom());
            let places = aliases.map_values(
                |alias: Seq<char>| paths::joined(dir, alias, on_windows),
            );
            let probes = reference_probes(config, packages, Some(path), on_windows);
            assert(probes == seq![own] + places);
            assert(seq![own][0] == own);
            lemma_in_either(seq![own], places, own);
            packages.lemma_entry(i);
            snapshots::lemma_dependencies_finite(packages.value(i));
            sorted::lemma_listed(all.dom());
            assert forall|alias: Seq<char>| #[trigger]
                all.dom().contains(alias) implies create_virtual_store::is_laid_out(
                other,
                dir,
                alias,
                on_windows,
            ) by {
                assert(create_virtual_store::is_laid_out(present, dir, alias, on_windows));
                assert(aliases.to_set().contains(alias));
                let k = aliases.index_of(alias);
                let place = paths::joined(dir, alias, on_windows);
                assert(places[k] == place);
                lemma_in_either(seq![own], places, place);
                assert(probes.contains(place));
            }
        }
    }
}

/// A package that is needed is one of the packages.
proof fn lemma_needed_is_there(
    project: ProjectSnapshot,
    groups: Seq<DependencyGroup>,
    pairs: Seq<(PathId, PackageModel)>,
    i: int,
)
    requires
        is_needed(project, groups, pairs, i),
    ensures
        0 <= i < pairs.len(),
{
    let start = direct_packages(project, groups, pairs);
    let step = package_steps(pairs);
    let all = Set::new(|k: int| 0 <= k < pairs.len());
    assert(reach::is_closed(all, start, step)) by {
        assert forall|k: int| start.contains(k) implies all.contains(k) by {
            let g = choose|g: int|
                0 <= g < groups.len() && match lockfile::group_table(project, #[trigger] groups[g]) {
                    Some(map) => group_names(map, pairs, k),
                    None => false,
                };
            let map = lockfile::group_table(project, groups[g])->0;
            let j = choose|j: int|
                0 <= j < map.pairs().len() && snapshots::direct_index(
                    pairs,
                    (#[trigger] map.pairs()[j]).0,
                    map.pairs()[j].1.version,
                ) == Some(k);
            let alias = map.pairs()[j].0;
            let version = map.pairs()[j].1.version;
            assert(snapshots::direct_index(pairs, alias, version) == Some(k));
            snapshots::lemma_resolved_index(pairs, snapshots::resolved_path_of(alias, version)->0);
        }
        assert forall|p: int, q: int| all.contains(p) && #[trigger] step(p, q) implies all.contains(
            q,
        ) by {
            assert(leads_on(pairs, p, q));
            let all = snapshots::all_dependencies(pairs[p].1);
            let alias = choose|alias: Seq<char>| #[trigger]
                all.dom().contains(alias) && (snapshots::dependency_path_of(
                    alias,
                    all[alias],
                ) matches Some(path) && snapshots::resolved_index(pairs, path) == Some(q));
            snapshots::lemma_resolved_index(
                pairs,
                snapshots::dependency_path_of(alias, all[alias])->0,
            );
        }
    }
}

proof fn lemma_more_is_ready(
    config: Npmrc,
    project: ProjectSnapshot,
    groups: Seq<DependencyGroup>,
    packages: Option<PackageMap>,
    present: Seq<Seq<char>>,
    other: Seq<Seq<char>>,
    on_windows: bool,
)
    requires
        is_ready(config, project, groups, packages, present, on_windows),
        forall|p: Seq<char>| #[trigger]
            probes_of(
                config,
                project,
                groups,
                packages,
                on_windows,
            ).contains(p) && present.contains(p)
                ==> other.contains(p),
    ensures
        is_ready(config, project, groups, packages, other, on_windows),
{
    let all = probes_of(config, project, groups, packages, on_windows);
    let first = seq![config.virtual_store_dir@];
    let direct = group_probes(config, project, groups, packages, on_windows);
    let stored = match packages {
        Some(packages) => package_probes(
            config,
            packages,
            packages.pairs().len() as int,
            on_windows,
        ),
        None => Seq::empty(),
    };
    assert(all == first + direct + stored);
    assert(first[0] == config.virtual_store_dir@);
    lemma_in_either(first, direct, config.virtual_store_dir@);
    lemma_in_either(first + direct, stored, config.virtual_store_dir@);
    assert forall|p: Seq<char>| direct.contains(p) && #[trigger] present.contains(p) implies other.contains(
        p,
    ) by {
        lemma_in_either(first, direct, p);
        lemma_in_either(first + direct, stored, p);
        assert(all.contains(p));
    }
    assert forall|p: Seq<char>| stored.contains(p) && #[trigger] present.contains(p) implies other.contains(
        p,
    ) by {
        lemma_in_either(first + direct, stored, p);
        assert(all.contains(p));
    }
    assert forall|g: int| 0 <= g < groups.len() implies match lockfile::group_table(
        project,
        #[trigger] groups[g],
    ) {
        Some(map) => group_is_ready(config, map, packages, other, on_windows),
        None => true,
    } by {
        if let Some(map) = lockfile::group_table(project, groups[g]) {
            let n = map.pairs().len() as int;
            assert(group_is_ready(config, map, packages, present, on_windows));
            assert forall|i: int| 0 <= i < n implies direct_is_ready(
                config,
                (#[trigger] map.key(i))@,
                map.value(i).version,
                packages,
                other,
                on_windows,
            ) by {
                lemma_direct_probe(config, map, packages, n, i, on_windows);
                assert forall|p: Seq<char>|
                    direct_probes(config, map, packages, n, on_windows).contains(p) && #[trigger]
                    present.contains(p) implies other.contains(p) by {
                    lemma_group_probe(config, project, groups, packages, g, map, p, on_windows);
                }
                let alias = map.key(i)@;
                let version = map.value(i).version;
                assert(direct_is_ready(config, alias, version, packages, present, on_windows));
                if let Some(known) = packages {
                    let path = snapshots::resolved_key(alias, version.deep_view());
                    assert forall|p: Seq<char>| #[trigger]
                        reference_probes(config, known, path, on_windows).contains(p)
                        && present.contains(p) implies other.contains(p) by {
                        assert(direct_reference_probes(
                            config,
                            alias,
                            version,
                            packages,
                            on_windows,
                        ).contains(p));
                    }
                    lemma_reference_stays_ready(config, known, path, present, other, on_windows);
                }
            }
        }
    }
    if let Some(packages) = packages {
        let pairs = packages.pairs();
        assert forall|i: int| #[trigger] is_needed(project, groups, pairs, i) implies package_is_ready(
            config,
            packages,
            other,
            i,
            on_windows,
        ) by {
            assert(package_is_ready(config, packages, present, i, on_windows));
            lemma_needed_is_there(project, groups, pairs, i);
            let dependencies = snapshots::all_dependencies(pairs[i].1);
            assert forall|alias: Seq<char>| #[trigger]
                dependencies.dom().contains(alias) implies reference_is_ready(
                config,
                packages,
                other,
                snapshots::dependency_key(alias, dependencies[alias]),
                on_windows,
            ) by {
                let path = snapshots::dependency_key(alias, dependencies[alias]);
                assert forall|p: Seq<char>| #[trigger]
                    reference_probes(config, packages, path, on_windows).contains(p)
                    && present.contains(p) implies other.contains(p) by {
                    lemma_package_probe(
                        config,
                        packages,
                        pairs.len() as int,
                        i,
                        alias,
                        p,
                        on_windows,
                    );
                }
                lemma_reference_stays_ready(config, packages, path, present, other, on_windows);
            }
        }
    }
}

/// Whether everything that a project needs is in place is decided by the probes
/// alone: two lists of paths that agree on those lead to one answer.
pub proof fn law_probes_decide_readiness(
    config: Npmrc,
    project: ProjectSnapshot,
    groups: Seq<DependencyGroup>,
    packages: Option<PackageMap>,
    present: Seq<Seq<char>>,
    other: Seq<Seq<char>>,
    on_windows: bool,
)
    requires
        forall|p: Seq<char>| #[trigger]
            probes_of(
                config,
                project,
                groups,
                packages,
                on_windows,
            ).contains(p) ==> (present.contains(p)
                <==> other.contains(p)),
    ensures
        is_ready(config, project, groups, packages, present, on_windows) == is_ready(
            config,
            project,
            groups,
            packages,
            other,
            on_windows,
        ),
{
    if is_ready(config, project, groups, packages, present, on_windows) {
        lemma_more_is_ready(config, project, groups, packages, present, other, on_windows);
    }
    if is_ready(config, project, groups, packages, other, on_windows) {
        lemma_more_is_ready(config, project, groups, packages, other, present, on_windows);
    }
}

/// Where everything that a project needs is in place, so is every direct dependency from a
/// registry: in the virtual store under the directory of its version, and in `node_modules`
/// by its name where links are to be there. A copy of a directory that is made anew each
/// time is never in place.
pub proof fn law_direct_dependencies_are_in_place(
    ready: bool,
    config: Npmrc,
    project: ProjectSnapshot,
    groups: Seq<DependencyGroup>,
    packages: Option<PackageMap>,
    present: Seq<Seq<char>>,
    on_windows: bool,
    g: int,
    map: ResolvedDependencyMap,
    i: int,
)
    requires
        ready == is_ready(config, project, groups, packages, present, on_windows),
        0 <= g < groups.len(),
        match groups[g] {
            DependencyGroup::Prod => project.dependencies == Some(map),
            DependencyGroup::Optional => project.optional_dependencies == Some(map),
            DependencyGroup::Dev => project.dev_dependencies == Some(map),
            DependencyGroup::Peer => false,
        },
        0 <= i < map.pairs().len(),
    ensures
        ready ==> present.contains(config.virtual_store_dir@),
        map.value(i).version matches ResolvedDependencyVersion::PkgVerPeer(suffix) ==> (ready ==> {
            &&& present.contains(
                package_import::saved_at(
                    config.virtual_store_dir@,
                    suffix.store_name@,
                    map.key(i)@,
                    on_windows,
                ),
            )
            &&& config.symlink || config.node_linker is Hoisted ==> present.contains(
                paths::joined(config.modules_dir@, map.key(i)@, on_windows),
            )
        }),
        map.value(i).version matches ResolvedDependencyVersion::PkgNameVerPeer(specifier) ==> (
        ready ==> present.contains(
            package_import::saved_at(
                config.virtual_store_dir@,
                specifier.suffix.store_name@,
                specifier.name@,
                on_windows,
            ),
        )),
        map.value(i).version matches ResolvedDependencyVersion::Link(link) && text::starts_with(
            link@,
            "file:"@,
        ) && !config.disable_relink_local_dir_deps ==> !ready,
{
    assert(lockfile::group_table(project, groups[g]) == Some(map));
    if ready {
        assert(group_is_ready(config, map, packages, present, on_windows));
        assert(direct_is_ready(
            config,
            map.key(i)@,
            map.value(i).version,
            packages,
            present,
            on_windows,
        ));
    }
}

/// Where everything that a project needs is in place and a package that it needs depends on
/// another one from a registry, that one is in the lockfile, in the virtual store, and has
/// its own dependencies beside it.
pub proof fn law_further_dependencies_are_in_place(
    ready: bool,
    config: Npmrc,
    project: ProjectSnapshot,
    groups: Seq<DependencyGroup>,
    packages: PackageMap,
    present: Seq<Seq<char>>,
    on_windows: bool,
    i: int,
    alias: Seq<char>,
    suffix: lockfile::VerPeerModel,
)
    requires
        ready == is_ready(config, project, groups, Some(packages), present, on_windows),
        is_needed(project, groups, packages.pairs(), i),
        snapshots::all_dependencies(packages.pairs()[i].1).dom().contains(alias),
        snapshots::all_dependencies(packages.pairs()[i].1)[alias]
            == SnapshotDependencyModel::PkgVerPeer(suffix),
        table::keys(packages.pairs()).contains(
            lockfile::registry_path(
                lockfile::NameVerPeerId { name: alias, suffix: lockfile::ver_peer_id(suffix) },
            ),
        ),
    ensures
        ready ==> present.contains(
            package_import::saved_at(
                config.virtual_store_dir@,
                suffix.store_name,
                alias,
                on_windows,
            ),
        ),
{
    if ready {
        let pairs = packages.pairs();
        assert(package_is_ready(config, packages, present, i, on_windows));
        let key = snapshots::dependency_key(alias, SnapshotDependencyModel::PkgVerPeer(suffix));
        assert(reference_is_ready(config, packages, present, key, on_windows));
        snapshots::lemma_resolved_index(pairs, lockfile::path_id(key->0));
    }
}

} // verus!
