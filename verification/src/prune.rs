//! Dropping packages that no importer needs any more.
use crate::lockfile;
use crate::lockfile::{
    DependencyPath, PackageMap, PackageModel, PackageSnapshot, PackageSnapshotDependency, PathId,
    PathModel, ProjectModel, ProjectSnapshot, ResolvedDependencyMap, ResolvedDependencyVersion,
    ResolvedVersionModel, RootModel, RootProjectSnapshot, SnapshotDependencyModel,
};
use crate::reach;
use crate::snapshots;
use crate::table;
use crate::text;
use crate::value::Value;
use vstd::prelude::*;
use vstd::string::*;

verus! {

/// The first position at or behind `from` whose key is the local directory with
/// this reference, or the length if there is none.
pub open spec fn local_index(
    pairs: Seq<(PathId, PackageModel)>,
    reference: Seq<char>,
    from: int,
) -> int
    decreases pairs.len() - from,
{
    if 0 <= from < pairs.len() && lockfile::local_reference(pairs[from].0) != Some(reference) {
        local_index(pairs, reference, from + 1)
    } else {
        from
    }
}

/// The key that a link refers to: that of the first local directory with this
/// reference.
pub open spec fn linked_path(pairs: Seq<(PathId, PackageModel)>, link: Seq<char>) -> Option<
    PathId,
> {
    let i = local_index(pairs, link, 0);
    if text::starts_with(link, snapshots::file_protocol()) && i < pairs.len() {
        Some(pairs[i].0)
    } else {
        None
    }
}

/// The key that a direct dependency refers to.
pub open spec fn resolved_reference(
    pairs: Seq<(PathId, PackageModel)>,
    alias: Seq<char>,
    version: ResolvedVersionModel,
) -> Option<PathId> {
    match version {
        ResolvedVersionModel::Link(link) => linked_path(pairs, link),
        _ => snapshots::resolved_path_of(alias, version),
    }
}

/// The key that a dependency of a package refers to.
pub open spec fn dependency_reference(
    pairs: Seq<(PathId, PackageModel)>,
    alias: Seq<char>,
    dependency: SnapshotDependencyModel,
) -> Option<PathId> {
    match dependency {
        SnapshotDependencyModel::Link(link) => linked_path(pairs, link),
        _ => snapshots::dependency_path_of(alias, dependency),
    }
}

/// Some direct dependency of the group refers to `path`.
pub open spec fn group_refers(
    pairs: Seq<(PathId, PackageModel)>,
    map: Option<Map<Seq<char>, lockfile::ResolvedSpecModel>>,
    path: PathId,
) -> bool {
    map is Some && exists|alias: Seq<char>| #[trigger]
        map->0.dom().contains(alias) && resolved_reference(pairs, alias, map->0[alias].version)
            == Some(path)
}

/// Some direct dependency of the importer refers to `path`.
pub open spec fn project_refers(
    pairs: Seq<(PathId, PackageModel)>,
    project: ProjectModel,
    path: PathId,
) -> bool {
    ||| group_refers(pairs, project.dependencies, path)
    ||| group_refers(pairs, project.optional_dependencies, path)
    ||| group_refers(pairs, project.dev_dependencies, path)
}

/// The importer `id` refers to `path`.
pub open spec fn importer_refers(
    pairs: Seq<(PathId, PackageModel)>,
    importers: Map<Seq<char>, ProjectModel>,
    id: Seq<char>,
    path: PathId,
) -> bool {
    importers.dom().contains(id) && project_refers(pairs, importers[id], path)
}

/// Some importer of a workspace refers to `path`.
pub open spec fn some_importer_refers(
    pairs: Seq<(PathId, PackageModel)>,
    importers: Map<Seq<char>, ProjectModel>,
    path: PathId,
) -> bool {
    exists|id: Seq<char>| #[trigger] importer_refers(pairs, importers, id, path)
}

/// Some importer refers to `path`.
pub open spec fn root_refers(
    pairs: Seq<(PathId, PackageModel)>,
    root: RootModel,
    path: PathId,
) -> bool {
    match root {
        RootModel::Single(project) => project_refers(pairs, project, path),
        RootModel::Multi(importers) => some_importer_refers(pairs, importers, path),
    }
}

/// Some dependency of the package refers to `path`.
pub open spec fn package_refers(
    pairs: Seq<(PathId, PackageModel)>,
    package: PackageModel,
    path: PathId,
) -> bool {
    let all = snapshots::all_dependencies(package);
    exists|alias: Seq<char>| #[trigger]
        all.dom().contains(alias) && dependency_reference(pairs, alias, all[alias]) == Some(path)
}

/// The key that a link refers to, as it is spelled.
pub open spec fn linked_key(packages: PackageMap, link: Seq<char>) -> Option<PathModel> {
    let i = local_index(packages.pairs(), link, 0);
    if text::starts_with(link, snapshots::file_protocol()) && i < packages.pairs().len() {
        Some(packages.key(i).deep_view())
    } else {
        None
    }
}

/// The key that a direct dependency refers to, as it is spelled.
pub open spec fn resolved_key(
    packages: PackageMap,
    alias: Seq<char>,
    version: ResolvedVersionModel,
) -> Option<PathModel> {
    match version {
        ResolvedVersionModel::Link(link) => linked_key(packages, link),
        _ => snapshots::resolved_key(alias, version),
    }
}

/// The key that a dependency of a package refers to, as it is spelled.
pub open spec fn dependency_key(
    packages: PackageMap,
    alias: Seq<char>,
    dependency: SnapshotDependencyModel,
) -> Option<PathModel> {
    match dependency {
        SnapshotDependencyModel::Link(link) => linked_key(packages, link),
        _ => snapshots::dependency_key(alias, dependency),
    }
}

/// Some direct dependency of the group spells a key so.
pub open spec fn group_spells(
    packages: PackageMap,
    map: Option<Map<Seq<char>, lockfile::ResolvedSpecModel>>,
    key: PathModel,
) -> bool {
    map is Some && exists|alias: Seq<char>| #[trigger]
        map->0.dom().contains(alias) && resolved_key(packages, alias, map->0[alias].version)
            == Some(key)
}

/// Some direct dependency of the importer spells a key so.
pub open spec fn project_spells(
    packages: PackageMap,
    project: ProjectModel,
    key: PathModel,
) -> bool {
    ||| group_spells(packages, project.dependencies, key)
    ||| group_spells(packages, project.optional_dependencies, key)
    ||| group_spells(packages, project.dev_dependencies, key)
}

/// Some dependency of the package spells a key so.
pub open spec fn package_spells(
    packages: PackageMap,
    package: PackageModel,
    key: PathModel,
) -> bool {
    let all = snapshots::all_dependencies(package);
    exists|alias: Seq<char>| #[trigger]
        all.dom().contains(alias) && dependency_key(packages, alias, all[alias]) == Some(key)
}

/// The steps from a package to what its dependencies refer to.
pub open spec fn package_step(pairs: Seq<(PathId, PackageModel)>) -> spec_fn(
    PathId,
    PathId,
) -> bool {
    |from: PathId, to: PathId|
        table::map_of(pairs).dom().contains(from) && package_refers(
            pairs,
            table::map_of(pairs)[from],
            to,
        )
}

/// The keys that importers refer to.
pub open spec fn roots(pairs: Seq<(PathId, PackageModel)>, root: RootModel) -> Set<PathId> {
    Set::new(|path: PathId| root_refers(pairs, root, path))
}

/// `path` is referred to by an importer, or by a package that is.
pub open spec fn is_referenced(
    pairs: Seq<(PathId, PackageModel)>,
    root: RootModel,
    path: PathId,
) -> bool {
    reach::is_reachable(roots(pairs, root), package_step(pairs), path)
}

/// The packages that are referred to.
pub open spec fn pruned(pairs: Seq<(PathId, PackageModel)>, root: RootModel) -> Map<
    PathId,
    PackageModel,
> {
    table::map_of(pairs).restrict(Set::new(|path: PathId| is_referenced(pairs, root, path)))
}

/// The keys of the packages that are referred to.
pub open spec fn pruned_keys(
    pairs: Seq<(PathId, PackageModel)>,
    keys: Map<PathId, PathModel>,
    root: RootModel,
) -> Map<PathId, PathModel> {
    keys.restrict(Set::new(|path: PathId| is_referenced(pairs, root, path)))
}

/// A queue goes on from another.
pub open spec fn is_prefix<A>(before: Seq<A>, after: Seq<A>) -> bool {
    before.len() <= after.len() && forall|k: int|
        0 <= k < before.len() ==> #[trigger] after[k] == before[k]
}

/// The key that a link refers to.
fn find_linked_path(packages: &PackageMap, link: &str) -> (path: Option<DependencyPath>)
    ensures
        lockfile::path_ident(path) == linked_path(packages.pairs(), link@),
        path.deep_view() == linked_key(*packages, link@),
{
    if !text::has_prefix(link, "file:") {
        return None;
    }
    let n: usize = packages.len();
    let ghost pairs = packages.pairs();
    let mut i: usize = 0;
    while i < n
        invariant
            n == pairs.len(),
            pairs == packages.pairs(),
            i <= n,
            text::starts_with(link@, snapshots::file_protocol()),
            local_index(pairs, link@, 0) == local_index(pairs, link@, i as int),
        decreases n - i,
    {
        let key = packages.key_at(i);
        if let Some(reference) = key.local_file_reference() {
            if text::same_text(reference, link) {
                return Some(key.duplicate());
            }
        }
        i = i + 1;
    }
    None
}

/// The key that a direct dependency refers to.
fn find_resolved_reference(
    alias: &str,
    version: &ResolvedDependencyVersion,
    packages: &PackageMap,
) -> (path: Option<DependencyPath>)
    ensures
        lockfile::path_ident(path) == resolved_reference(
            packages.pairs(),
            alias@,
            version.deep_view(),
        ),
        path.deep_view() == resolved_key(*packages, alias@, version.deep_view()),
{
    match version {
        ResolvedDependencyVersion::Link(link) => find_linked_path(packages, link.as_str()),
        _ => snapshots::dependency_path_from_resolved_version(alias, version),
    }
}

/// The key that a dependency of a package refers to.
fn find_dependency_reference(
    alias: &str,
    dependency: &PackageSnapshotDependency,
    packages: &PackageMap,
) -> (path: Option<DependencyPath>)
    ensures
        lockfile::path_ident(path) == dependency_reference(
            packages.pairs(),
            alias@,
            dependency.deep_view(),
        ),
        path.deep_view() == dependency_key(*packages, alias@, dependency.deep_view()),
{
    match dependency {
        PackageSnapshotDependency::Link(link) => find_linked_path(packages, link.as_str()),
        _ => snapshots::dependency_path_from_snapshot_dependency(alias, dependency),
    }
}

/// Queues what the direct dependencies of a group refer to.
fn collect_group(
    map: &ResolvedDependencyMap,
    packages: &PackageMap,
    queue: &mut Vec<DependencyPath>,
)
    ensures
        forall|path: PathId| #[trigger]
            lockfile::path_ids(final(queue)@).contains(path) <==> lockfile::path_ids(
                old(queue)@,
            ).contains(path)
                || group_refers(packages.pairs(), Some(map.deep_view()), path),
        is_prefix(old(queue)@, final(queue)@),
        forall|k: int|
            old(queue)@.len() <= k < final(queue)@.len() ==> group_spells(
                *packages,
                Some(map.deep_view()),
                (#[trigger] final(queue)@[k]).deep_view(),
            ),
{
    let n: usize = map.len();
    let ghost pairs = map.pairs();
    let ghost model = map.deep_view();
    let ghost before = lockfile::path_ids(queue@);
    let ghost held = queue@;
    let mut i: usize = 0;
    while i < n
        invariant
            n == pairs.len(),
            pairs == map.pairs(),
            model == map.deep_view(),
            table::keys(pairs).no_duplicates(),
            i <= n,
            is_prefix(held, queue@),
            forall|k: int|
                held.len() <= k < queue@.len() ==> group_spells(
                    *packages,
                    Some(model),
                    (#[trigger] queue@[k]).deep_view(),
                ),
            forall|path: PathId| #[trigger]
                lockfile::path_ids(queue@).contains(path) ==> before.contains(path) || group_refers(
                    packages.pairs(),
                    Some(model),
                    path,
                ),
            forall|path: PathId|
                before.contains(path) ==> #[trigger] lockfile::path_ids(queue@).contains(path),
            forall|j: int|
                0 <= j < i ==> match resolved_reference(
                    packages.pairs(),
                    (#[trigger] pairs[j]).0,
                    pairs[j].1.version,
                ) {
                    Some(path) => lockfile::path_ids(queue@).contains(path),
                    None => true,
                },
        decreases n - i,
    {
        let alias = map.key_at(i);
        let found = find_resolved_reference(alias.as_str(), &map.value_at(i).version, packages);
        proof {
            table::lemma_map_entry(pairs, i as int);
        }
        if let Some(path) = found {
            let ghost seq = lockfile::path_ids(queue@);
            let ghost added = path.ident();
            queue.push(path);
            proof {
                assert(lockfile::path_ids(queue@) =~= seq.push(added));
                reach::lemma_push_contains(seq, added);
                assert(model.dom().contains(pairs[i as int].0));
            }
        }
        i = i + 1;
    }
    proof {
        assert forall|path: PathId|
            group_refers(packages.pairs(), Some(model), path) implies
            #[trigger] lockfile::path_ids(queue@).contains(path) by {
            let alias = choose|alias: Seq<char>| #[trigger]
                model.dom().contains(alias) && resolved_reference(
                    packages.pairs(),
                    alias,
                    model[alias].version,
                ) == Some(path);
            let j = table::lemma_map_index(pairs, alias);
        }
    }
}

/// Queues what the direct dependencies of an importer refer to.
pub fn collect_project_dependency_paths(
    project_snapshot: &ProjectSnapshot,
    packages: &PackageMap,
    queue: &mut Vec<DependencyPath>,
)
    ensures
        forall|path: PathId| #[trigger]
            lockfile::path_ids(final(queue)@).contains(path) <==> lockfile::path_ids(
                old(queue)@,
            ).contains(path)
                || project_refers(packages.pairs(), project_snapshot.deep_view(), path),
        is_prefix(old(queue)@, final(queue)@),
        forall|k: int|
            old(queue)@.len() <= k < final(queue)@.len() ==> project_spells(
                *packages,
                project_snapshot.deep_view(),
                (#[trigger] final(queue)@[k]).deep_view(),
            ),
{
    if let Some(map) = &project_snapshot.dependencies {
        collect_group(map, packages, queue);
    }
    if let Some(map) = &project_snapshot.optional_dependencies {
        collect_group(map, packages, queue);
    }
    if let Some(map) = &project_snapshot.dev_dependencies {
        collect_group(map, packages, queue);
    }
}

/// Queues what the dependencies of a package refer to.
pub fn collect_package_snapshot_dependency_paths(
    package_snapshot: &PackageSnapshot,
    packages: &PackageMap,
    queue: &mut Vec<DependencyPath>,
)
    ensures
        forall|path: PathId| #[trigger]
            lockfile::path_ids(final(queue)@).contains(path) <==> lockfile::path_ids(
                old(queue)@,
            ).contains(path)
                || package_refers(packages.pairs(), package_snapshot.deep_view(), path),
        is_prefix(old(queue)@, final(queue)@),
        forall|k: int|
            old(queue)@.len() <= k < final(queue)@.len() ==> package_spells(
                *packages,
                package_snapshot.deep_view(),
                (#[trigger] final(queue)@[k]).deep_view(),
            ),
{
    let all = snapshots::package_dependency_map(package_snapshot);
    let n: usize = all.len();
    let ghost pairs = all.pairs();
    let ghost model = all.deep_view();
    let ghost before = lockfile::path_ids(queue@);
    let ghost held = queue@;
    let mut i: usize = 0;
    while i < n
        invariant
            n == pairs.len(),
            pairs == all.pairs(),
            model == all.deep_view(),
            model == snapshots::all_dependencies(package_snapshot.deep_view()),
            table::keys(pairs).no_duplicates(),
            i <= n,
            is_prefix(held, queue@),
            forall|k: int|
                held.len() <= k < queue@.len() ==> package_spells(
                    *packages,
                    package_snapshot.deep_view(),
                    (#[trigger] queue@[k]).deep_view(),
                ),
            forall|path: PathId| #[trigger]
                lockfile::path_ids(queue@).contains(path) ==> before.contains(path) || package_refers(
                    packages.pairs(),
                    package_snapshot.deep_view(),
                    path,
                ),
            forall|path: PathId|
                before.contains(path) ==> #[trigger] lockfile::path_ids(queue@).contains(path),
            forall|j: int|
                0 <= j < i ==> match dependency_reference(
                    packages.pairs(),
                    (#[trigger] pairs[j]).0,
                    pairs[j].1,
                ) {
                    Some(path) => lockfile::path_ids(queue@).contains(path),
                    None => true,
                },
        decreases n - i,
    {
        let alias = all.key_at(i);
        let found = find_dependency_reference(alias.as_str(), all.value_at(i), packages);
        proof {
            table::lemma_map_entry(pairs, i as int);
        }
        if let Some(path) = found {
            let ghost seq = lockfile::path_ids(queue@);
            let ghost added = path.ident();
            queue.push(path);
            proof {
                assert(lockfile::path_ids(queue@) =~= seq.push(added));
                reach::lemma_push_contains(seq, added);
                assert(model.dom().contains(pairs[i as int].0));
            }
        }
        i = i + 1;
    }
    proof {
        assert forall|path: PathId|
            package_refers(packages.pairs(), package_snapshot.deep_view(), path) implies
            #[trigger] lockfile::path_ids(queue@).contains(path) by {
            let alias = choose|alias: Seq<char>| #[trigger]
                model.dom().contains(alias) && dependency_reference(
                    packages.pairs(),
                    alias,
                    model[alias],
                ) == Some(path);
            let j = table::lemma_map_index(pairs, alias);
        }
    }
}

/// One of the first `n` importers refers to `path`.
spec fn importers_refer(
    pairs: Seq<(PathId, PackageModel)>,
    importers: Seq<(Seq<char>, ProjectModel)>,
    n: int,
    path: PathId,
) -> bool {
    exists|j: int| 0 <= j < n && project_refers(pairs, (#[trigger] importers[j]).1, path)
}

proof fn lemma_importers_refer(
    pairs: Seq<(PathId, PackageModel)>,
    importers: Seq<(Seq<char>, ProjectModel)>,
    path: PathId,
)
    requires
        table::keys(importers).no_duplicates(),
    ensures
        importers_refer(pairs, importers, importers.len() as int, path) <==> root_refers(
            pairs,
            RootModel::Multi(table::map_of(importers)),
            path,
        ),
{
    let n = importers.len() as int;
    let map = table::map_of(importers);
    if importers_refer(pairs, importers, n, path) {
        let j = choose|j: int|
            0 <= j < n && project_refers(pairs, (#[trigger] importers[j]).1, path);
        table::lemma_map_entry(importers, j);
        assert(importer_refers(pairs, map, importers[j].0, path));
        assert(some_importer_refers(pairs, map, path));
    }
    if some_importer_refers(pairs, map, path) {
        let id = choose|id: Seq<char>| #[trigger] importer_refers(pairs, map, id, path);
        let j = table::lemma_map_index(importers, id);
        assert(0 <= j < n && project_refers(pairs, importers[j].1, path));
        assert(importers_refer(pairs, importers, n, path));
    }
}

/// Queues what the importers refer to.
fn collect_root(
    project_snapshot: &RootProjectSnapshot,
    packages: &PackageMap,
) -> (queue: Vec<DependencyPath>)
    ensures
        forall|path: PathId| #[trigger]
            lockfile::path_ids(queue@).contains(path) <==> root_refers(
                packages.pairs(),
                project_snapshot.deep_view(),
                path,
            ),
{
    let mut queue: Vec<DependencyPath> = Vec::new();
    match project_snapshot {
        RootProjectSnapshot::Single(snapshot) => {
            collect_project_dependency_paths(snapshot, packages, &mut queue);
        },
        RootProjectSnapshot::Multi(importers) => {
            let n: usize = importers.len();
            let ghost pairs = importers.pairs();
            let ghost model = importers.deep_view();
            let mut i: usize = 0;
            while i < n
                invariant
                    n == pairs.len(),
                    pairs == importers.pairs(),
                    model == importers.deep_view(),
                    table::keys(pairs).no_duplicates(),
                    i <= n,
                    forall|path: PathId| #[trigger]
                        lockfile::path_ids(queue@).contains(path) <==> importers_refer(
                            packages.pairs(),
                            pairs,
                            i as int,
                            path,
                        ),
                decreases n - i,
            {
                let ghost before = lockfile::path_ids(queue@);
                collect_project_dependency_paths(importers.value_at(i), packages, &mut queue);
                proof {
                    assert forall|path: PathId| #[trigger]
                        lockfile::path_ids(queue@).contains(path) <==> importers_refer(
                            packages.pairs(),
                            pairs,
                            i + 1,
                            path,
                        ) by {
                        assert(before.contains(path) <==> importers_refer(
                            packages.pairs(),
                            pairs,
                            i as int,
                            path,
                        ));
                        if project_refers(packages.pairs(), pairs[i as int].1, path) {
                            assert(lockfile::path_ids(queue@).contains(path));
                        }
                    }
                }
                i = i + 1;
            }
            proof {
                assert(project_snapshot.deep_view() == RootModel::Multi(model));
                assert forall|path: PathId| #[trigger]
                    lockfile::path_ids(queue@).contains(path) <==> root_refers(
                        packages.pairs(),
                        project_snapshot.deep_view(),
                        path,
                    ) by {
                    lemma_importers_refer(packages.pairs(), pairs, path);
                }
            }
        },
    }
    queue
}

/// Drops the packages that neither an importer nor a package that is needed
/// refers to.
pub fn prune_unreferenced_packages(
    project_snapshot: &RootProjectSnapshot,
    packages: &PackageMap,
) -> (kept: PackageMap)
    ensures
        kept.deep_view() == pruned(packages.pairs(), project_snapshot.deep_view()),
        kept.full_keys() == pruned_keys(
            packages.pairs(),
            packages.full_keys(),
            project_snapshot.deep_view(),
        ),
{
    let n: usize = packages.len();
    let ghost pairs = packages.pairs();
    let ghost root = project_snapshot.deep_view();
    let ghost step = package_step(pairs);
    let ghost start = roots(pairs, root);
    let mut queue = collect_root(project_snapshot, packages);
    let mut marks: Vec<bool> = table::no_marks(n);
    let ghost mut done: Set<int> = Set::empty();
    proof {
        assert forall|path: PathId| lockfile::path_ids(
            queue@,
        ).contains(path) implies #[trigger] reach::is_reachable(
            start,
            step,
            path,
        ) by {
            reach::lemma_reachable_root(start, step, path);
        }
        reach::lemma_positions_bound(done, n as int);
    }
    while queue.len() > 0
        invariant
            n == pairs.len(),
            n == marks@.len(),
            pairs == packages.pairs(),
            root == project_snapshot.deep_view(),
            step == package_step(pairs),
            start == roots(pairs, root),
            table::keys(pairs).no_duplicates(),
            forall|i: int| #[trigger] done.contains(i) <==> 0 <= i < n && marks@[i],
            done.finite(),
            done.len() <= n,
            forall|path: PathId|
                lockfile::path_ids(queue@).contains(path) ==> #[trigger] reach::is_reachable(
                    start,
                    step,
                    path,
                ),
            forall|i: int|
                0 <= i < n && marks@[i] ==> #[trigger] reach::is_reachable(start, step, pairs[i].0),
            forall|path: PathId| #[trigger]
                start.contains(path) ==> lockfile::path_ids(queue@).contains(path) || table::is_marked(
                    pairs,
                    marks@,
                    path,
                ) || !table::map_of(pairs).dom().contains(path),
            forall|i: int, path: PathId|
                0 <= i < n && marks@[i] && #[trigger] package_refers(pairs, pairs[i].1, path)
                    ==> lockfile::path_ids(queue@).contains(path) || table::is_marked(pairs, marks@, path)
                    || !table::map_of(pairs).dom().contains(path),
        decreases n - done.len(), queue@.len(),
    {
        let ghost before_queue = lockfile::path_ids(queue@);
        let ghost before_marks = marks@;
        let candidate_path = queue.pop().unwrap();
        let ghost candidate = candidate_path.ident();
        proof {
            assert(before_queue =~= lockfile::path_ids(queue@).push(candidate));
            reach::lemma_push_contains(lockfile::path_ids(queue@), candidate);
        }
        if let Some(i) = packages.position(&candidate_path) {
            if !marks[i] {
                let ghost popped = lockfile::path_ids(queue@);
                marks.set(i, true);
                collect_package_snapshot_dependency_paths(
                    packages.value_at(i),
                    packages,
                    &mut queue,
                );
                proof {
                    let added = done.insert(i as int);
                    reach::lemma_positions_bound(added, n as int);
                    done = added;
                    table::lemma_map_entry(pairs, i as int);
                    assert(pairs[i as int].0 == candidate);
                    lemma_marks_grow(pairs, before_marks, marks@, i as int);
                    assert forall|path: PathId| lockfile::path_ids(
            queue@,
        ).contains(path) implies #[trigger] reach::is_reachable(
                        start,
                        step,
                        path,
                    ) by {
                        if !popped.contains(path) {
                            assert(package_refers(pairs, pairs[i as int].1, path));
                            assert(step(candidate, path));
                            reach::lemma_reachable_step(start, step, candidate, path);
                        }
                    }
                }
            } else {
                assert(table::is_marked(pairs, marks@, candidate)) by {
                    assert(marks@[i as int] && pairs[i as int].0 == candidate);
                }
            }
        }
    }
    proof {
        let all = table::map_of(pairs);
        let closed = Set::new(
            |path: PathId| table::is_marked(pairs, marks@, path) || !all.dom().contains(path),
        );
        assert(reach::is_closed(closed, start, step)) by {
            assert forall|p: PathId, q: PathId|
                closed.contains(p) && #[trigger] step(p, q) implies closed.contains(q) by {
                let j = choose|j: int|
                    0 <= j < marks@.len() && marks@[j] && (#[trigger] pairs[j]).0 == p;
                table::lemma_map_entry(pairs, j);
                assert(package_refers(pairs, pairs[j].1, q));
            }
        }
        let wanted = table::marked(pairs, marks@);
        let referenced = Set::new(|path: PathId| is_referenced(pairs, root, path));
        assert forall|path: PathId| all.dom().contains(path) implies (wanted.contains(path)
            <==> referenced.contains(path)) by {
            if wanted.contains(path) {
                let j = choose|j: int|
                    0 <= j < marks@.len() && marks@[j] && (#[trigger] pairs[j]).0 == path;
                assert(reach::is_reachable(start, step, pairs[j].0));
            }
            if referenced.contains(path) {
                assert(closed.contains(path));
                assert(table::is_marked(pairs, marks@, path));
            }
        }
        assert(all.restrict(wanted) =~= all.restrict(referenced));
        packages.lemma_named();
        assert(packages.full_keys().restrict(wanted) =~= packages.full_keys().restrict(referenced));
    }
    packages.keep(&marks)
}

proof fn lemma_marks_grow(
    pairs: Seq<(PathId, PackageModel)>,
    before: Seq<bool>,
    after: Seq<bool>,
    i: int,
)
    requires
        before.len() == pairs.len(),
        0 <= i < before.len(),
        after == before.update(i, true),
    ensures
        table::is_marked(pairs, after, pairs[i].0),
        forall|path: PathId|
            table::is_marked(pairs, before, path) ==> #[trigger] table::is_marked(pairs, after, path),
{
    assert(after[i] && pairs[i].0 == pairs[i].0);
    assert forall|path: PathId| table::is_marked(pairs, before, path) implies #[trigger] table::is_marked(
        pairs,
        after,
        path,
    ) by {
        let j = choose|j: int| 0 <= j < before.len() && before[j] && (#[trigger] pairs[j]).0 == path;
        assert(after[j] && pairs[j].0 == path);
    }
}

/// Pruning drops no package that an importer refers to, and none that a package
/// which stays refers to.
pub proof fn law_pruned_keeps_references(
    pairs: Seq<(PathId, PackageModel)>,
    root: RootModel,
    path: PathId,
)
    requires
        table::map_of(pairs).dom().contains(path),
        root_refers(pairs, root, path) || exists|from: PathId| #[trigger]
            pruned(pairs, root).dom().contains(from) && package_refers(
                pairs,
                pruned(pairs, root)[from],
                path,
            ),
    ensures
        pruned(pairs, root).dom().contains(path),
        pruned(pairs, root)[path] == table::map_of(pairs)[path],
{
    let start = roots(pairs, root);
    let step = package_step(pairs);
    if root_refers(pairs, root, path) {
        reach::lemma_reachable_root(start, step, path);
    } else {
        let from = choose|from: PathId| #[trigger]
            pruned(pairs, root).dom().contains(from) && package_refers(
                pairs,
                pruned(pairs, root)[from],
                path,
            );
        assert(step(from, path));
        reach::lemma_reachable_step(start, step, from, path);
    }
}

/// Pruning leaves nothing that could still be dropped: every set of packages
/// that holds what the importers refer to, and what its own members refer to,
/// holds what pruning keeps.
pub proof fn law_pruned_is_least(
    pairs: Seq<(PathId, PackageModel)>,
    root: RootModel,
    needed: Set<PathId>,
    path: PathId,
)
    requires
        forall|p: PathId| #[trigger] root_refers(pairs, root, p) ==> needed.contains(p),
        forall|p: PathId, q: PathId|
            needed.contains(p) && table::map_of(pairs).dom().contains(p)
                && #[trigger] package_refers(pairs, table::map_of(pairs)[p], q) ==> needed.contains(
                q,
            ),
        pruned(pairs, root).dom().contains(path),
    ensures
        needed.contains(path),
{
    let start = roots(pairs, root);
    let step = package_step(pairs);
    assert(reach::is_closed(needed, start, step)) by {
        assert forall|p: PathId, q: PathId|
            needed.contains(p) && #[trigger] step(p, q) implies needed.contains(q) by {
            assert(package_refers(pairs, table::map_of(pairs)[p], q));
        }
    }
    assert(is_referenced(pairs, root, path));
}

/// No two keys are local directories with one reference.
pub open spec fn references_differ(pairs: Seq<(PathId, PackageModel)>) -> bool {
    forall|i: int, j: int|
        0 <= i < pairs.len() && 0 <= j < pairs.len() && lockfile::local_reference(
            (#[trigger] pairs[i]).0,
        ) is Some && lockfile::local_reference(pairs[i].0) == lockfile::local_reference(
            (#[trigger] pairs[j]).0,
        ) ==> i == j
}

proof fn lemma_local_index(pairs: Seq<(PathId, PackageModel)>, link: Seq<char>, from: int)
    requires
        0 <= from <= pairs.len(),
    ensures
        from <= local_index(pairs, link, from) <= pairs.len(),
        local_index(pairs, link, from) < pairs.len() ==> lockfile::local_reference(
            pairs[local_index(pairs, link, from)].0,
        ) == Some(link),
        forall|i: int|
            from <= i < local_index(pairs, link, from) ==> lockfile::local_reference(
                (#[trigger] pairs[i]).0,
            ) != Some(link),
    decreases pairs.len() - from,
{
    if from < pairs.len() && lockfile::local_reference(pairs[from].0) != Some(link) {
        lemma_local_index(pairs, link, from + 1);
    }
}

/// A link leads to the same key among fewer packages, if that key is one of
/// them.
proof fn lemma_linked_path(
    pairs: Seq<(PathId, PackageModel)>,
    kept: Seq<(PathId, PackageModel)>,
    link: Seq<char>,
    path: PathId,
)
    requires
        references_differ(pairs),
        table::keys(pairs).no_duplicates(),
        table::keys(kept).no_duplicates(),
        table::map_of(kept).submap_of(table::map_of(pairs)),
        linked_path(pairs, link) == Some(path),
        table::map_of(kept).dom().contains(path),
    ensures
        linked_path(kept, link) == Some(path),
{
    lemma_local_index(pairs, link, 0);
    lemma_local_index(kept, link, 0);
    let k = table::lemma_map_index(kept, path);
    assert(lockfile::local_reference(kept[k].0) == Some(link));
    let i = local_index(kept, link, 0);
    assert(i <= k);
    table::lemma_map_entry(kept, i);
    let j = table::lemma_map_index(pairs, kept[i].0);
    assert(j == local_index(pairs, link, 0));
}

proof fn lemma_group_refers(
    pairs: Seq<(PathId, PackageModel)>,
    kept: Seq<(PathId, PackageModel)>,
    map: Option<Map<Seq<char>, lockfile::ResolvedSpecModel>>,
    path: PathId,
)
    requires
        references_differ(pairs),
        table::keys(pairs).no_duplicates(),
        table::keys(kept).no_duplicates(),
        table::map_of(kept).submap_of(table::map_of(pairs)),
        table::map_of(kept).dom().contains(path),
        group_refers(pairs, map, path),
    ensures
        group_refers(kept, map, path),
{
    let alias = choose|alias: Seq<char>| #[trigger]
        map->0.dom().contains(alias) && resolved_reference(pairs, alias, map->0[alias].version)
            == Some(path);
    if let ResolvedVersionModel::Link(link) = map->0[alias].version {
        lemma_linked_path(pairs, kept, link, path);
    }
    assert(map->0.dom().contains(alias) && resolved_reference(kept, alias, map->0[alias].version)
        == Some(path));
}

proof fn lemma_project_refers(
    pairs: Seq<(PathId, PackageModel)>,
    kept: Seq<(PathId, PackageModel)>,
    project: ProjectModel,
    path: PathId,
)
    requires
        references_differ(pairs),
        table::keys(pairs).no_duplicates(),
        table::keys(kept).no_duplicates(),
        table::map_of(kept).submap_of(table::map_of(pairs)),
        table::map_of(kept).dom().contains(path),
        project_refers(pairs, project, path),
    ensures
        project_refers(kept, project, path),
{
    if group_refers(pairs, project.dependencies, path) {
        lemma_group_refers(pairs, kept, project.dependencies, path);
    } else if group_refers(pairs, project.optional_dependencies, path) {
        lemma_group_refers(pairs, kept, project.optional_dependencies, path);
    } else {
        lemma_group_refers(pairs, kept, project.dev_dependencies, path);
    }
}

proof fn lemma_root_refers(
    pairs: Seq<(PathId, PackageModel)>,
    kept: Seq<(PathId, PackageModel)>,
    root: RootModel,
    path: PathId,
)
    requires
        references_differ(pairs),
        table::keys(pairs).no_duplicates(),
        table::keys(kept).no_duplicates(),
        table::map_of(kept).submap_of(table::map_of(pairs)),
        table::map_of(kept).dom().contains(path),
        root_refers(pairs, root, path),
    ensures
        root_refers(kept, root, path),
{
    match root {
        RootModel::Single(project) => {
            lemma_project_refers(pairs, kept, project, path);
        },
        RootModel::Multi(importers) => {
            let id = choose|id: Seq<char>| #[trigger] importer_refers(pairs, importers, id, path);
            lemma_project_refers(pairs, kept, importers[id], path);
            assert(importer_refers(kept, importers, id, path));
        },
    }
}

proof fn lemma_package_refers(
    pairs: Seq<(PathId, PackageModel)>,
    kept: Seq<(PathId, PackageModel)>,
    package: PackageModel,
    path: PathId,
)
    requires
        references_differ(pairs),
        table::keys(pairs).no_duplicates(),
        table::keys(kept).no_duplicates(),
        table::map_of(kept).submap_of(table::map_of(pairs)),
        table::map_of(kept).dom().contains(path),
        package_refers(pairs, package, path),
    ensures
        package_refers(kept, package, path),
{
    let all = snapshots::all_dependencies(package);
    let alias = choose|alias: Seq<char>| #[trigger]
        all.dom().contains(alias) && dependency_reference(pairs, alias, all[alias]) == Some(path);
    if let SnapshotDependencyModel::Link(link) = all[alias] {
        lemma_linked_path(pairs, kept, link, path);
    }
    assert(all.dom().contains(alias) && dependency_reference(kept, alias, all[alias]) == Some(
        path,
    ));
}

/// Pruning a second time changes nothing, where no two local directories have
/// one reference.
pub proof fn law_pruned_again_stays(
    pairs: Seq<(PathId, PackageModel)>,
    kept: Seq<(PathId, PackageModel)>,
    root: RootModel,
)
    requires
        table::keys(pairs).no_duplicates(),
        table::keys(kept).no_duplicates(),
        references_differ(pairs),
        table::map_of(kept) == pruned(pairs, root),
    ensures
        pruned(kept, root) == table::map_of(kept),
{
    let all = table::map_of(pairs);
    let left = table::map_of(kept);
    let start = roots(pairs, root);
    let step = package_step(pairs);
    let start_again = roots(kept, root);
    let step_again = package_step(kept);
    let closed = Set::new(
        |path: PathId|
            is_referenced(pairs, root, path) && is_referenced(kept, root, path)
                || !all.dom().contains(path),
    );
    assert(reach::is_closed(closed, start, step)) by {
        assert forall|p: PathId| start.contains(p) implies closed.contains(p) by {
            reach::lemma_reachable_root(start, step, p);
            if all.dom().contains(p) {
                assert(left.dom().contains(p));
                lemma_root_refers(pairs, kept, root, p);
                reach::lemma_reachable_root(start_again, step_again, p);
            }
        }
        assert forall|p: PathId, q: PathId| closed.contains(p) && #[trigger] step(
            p,
            q,
        ) implies closed.contains(q) by {
            reach::lemma_reachable_step(start, step, p, q);
            assert(left.dom().contains(p));
            if all.dom().contains(q) {
                assert(left.dom().contains(q));
                lemma_package_refers(pairs, kept, all[p], q);
                assert(step_again(p, q));
                reach::lemma_reachable_step(start_again, step_again, p, q);
            }
        }
    }
    assert forall|path: PathId| left.dom().contains(path) implies is_referenced(
        kept,
        root,
        path,
    ) by {
        assert(is_referenced(pairs, root, path));
        assert(closed.contains(path));
    }
    assert(pruned(kept, root) =~= left);
}

/// A package that a direct dependency of an importer names is kept, whatever group the
/// dependency is in.
pub proof fn law_pruning_keeps_direct_dependencies(
    packages: PackageMap,
    root: RootModel,
    id: Seq<char>,
    project: ProjectModel,
    alias: Seq<char>,
    path: PathId,
    suffix: lockfile::VerPeerModel,
)
    requires
        match root {
            RootModel::Single(only) => only == project,
            RootModel::Multi(importers) => importers.dom().contains(id) && importers[id] == project,
        },
        ({
            ||| project.dependencies is Some && project.dependencies->0.dom().contains(alias)
                && project.dependencies->0[alias].version == ResolvedVersionModel::PkgVerPeer(
                suffix,
            )
            ||| project.optional_dependencies is Some
                && project.optional_dependencies->0.dom().contains(alias)
                && project.optional_dependencies->0[alias].version
                == ResolvedVersionModel::PkgVerPeer(suffix)
            ||| project.dev_dependencies is Some && project.dev_dependencies->0.dom().contains(
                alias,
            ) && project.dev_dependencies->0[alias].version == ResolvedVersionModel::PkgVerPeer(
                suffix,
            )
        }),
        path == (PathId {
            custom_registry: None,
            specifier: lockfile::SpecifierId::Registry(
                lockfile::NameVerPeerId { name: alias, suffix: lockfile::ver_peer_id(suffix) },
            ),
        }),
        table::map_of(packages.pairs()).dom().contains(path),
    ensures
        pruned(packages.pairs(), root).dom().contains(path),
        pruned(packages.pairs(), root)[path] == table::map_of(packages.pairs())[path],
{
    let pairs = packages.pairs();
    assert(project_refers(pairs, project, path));
    if let RootModel::Multi(importers) = root {
        assert(importer_refers(pairs, importers, id, path));
    }
    assert(roots(pairs, root).contains(path));
    reach::lemma_reachable_root(roots(pairs, root), package_step(pairs), path);
}

/// A package that a dependency of a kept package names is kept.
pub proof fn law_pruning_keeps_further_dependencies(
    packages: PackageMap,
    root: RootModel,
    from: PathId,
    alias: Seq<char>,
    path: PathId,
    suffix: lockfile::VerPeerModel,
)
    requires
        pruned(packages.pairs(), root).dom().contains(from),
        snapshots::all_dependencies(table::map_of(packages.pairs())[from]).dom().contains(alias),
        snapshots::all_dependencies(table::map_of(packages.pairs())[from])[alias]
            == SnapshotDependencyModel::PkgVerPeer(suffix),
        path == (PathId {
            custom_registry: None,
            specifier: lockfile::SpecifierId::Registry(
                lockfile::NameVerPeerId { name: alias, suffix: lockfile::ver_peer_id(suffix) },
            ),
        }),
        table::map_of(packages.pairs()).dom().contains(path),
    ensures
        pruned(packages.pairs(), root).dom().contains(path),
{
    let pairs = packages.pairs();
    assert(package_refers(pairs, table::map_of(pairs)[from], path));
    assert(package_step(pairs)(from, path));
    reach::lemma_reachable_step(roots(pairs, root), package_step(pairs), from, path);
}

/// The package in a directory that a direct dependency copies is kept, and so is one that
/// goes by another name than its own.
pub proof fn law_pruning_keeps_copies_and_aliases(
    packages: PackageMap,
    root: RootModel,
    project: ProjectModel,
    alias: Seq<char>,
    target: Seq<char>,
    specifier: lockfile::NameVerPeerModel,
    path: PathId,
)
    requires
        root == RootModel::Single(project),
        project.dependencies is Some,
        project.dependencies->0.dom().contains(alias),
        table::map_of(packages.pairs()).dom().contains(path),
    ensures
        project.dependencies->0[alias].version == ResolvedVersionModel::Link("file:"@ + target)
            && lockfile::local_reference(path) == Some("file:"@ + target) ==> exists|kept: PathId|
            #[trigger] pruned(packages.pairs(), root).dom().contains(kept)
                && lockfile::local_reference(kept) == Some("file:"@ + target),
        project.dependencies->0[alias].version == ResolvedVersionModel::PkgNameVerPeer(specifier)
            && path == (PathId {
            custom_registry: None,
            specifier: lockfile::SpecifierId::Registry(lockfile::name_ver_peer_id(specifier)),
        }) ==> pruned(packages.pairs(), root).dom().contains(path),
{
    let pairs = packages.pairs();
    let version = project.dependencies->0[alias].version;
    let link = "file:"@ + target;
    reveal_strlit("file:");
    assert(link.subrange(0, 5) =~= "file:"@);
    let k = table::keys(pairs).index_of(path);
    assert(table::keys(pairs)[k] == path);
    if version == ResolvedVersionModel::Link(link) && lockfile::local_reference(path) == Some(
        link,
    ) {
        lemma_local_found(pairs, link, 0, k);
        let i = local_index(pairs, link, 0);
        let kept = pairs[i].0;
        assert(table::keys(pairs)[i] == kept);
        assert(resolved_reference(pairs, alias, version) == Some(kept));
        assert(group_refers(pairs, project.dependencies, kept));
        assert(roots(pairs, root).contains(kept));
        reach::lemma_reachable_root(roots(pairs, root), package_step(pairs), kept);
        assert(table::map_of(pairs).dom().contains(kept));
        assert(pruned(pairs, root).dom().contains(kept));
    }
    if version == ResolvedVersionModel::PkgNameVerPeer(specifier) && path == (PathId {
        custom_registry: None,
        specifier: lockfile::SpecifierId::Registry(lockfile::name_ver_peer_id(specifier)),
    }) {
        assert(group_refers(pairs, project.dependencies, path));
        assert(roots(pairs, root).contains(path));
        reach::lemma_reachable_root(roots(pairs, root), package_step(pairs), path);
    }
}

proof fn lemma_local_found(
    pairs: Seq<(PathId, PackageModel)>,
    reference: Seq<char>,
    from: int,
    k: int,
)
    requires
        0 <= from <= k < pairs.len(),
        lockfile::local_reference(pairs[k].0) == Some(reference),
    ensures
        from <= local_index(pairs, reference, from) <= k,
        lockfile::local_reference(pairs[local_index(pairs, reference, from)].0) == Some(reference),
    decreases k - from,
{
    if lockfile::local_reference(pairs[from].0) != Some(reference) {
        lemma_local_found(pairs, reference, from + 1, k);
    }
}

} // verus!
