//! The part of a lockfile that some importers need.
use crate::lockfile;
use crate::lockfile::{
    DependencyGroup, Lockfile, LockfileModel, PackageMap, PackageModel, PackageSnapshot,
    PackageSnapshotDependency, PathId, PathModel, ProjectModel, ProjectSnapshot,
    ResolvedDependencyMap, ResolvedDependencyVersion, ResolvedSpecModel, ResolvedVersionModel,
    RootModel, RootProjectSnapshot, SnapshotDependencyModel, SpecifierId,
};
use crate::reach;
use crate::snapshots;
use crate::sorted;
use crate::table;
use crate::table::{Table, TextMap};
use crate::text;
use crate::value;
use crate::value::{Compared, Value};
use vstd::prelude::*;
use vstd::string::*;

verus! {

/// The importer with this id. A lockfile of one project calls it `.`.
pub open spec fn project_by_id(root: RootModel, id: Seq<char>) -> Option<ProjectModel> {
    match root {
        RootModel::Single(project) => if id == "."@ {
            Some(project)
        } else {
            None
        },
        RootModel::Multi(importers) => if importers.dom().contains(id) {
            Some(importers[id])
        } else {
            None
        },
    }
}

/// The importer that a link leads to.
pub open spec fn linked_importer(root: RootModel, link: Seq<char>) -> Option<Seq<char>> {
    match text::stripped_prefix(link, "link:"@) {
        Some(id) => if project_by_id(root, id) is Some {
            Some(id)
        } else {
            None
        },
        None => None,
    }
}

/// What is looked at to find the packages that are needed.
pub struct Scope<'a> {
    pub packages: &'a PackageMap,
    pub root: &'a RootProjectSnapshot,
    pub groups: &'a Vec<DependencyGroup>,
    pub skipped: &'a Vec<String>,
}

/// An importer by its id, or a package by its position.
pub enum Node {
    Importer(Seq<char>),
    Package(int),
}

/// The package used for a key.
pub open spec fn package_node(packages: PackageMap, path: Option<PathModel>) -> Option<Node> {
    match path {
        Some(path) => match snapshots::deduped_index(packages, path) {
            Some(i) => Some(Node::Package(i)),
            None => None,
        },
        None => None,
    }
}

/// What a direct dependency leads to.
pub open spec fn target_of_version(
    packages: PackageMap,
    root: RootModel,
    alias: Seq<char>,
    version: ResolvedVersionModel,
) -> Option<Node> {
    match version {
        ResolvedVersionModel::Link(link) if linked_importer(root, link) is Some => Some(
            Node::Importer(linked_importer(root, link)->0),
        ),
        _ => package_node(packages, snapshots::resolved_key(alias, version)),
    }
}

/// What a dependency of a package leads to.
pub open spec fn target_of_dependency(
    packages: PackageMap,
    root: RootModel,
    alias: Seq<char>,
    dependency: SnapshotDependencyModel,
) -> Option<Node> {
    match dependency {
        SnapshotDependencyModel::Link(link) if linked_importer(root, link) is Some => Some(
            Node::Importer(linked_importer(root, link)->0),
        ),
        _ => package_node(packages, snapshots::dependency_key(alias, dependency)),
    }
}

/// Some dependency of a group leads to `node`.
pub open spec fn group_leads(
    scope: Scope,
    project: ProjectModel,
    group: DependencyGroup,
    node: Node,
) -> bool {
    lockfile::group_map(project, group) is Some && map_leads(
        scope,
        lockfile::group_map(project, group)->0,
        node,
    )
}

/// Some direct dependency of a map leads to `node`.
pub open spec fn map_leads(
    scope: Scope,
    map: Map<Seq<char>, ResolvedSpecModel>,
    node: Node,
) -> bool {
    exists|alias: Seq<char>| #[trigger]
        map.dom().contains(alias) && target_of_version(
            *scope.packages,
            scope.root.deep_view(),
            alias,
            map[alias].version,
        ) == Some(node)
}

/// Some direct dependency of the groups that are looked at leads to `node`.
pub open spec fn project_leads(scope: Scope, project: ProjectModel, node: Node) -> bool {
    exists|g: int|
        0 <= g < scope.groups@.len() && #[trigger] group_leads(
            scope,
            project,
            scope.groups@[g],
            node,
        )
}

/// The package at `i` is not to be installed.
pub open spec fn is_skipped(scope: Scope, i: int) -> bool {
    scope.skipped.deep_view().contains(lockfile::path_text(scope.packages.key(i)))
}

/// Some dependency in the map leads to `node`.
pub open spec fn dependencies_lead(
    scope: Scope,
    map: Map<Seq<char>, SnapshotDependencyModel>,
    node: Node,
) -> bool {
    exists|alias: Seq<char>| #[trigger]
        map.dom().contains(alias) && target_of_dependency(
            *scope.packages,
            scope.root.deep_view(),
            alias,
            map[alias],
        ) == Some(node)
}

/// The package at `i` is to be installed, and some dependency of it leads to
/// `node`.
pub open spec fn package_leads(scope: Scope, i: int, node: Node) -> bool {
    &&& 0 <= i < scope.packages.pairs().len()
    &&& !is_skipped(scope, i)
    &&& dependencies_lead(scope, snapshots::all_dependencies(scope.packages.pairs()[i].1), node)
}

/// One step from an importer or a package to what it needs.
pub open spec fn leads(scope: Scope, from: Node, to: Node) -> bool {
    match from {
        Node::Importer(id) => project_by_id(scope.root.deep_view(), id) is Some && project_leads(
            scope,
            project_by_id(scope.root.deep_view(), id)->0,
            to,
        ),
        Node::Package(i) => package_leads(scope, i, to),
    }
}

/// The steps from importers and packages to what they need.
pub open spec fn step(scope: Scope) -> spec_fn(Node, Node) -> bool {
    |from: Node, to: Node| leads(scope, from, to)
}

/// The importers to begin with.
pub open spec fn start(ids: Seq<Seq<char>>) -> Set<Node> {
    Set::new(|node: Node| node is Importer && ids.contains(node->Importer_0))
}

/// The importers to begin with need `node`.
pub open spec fn is_needed(scope: Scope, ids: Seq<Seq<char>>, node: Node) -> bool {
    reach::is_reachable(start(ids), step(scope), node)
}

/// The package with this key is needed and to be installed.
pub open spec fn is_kept(scope: Scope, ids: Seq<Seq<char>>, path: PathId) -> bool {
    exists|i: int|
        0 <= i < scope.packages.pairs().len() && (#[trigger] scope.packages.pairs()[i]).0 == path
            && is_needed(scope, ids, Node::Package(i)) && !is_skipped(scope, i)
}

/// The packages that are needed and to be installed.
pub open spec fn kept_packages(scope: Scope, ids: Seq<Seq<char>>) -> Map<PathId, PackageModel> {
    scope.packages.deep_view().restrict(Set::new(|path: PathId| is_kept(scope, ids, path)))
}

/// The keys of the packages that are needed and to be installed.
pub open spec fn kept_keys(scope: Scope, ids: Seq<Seq<char>>) -> Map<PathId, PathModel> {
    scope.packages.full_keys().restrict(Set::new(|path: PathId| is_kept(scope, ids, path)))
}

/// Some package has this specifier.
pub open spec fn has_specifier(
    packages: Map<PathId, PackageModel>,
    specifier: SpecifierId,
) -> bool {
    exists|path: PathId| #[trigger] packages.dom().contains(path) && path.specifier == specifier
}

/// A direct dependency that is kept: it links to an importer, or its package is
/// there.
pub open spec fn is_resolvable(
    packages: Option<Map<PathId, PackageModel>>,
    alias: Seq<char>,
    version: ResolvedVersionModel,
) -> bool {
    ||| version is Link && text::starts_with(version->Link_0, "link:"@)
    ||| packages is None
    ||| snapshots::resolved_path_of(alias, version) is Some && has_specifier(
        packages->0,
        snapshots::resolved_path_of(alias, version)->0.specifier,
    )
}

/// The direct dependencies of a group that are kept.
pub open spec fn filtered_group(
    map: Option<Map<Seq<char>, ResolvedSpecModel>>,
    packages: Option<Map<PathId, PackageModel>>,
    wanted: bool,
) -> Option<Map<Seq<char>, ResolvedSpecModel>> {
    match map {
        None => None,
        Some(map) => Some(
            if wanted {
                table::filtered(
                    map,
                    |alias: Seq<char>, spec: ResolvedSpecModel|
                        is_resolvable(packages, alias, spec.version),
                )
            } else {
                Map::empty()
            },
        ),
    }
}

/// The map holds this alias.
pub open spec fn has_alias(
    map: Option<Map<Seq<char>, ResolvedSpecModel>>,
    alias: Seq<char>,
) -> bool {
    map is Some && map->0.dom().contains(alias)
}

/// Some group holds this alias.
pub open spec fn has_direct(project: ProjectModel, alias: Seq<char>) -> bool {
    ||| has_alias(project.dependencies, alias)
    ||| has_alias(project.optional_dependencies, alias)
    ||| has_alias(project.dev_dependencies, alias)
}

/// The specifiers of the direct dependencies that are there.
pub open spec fn filtered_specifiers(
    specifiers: Option<Map<Seq<char>, Seq<char>>>,
    project: ProjectModel,
) -> Option<Map<Seq<char>, Seq<char>>> {
    match specifiers {
        None => None,
        Some(specifiers) => {
            let rest = table::filtered(
                specifiers,
                |alias: Seq<char>, specifier: Seq<char>| has_direct(project, alias),
            );
            if rest == Map::<Seq<char>, Seq<char>>::empty() {
                None
            } else {
                Some(rest)
            }
        },
    }
}

/// The importer with the direct dependencies that are kept.
pub open spec fn filtered_project(
    project: ProjectModel,
    groups: Seq<DependencyGroup>,
    packages: Option<Map<PathId, PackageModel>>,
) -> ProjectModel {
    let kept = ProjectModel {
        dependencies: filtered_group(
            project.dependencies,
            packages,
            groups.contains(DependencyGroup::Prod),
        ),
        optional_dependencies: filtered_group(
            project.optional_dependencies,
            packages,
            groups.contains(DependencyGroup::Optional),
        ),
        dev_dependencies: filtered_group(
            project.dev_dependencies,
            packages,
            groups.contains(DependencyGroup::Dev),
        ),
        ..project
    };
    ProjectModel { specifiers: filtered_specifiers(project.specifiers, kept), ..kept }
}

/// The importers that are kept, with the direct dependencies that are.
pub open spec fn filtered_root(
    root: RootModel,
    ids: Set<Seq<char>>,
    groups: Seq<DependencyGroup>,
    packages: Option<Map<PathId, PackageModel>>,
) -> RootModel {
    match root {
        RootModel::Single(project) => RootModel::Single(
            filtered_project(project, groups, packages),
        ),
        RootModel::Multi(importers) => RootModel::Multi(
            Map::new(
                |id: Seq<char>| importers.dom().contains(id) && ids.contains(id),
                |id: Seq<char>| filtered_project(importers[id], groups, packages),
            ),
        ),
    }
}

/// The importers that are needed.
pub open spec fn needed_importers(scope: Scope, ids: Seq<Seq<char>>) -> Set<Seq<char>> {
    Set::new(|id: Seq<char>| is_needed(scope, ids, Node::Importer(id)))
}

/// The part of a lockfile that some importers need.
pub open spec fn current_lockfile(
    lockfile: Lockfile,
    ids: Seq<Seq<char>>,
    groups: Vec<DependencyGroup>,
    skipped: Vec<String>,
) -> LockfileModel {
    match lockfile.packages {
        None => LockfileModel {
            project_snapshot: filtered_root(
                lockfile.deep_view().project_snapshot,
                ids.to_set(),
                groups@,
                None,
            ),
            ..lockfile.deep_view()
        },
        Some(packages) => {
            let scope = Scope {
                packages: &packages,
                root: &lockfile.project_snapshot,
                groups: &groups,
                skipped: &skipped,
            };
            let kept = kept_packages(scope, ids);
            LockfileModel {
                project_snapshot: filtered_root(
                    lockfile.deep_view().project_snapshot,
                    needed_importers(scope, ids),
                    groups@,
                    Some(kept),
                ),
                packages: Some(kept),
                package_keys: Some(kept_keys(scope, ids)),
                ..lockfile.deep_view()
            }
        },
    }
}

/// The importer with this id.
pub fn project_snapshot_by_id<'a>(root: &'a RootProjectSnapshot, importer_id: &str) -> (project:
    Option<&'a ProjectSnapshot>)
    ensures
        project.deep_view() == project_by_id(root.deep_view(), importer_id@),
{
    match root {
        RootProjectSnapshot::Single(snapshot) => if text::same_text(importer_id, ".") {
            Some(snapshot)
        } else {
            None
        },
        RootProjectSnapshot::Multi(importers) => importers.get_text(importer_id),
    }
}

/// The importer that a link leads to.
pub fn importer_id_from_link<'a>(link: &'a str, root: &RootProjectSnapshot) -> (id: Option<&'a str>)
    ensures
        id.deep_view() == linked_importer(root.deep_view(), link@),
{
    match text::strip_prefix(link, "link:") {
        Some(id) => {
            if project_snapshot_by_id(root, id).is_some() {
                Some(id)
            } else {
                None
            }
        },
        None => None,
    }
}

/// An importer or a package by its position.
enum Spot {
    Importer(usize),
    Package(usize),
}

/// How many importers there are.
spec fn importer_count(root: RootProjectSnapshot) -> nat {
    match root {
        RootProjectSnapshot::Single(_) => 1,
        RootProjectSnapshot::Multi(importers) => importers.pairs().len(),
    }
}

/// The id of the importer at `j`.
spec fn importer_at(root: RootProjectSnapshot, j: int) -> Seq<char> {
    match root {
        RootProjectSnapshot::Single(_) => "."@,
        RootProjectSnapshot::Multi(importers) => importers.pairs()[j].0,
    }
}

spec fn spot_node(scope: Scope, spot: Spot) -> Node {
    match spot {
        Spot::Importer(j) => Node::Importer(importer_at(*scope.root, j as int)),
        Spot::Package(i) => Node::Package(i as int),
    }
}

spec fn is_spot(scope: Scope, spot: Spot) -> bool {
    match spot {
        Spot::Importer(j) => j < importer_count(*scope.root),
        Spot::Package(i) => i < scope.packages.pairs().len(),
    }
}

spec fn are_spots(scope: Scope, queue: Seq<Spot>) -> bool {
    forall|k: int| 0 <= k < queue.len() ==> is_spot(scope, #[trigger] queue[k])
}

/// The queue holds the node.
spec fn is_queued(scope: Scope, queue: Seq<Spot>, node: Node) -> bool {
    exists|k: int| 0 <= k < queue.len() && spot_node(scope, #[trigger] queue[k]) == node
}

/// The node has been seen.
spec fn is_seen(scope: Scope, importers: Seq<bool>, packages: Seq<bool>, node: Node) -> bool {
    match node {
        Node::Importer(id) => importer_seen(*scope.root, importers, id),
        Node::Package(i) => 0 <= i < packages.len() && packages[i],
    }
}

spec fn importer_seen(root: RootProjectSnapshot, importers: Seq<bool>, id: Seq<char>) -> bool {
    exists|j: int|
        0 <= j < importers.len() && importers[j] && #[trigger] importer_at(root, j) == id
}

proof fn lemma_queue_push(scope: Scope, queue: Seq<Spot>, spot: Spot)
    ensures
        forall|node: Node| #[trigger]
            is_queued(scope, queue.push(spot), node) <==> is_queued(scope, queue, node)
                || spot_node(scope, spot) == node,
        are_spots(scope, queue) && is_spot(scope, spot) ==> are_spots(scope, queue.push(spot)),
{
    let longer = queue.push(spot);
    assert forall|node: Node| #[trigger]
        is_queued(scope, longer, node) <==> is_queued(scope, queue, node) || spot_node(scope, spot)
            == node by {
        if is_queued(scope, queue, node) {
            let k = choose|k: int|
                0 <= k < queue.len() && spot_node(scope, #[trigger] queue[k]) == node;
            assert(longer[k] == queue[k]);
        }
        if spot_node(scope, spot) == node {
            assert(longer[queue.len() as int] == spot);
        }
        if is_queued(scope, longer, node) {
            let k = choose|k: int|
                0 <= k < longer.len() && spot_node(scope, #[trigger] longer[k]) == node;
            if k < queue.len() {
                assert(longer[k] == queue[k]);
            }
        }
    }
}

/// The position of an importer.
fn importer_spot(scope: &Scope, id: &str) -> (spot: Option<Spot>)
    ensures
        match spot {
            Some(spot) => is_spot(*scope, spot) && spot_node(*scope, spot) == Node::Importer(id@)
                && project_by_id(scope.root.deep_view(), id@) is Some,
            None => project_by_id(scope.root.deep_view(), id@) is None,
        },
{
    match scope.root {
        RootProjectSnapshot::Single(_) => if text::same_text(id, ".") {
            Some(Spot::Importer(0))
        } else {
            None
        },
        RootProjectSnapshot::Multi(importers) => {
            let key = text::copy(id);
            match importers.position(&key) {
                Some(j) => Some(Spot::Importer(j)),
                None => None,
            }
        },
    }
}

/// What a direct dependency leads to.
fn find_version_target(scope: &Scope, alias: &str, version: &ResolvedDependencyVersion) -> (spot:
    Option<Spot>)
    ensures
        match spot {
            Some(spot) => is_spot(*scope, spot) && target_of_version(
                *scope.packages,
                scope.root.deep_view(),
                alias@,
                version.deep_view(),
            ) == Some(spot_node(*scope, spot)),
            None => target_of_version(
                *scope.packages,
                scope.root.deep_view(),
                alias@,
                version.deep_view(),
            ) is None,
        },
{
    if let ResolvedDependencyVersion::Link(link) = version {
        if let Some(id) = importer_id_from_link(link.as_str(), scope.root) {
            return importer_spot(scope, id);
        }
    }
    match snapshots::dependency_path_from_resolved_version(alias, version) {
        Some(path) => match snapshots::resolve_package_snapshot_deduped(scope.packages, &path) {
            Some(i) => Some(Spot::Package(i)),
            None => None,
        },
        None => None,
    }
}

/// What a dependency of a package leads to.
fn find_dependency_target(
    scope: &Scope,
    alias: &str,
    dependency: &PackageSnapshotDependency,
) -> (spot: Option<Spot>)
    ensures
        match spot {
            Some(spot) => is_spot(*scope, spot) && target_of_dependency(
                *scope.packages,
                scope.root.deep_view(),
                alias@,
                dependency.deep_view(),
            ) == Some(spot_node(*scope, spot)),
            None => target_of_dependency(
                *scope.packages,
                scope.root.deep_view(),
                alias@,
                dependency.deep_view(),
            ) is None,
        },
{
    if let PackageSnapshotDependency::Link(link) = dependency {
        if let Some(id) = importer_id_from_link(link.as_str(), scope.root) {
            return importer_spot(scope, id);
        }
    }
    match snapshots::dependency_path_from_snapshot_dependency(alias, dependency) {
        Some(path) => match snapshots::resolve_package_snapshot_deduped(scope.packages, &path) {
            Some(i) => Some(Spot::Package(i)),
            None => None,
        },
        None => None,
    }
}

/// One of the first `n` direct dependencies leads to `node`.
spec fn pairs_lead(
    scope: Scope,
    pairs: Seq<(Seq<char>, ResolvedSpecModel)>,
    n: int,
    node: Node,
) -> bool {
    exists|j: int|
        0 <= j < n && target_of_version(
            *scope.packages,
            scope.root.deep_view(),
            (#[trigger] pairs[j]).0,
            pairs[j].1.version,
        ) == Some(node)
}

proof fn lemma_pairs_lead(scope: Scope, pairs: Seq<(Seq<char>, ResolvedSpecModel)>, node: Node)
    requires
        table::keys(pairs).no_duplicates(),
    ensures
        pairs_lead(scope, pairs, pairs.len() as int, node) <==> map_leads(
            scope,
            table::map_of(pairs),
            node,
        ),
{
    let map = table::map_of(pairs);
    if pairs_lead(scope, pairs, pairs.len() as int, node) {
        let j = choose|j: int|
            0 <= j < pairs.len() && target_of_version(
                *scope.packages,
                scope.root.deep_view(),
                (#[trigger] pairs[j]).0,
                pairs[j].1.version,
            ) == Some(node);
        table::lemma_map_entry(pairs, j);
        assert(map.dom().contains(pairs[j].0));
    }
    if map_leads(scope, map, node) {
        let alias = choose|alias: Seq<char>| #[trigger]
            map.dom().contains(alias) && target_of_version(
                *scope.packages,
                scope.root.deep_view(),
                alias,
                map[alias].version,
            ) == Some(node);
        let j = table::lemma_map_index(pairs, alias);
        assert(pairs[j].0 == alias);
    }
}

/// Queues what the direct dependencies of one group lead to.
fn enqueue_group(scope: &Scope, map: &ResolvedDependencyMap, queue: &mut Vec<Spot>)
    requires
        are_spots(*scope, old(queue)@),
    ensures
        are_spots(*scope, final(queue)@),
        forall|node: Node| #[trigger]
            is_queued(*scope, final(queue)@, node) <==> is_queued(*scope, old(queue)@, node)
                || map_leads(*scope, map.deep_view(), node),
{
    let n: usize = map.len();
    let ghost pairs = map.pairs();
    let ghost before = queue@;
    let mut i: usize = 0;
    while i < n
        invariant
            n == pairs.len(),
            pairs == map.pairs(),
            table::keys(pairs).no_duplicates(),
            i <= n,
            are_spots(*scope, queue@),
            forall|node: Node| #[trigger]
                is_queued(*scope, queue@, node) <==> is_queued(*scope, before, node) || pairs_lead(
                    *scope,
                    pairs,
                    i as int,
                    node,
                ),
        decreases n - i,
    {
        let ghost held = queue@;
        let found = find_version_target(
            scope,
            map.key_at(i).as_str(),
            &map.value_at(i).version,
        );
        if let Some(spot) = found {
            proof {
                lemma_queue_push(*scope, queue@, spot);
            }
            queue.push(spot);
        }
        proof {
            assert forall|node: Node| #[trigger]
                is_queued(*scope, queue@, node) <==> is_queued(*scope, before, node) || pairs_lead(
                    *scope,
                    pairs,
                    i + 1,
                    node,
                ) by {
                assert(is_queued(*scope, held, node) <==> is_queued(*scope, before, node)
                    || pairs_lead(*scope, pairs, i as int, node));
                let target = target_of_version(
                    *scope.packages,
                    scope.root.deep_view(),
                    pairs[i as int].0,
                    pairs[i as int].1.version,
                );
                if pairs_lead(*scope, pairs, i as int, node) || target == Some(node) {
                    assert(pairs_lead(*scope, pairs, i + 1, node));
                }
            }
        }
        i = i + 1;
    }
    proof {
        assert forall|node: Node| #[trigger]
            is_queued(*scope, queue@, node) <==> is_queued(*scope, before, node) || map_leads(
                *scope,
                map.deep_view(),
                node,
            ) by {
            lemma_pairs_lead(*scope, pairs, node);
        }
    }
}

/// One of the first `n` groups leads to `node`.
spec fn groups_lead(scope: Scope, project: ProjectModel, n: int, node: Node) -> bool {
    exists|g: int|
        0 <= g < n && #[trigger] group_leads(scope, project, scope.groups@[g], node)
}

/// Queues what the direct dependencies of an importer lead to.
fn enqueue_project_snapshot_dependencies(
    scope: &Scope,
    project: &ProjectSnapshot,
    queue: &mut Vec<Spot>,
)
    requires
        are_spots(*scope, old(queue)@),
    ensures
        are_spots(*scope, final(queue)@),
        forall|node: Node| #[trigger]
            is_queued(*scope, final(queue)@, node) <==> is_queued(*scope, old(queue)@, node)
                || project_leads(*scope, project.deep_view(), node),
{
    let ghost before = queue@;
    let ghost model = project.deep_view();
    let mut g: usize = 0;
    while g < scope.groups.len()
        invariant
            g <= scope.groups@.len(),
            model == project.deep_view(),
            are_spots(*scope, queue@),
            forall|node: Node| #[trigger]
                is_queued(*scope, queue@, node) <==> is_queued(*scope, before, node) || groups_lead(
                    *scope,
                    model,
                    g as int,
                    node,
                ),
        decreases scope.groups@.len() - g,
    {
        let ghost held = queue@;
        let group = scope.groups[g];
        if let Some(map) = project.get_map_by_group(group) {
            enqueue_group(scope, map, queue);
        }
        proof {
            assert forall|node: Node| #[trigger]
                is_queued(*scope, queue@, node) <==> is_queued(*scope, before, node) || groups_lead(
                    *scope,
                    model,
                    g + 1,
                    node,
                ) by {
                assert(is_queued(*scope, held, node) <==> is_queued(*scope, before, node)
                    || groups_lead(*scope, model, g as int, node));
                assert(group_leads(*scope, model, group, node) <==> group_leads(
                    *scope,
                    model,
                    scope.groups@[g as int],
                    node,
                ));
            }
        }
        g = g + 1;
    }
    proof {
        assert forall|node: Node| #[trigger]
            is_queued(*scope, queue@, node) <==> is_queued(*scope, before, node) || project_leads(
                *scope,
                model,
                node,
            ) by {
            assert(groups_lead(*scope, model, g as int, node) <==> project_leads(
                *scope,
                model,
                node,
            ));
        }
    }
}

/// One of the first `n` dependencies leads to `node`.
spec fn entries_lead(
    scope: Scope,
    pairs: Seq<(Seq<char>, SnapshotDependencyModel)>,
    n: int,
    node: Node,
) -> bool {
    exists|j: int|
        0 <= j < n && target_of_dependency(
            *scope.packages,
            scope.root.deep_view(),
            (#[trigger] pairs[j]).0,
            pairs[j].1,
        ) == Some(node)
}

proof fn lemma_entries_lead(
    scope: Scope,
    pairs: Seq<(Seq<char>, SnapshotDependencyModel)>,
    node: Node,
)
    requires
        table::keys(pairs).no_duplicates(),
    ensures
        entries_lead(scope, pairs, pairs.len() as int, node) <==> dependencies_lead(
            scope,
            table::map_of(pairs),
            node,
        ),
{
    let map = table::map_of(pairs);
    if entries_lead(scope, pairs, pairs.len() as int, node) {
        let j = choose|j: int|
            0 <= j < pairs.len() && target_of_dependency(
                *scope.packages,
                scope.root.deep_view(),
                (#[trigger] pairs[j]).0,
                pairs[j].1,
            ) == Some(node);
        table::lemma_map_entry(pairs, j);
        assert(map.dom().contains(pairs[j].0));
    }
    if dependencies_lead(scope, map, node) {
        let alias = choose|alias: Seq<char>| #[trigger]
            map.dom().contains(alias) && target_of_dependency(
                *scope.packages,
                scope.root.deep_view(),
                alias,
                map[alias],
            ) == Some(node);
        let j = table::lemma_map_index(pairs, alias);
        assert(pairs[j].0 == alias);
    }
}

/// Queues what the dependencies of a package lead to.
fn enqueue_dependencies(
    scope: &Scope,
    map: &TextMap<PackageSnapshotDependency>,
    queue: &mut Vec<Spot>,
)
    requires
        are_spots(*scope, old(queue)@),
    ensures
        are_spots(*scope, final(queue)@),
        forall|node: Node| #[trigger]
            is_queued(*scope, final(queue)@, node) <==> is_queued(*scope, old(queue)@, node)
                || dependencies_lead(*scope, map.deep_view(), node),
{
    let n: usize = map.len();
    let ghost pairs = map.pairs();
    let ghost before = queue@;
    let mut i: usize = 0;
    while i < n
        invariant
            n == pairs.len(),
            pairs == map.pairs(),
            table::keys(pairs).no_duplicates(),
            i <= n,
            are_spots(*scope, queue@),
            forall|node: Node| #[trigger]
                is_queued(*scope, queue@, node) <==> is_queued(*scope, before, node)
                    || entries_lead(*scope, pairs, i as int, node),
        decreases n - i,
    {
        let ghost held = queue@;
        let found = find_dependency_target(scope, map.key_at(i).as_str(), map.value_at(i));
        if let Some(spot) = found {
            proof {
                lemma_queue_push(*scope, queue@, spot);
            }
            queue.push(spot);
        }
        proof {
            assert forall|node: Node| #[trigger]
                is_queued(*scope, queue@, node) <==> is_queued(*scope, before, node)
                    || entries_lead(*scope, pairs, i + 1, node) by {
                assert(is_queued(*scope, held, node) <==> is_queued(*scope, before, node)
                    || entries_lead(*scope, pairs, i as int, node));
                let target = target_of_dependency(
                    *scope.packages,
                    scope.root.deep_view(),
                    pairs[i as int].0,
                    pairs[i as int].1,
                );
                if entries_lead(*scope, pairs, i as int, node) || target == Some(node) {
                    assert(entries_lead(*scope, pairs, i + 1, node));
                }
            }
        }
        i = i + 1;
    }
    proof {
        assert forall|node: Node| #[trigger]
            is_queued(*scope, queue@, node) <==> is_queued(*scope, before, node)
                || dependencies_lead(*scope, map.deep_view(), node) by {
            lemma_entries_lead(*scope, pairs, node);
        }
    }
}

/// The importers to begin with, as far as there are such.
fn first_spots(scope: &Scope, ids: &Vec<String>) -> (queue: Vec<Spot>)
    ensures
        are_spots(*scope, queue@),
        forall|node: Node| #[trigger]
            is_queued(*scope, queue@, node) <==> start(ids.deep_view()).contains(node)
                && project_by_id(scope.root.deep_view(), node->Importer_0) is Some,
{
    let mut queue: Vec<Spot> = Vec::new();
    let ghost all = ids.deep_view();
    let mut i: usize = 0;
    while i < ids.len()
        invariant
            i <= ids@.len(),
            all == ids.deep_view(),
            are_spots(*scope, queue@),
            forall|node: Node| #[trigger]
                is_queued(*scope, queue@, node) <==> start(all.take(i as int)).contains(node)
                    && project_by_id(scope.root.deep_view(), node->Importer_0) is Some,
        decreases ids@.len() - i,
    {
        let ghost held = queue@;
        if let Some(spot) = importer_spot(scope, ids[i].as_str()) {
            proof {
                lemma_queue_push(*scope, queue@, spot);
            }
            queue.push(spot);
        }
        proof {
            assert(all.take(i + 1) =~= all.take(i as int).push(all[i as int]));
            reach::lemma_push_contains(all.take(i as int), all[i as int]);
            assert(all[i as int] == ids@[i as int]@);
            assert forall|node: Node| #[trigger]
                is_queued(*scope, queue@, node) <==> start(all.take(i + 1)).contains(node)
                    && project_by_id(scope.root.deep_view(), node->Importer_0) is Some by {
                assert(is_queued(*scope, held, node) <==> start(all.take(i as int)).contains(node)
                    && project_by_id(scope.root.deep_view(), node->Importer_0) is Some);
                assert(all.take(i + 1).contains(node->Importer_0) <==> all.take(i as int).contains(
                    node->Importer_0,
                ) || node->Importer_0 == all[i as int]);
            }
        }
        i = i + 1;
    }
    assert(all.take(i as int) =~= all);
    queue
}

/// What has been seen, so far, of importers and packages.
struct Seen {
    importers: Vec<bool>,
    packages: Vec<bool>,
}

/// Everything that a seen node leads to has been seen or is in the queue.
spec fn is_followed(scope: Scope, seen: Seen, queue: Seq<Spot>, node: Node) -> bool {
    is_seen(scope, seen.importers@, seen.packages@, node) || is_queued(scope, queue, node)
}

spec fn seen_fits(scope: Scope, seen: Seen) -> bool {
    &&& seen.importers@.len() == importer_count(*scope.root)
    &&& seen.packages@.len() == scope.packages.pairs().len()
}

/// The invariant of the search.
spec fn search_invariant(scope: Scope, ids: Seq<Seq<char>>, seen: Seen, queue: Seq<Spot>) -> bool {
    &&& seen_fits(scope, seen)
    &&& are_spots(scope, queue)
    &&& forall|node: Node| #[trigger] is_queued(scope, queue, node) ==> is_needed(scope, ids, node)
    &&& forall|node: Node| #[trigger]
        is_seen(scope, seen.importers@, seen.packages@, node) ==> is_needed(scope, ids, node)
    &&& forall|id: Seq<char>|
        ids.contains(id) && project_by_id(scope.root.deep_view(), id) is Some
            ==> #[trigger] is_followed(scope, seen, queue, Node::Importer(id))
    &&& forall|from: Node, to: Node|
        is_seen(scope, seen.importers@, seen.packages@, from) && #[trigger] leads(scope, from, to)
            ==> is_followed(scope, seen, queue, to)
}

proof fn lemma_importer_at(root: RootProjectSnapshot, j: int)
    requires
        0 <= j < importer_count(root),
        match root {
            RootProjectSnapshot::Single(_) => true,
            RootProjectSnapshot::Multi(importers) => table::keys(
                importers.pairs(),
            ).no_duplicates(),
        },
    ensures
        project_by_id(root.deep_view(), importer_at(root, j)) is Some,
        root is Single ==> project_by_id(root.deep_view(), importer_at(root, j)) == Some(
            root->Single_0.deep_view(),
        ),
        root is Multi ==> project_by_id(root.deep_view(), importer_at(root, j)) == Some(
            root->Multi_0.pairs()[j].1,
        ),
{
    if let RootProjectSnapshot::Multi(importers) = root {
        table::lemma_map_entry(importers.pairs(), j);
    }
}

proof fn lemma_seen_more(
    scope: Scope,
    before: Seen,
    after: Seen,
    spot: Spot,
)
    requires
        seen_fits(scope, before),
        seen_fits(scope, after),
        is_spot(scope, spot),
        match spot {
            Spot::Importer(j) => after.importers@ == before.importers@.update(j as int, true)
                && after.packages@ == before.packages@,
            Spot::Package(i) => after.packages@ == before.packages@.update(i as int, true)
                && after.importers@ == before.importers@,
        },
    ensures
        forall|node: Node| #[trigger]
            is_seen(scope, after.importers@, after.packages@, node) <==> is_seen(
                scope,
                before.importers@,
                before.packages@,
                node,
            ) || node == spot_node(scope, spot),
{
    assert forall|node: Node| #[trigger]
        is_seen(scope, after.importers@, after.packages@, node) <==> is_seen(
            scope,
            before.importers@,
            before.packages@,
            node,
        ) || node == spot_node(scope, spot) by {
        if let Node::Importer(id) = node {
            if importer_seen(*scope.root, before.importers@, id) {
                let j = choose|j: int|
                    0 <= j < before.importers@.len() && before.importers@[j] && #[trigger]
                    importer_at(*scope.root, j) == id;
                assert(after.importers@[j] && importer_at(*scope.root, j) == id);
            }
            if importer_seen(*scope.root, after.importers@, id) {
                let j = choose|j: int|
                    0 <= j < after.importers@.len() && after.importers@[j] && #[trigger]
                    importer_at(*scope.root, j) == id;
                if before.importers@[j] {
                    assert(before.importers@[j] && importer_at(*scope.root, j) == id);
                }
            }
            if let Spot::Importer(j) = spot {
                if node == spot_node(scope, spot) {
                    assert(after.importers@[j as int] && importer_at(*scope.root, j as int) == id);
                }
            }
        }
    }
}

/// One step of the search keeps its invariant.
proof fn lemma_search_step(
    scope: Scope,
    ids: Seq<Seq<char>>,
    before: Seen,
    old_queue: Seq<Spot>,
    after: Seen,
    queue: Seq<Spot>,
    node: Node,
)
    requires
        search_invariant(scope, ids, before, old_queue),
        seen_fits(scope, after),
        are_spots(scope, queue),
        is_needed(scope, ids, node),
        forall|n: Node| #[trigger]
            is_seen(scope, after.importers@, after.packages@, n) <==> is_seen(
                scope,
                before.importers@,
                before.packages@,
                n,
            ) || n == node,
        forall|n: Node| #[trigger]
            is_queued(scope, old_queue, n) ==> is_queued(scope, queue, n) || n == node,
        forall|n: Node| #[trigger] is_queued(scope, queue, n) ==> is_queued(scope, old_queue, n)
            || leads(scope, node, n),
        forall|n: Node| #[trigger] leads(scope, node, n) ==> is_queued(scope, queue, n),
    ensures
        search_invariant(scope, ids, after, queue),
{
    assert forall|n: Node| #[trigger] is_queued(scope, queue, n) implies is_needed(
        scope,
        ids,
        n,
    ) by {
        if !is_queued(scope, old_queue, n) {
            assert(step(scope)(node, n));
            reach::lemma_reachable_step(start(ids), step(scope), node, n);
        }
    }
    assert forall|id: Seq<char>|
        ids.contains(id) && project_by_id(scope.root.deep_view(), id) is Some implies #[trigger]
    is_followed(scope, after, queue, Node::Importer(id)) by {
        assert(is_followed(scope, before, old_queue, Node::Importer(id)));
    }
    assert forall|from: Node, to: Node|
        is_seen(scope, after.importers@, after.packages@, from) && #[trigger] leads(
            scope,
            from,
            to,
        ) implies is_followed(scope, after, queue, to) by {
        if from != node {
            assert(is_seen(scope, before.importers@, before.packages@, from));
            assert(is_followed(scope, before, old_queue, to));
        }
    }
}

/// Once the queue is empty, what was seen is what is needed.
proof fn lemma_search_done(scope: Scope, ids: Seq<Seq<char>>, seen: Seen)
    requires
        search_invariant(scope, ids, seen, Seq::empty()),
    ensures
        forall|i: int|
            0 <= i < scope.packages.pairs().len() ==> (#[trigger] seen.packages@[i] <==> is_needed(
                scope,
                ids,
                Node::Package(i),
            )),
        forall|id: Seq<char>|
            project_by_id(scope.root.deep_view(), id) is Some ==> (#[trigger] importer_seen(
                *scope.root,
                seen.importers@,
                id,
            ) <==> is_needed(scope, ids, Node::Importer(id))),
{
    let closed = Set::new(
        |node: Node|
            is_seen(scope, seen.importers@, seen.packages@, node) || node is Importer
                && project_by_id(scope.root.deep_view(), node->Importer_0) is None,
    );
    assert(reach::is_closed(closed, start(ids), step(scope))) by {
        assert forall|node: Node| start(ids).contains(node) implies closed.contains(node) by {
            let id = node->Importer_0;
            if project_by_id(scope.root.deep_view(), id) is Some {
                assert(is_followed(scope, seen, Seq::empty(), Node::Importer(id)));
            }
        }
        assert forall|p: Node, q: Node| closed.contains(p) && #[trigger] step(scope)(
            p,
            q,
        ) implies closed.contains(q) by {
            assert(leads(scope, p, q));
            assert(is_followed(scope, seen, Seq::empty(), q));
        }
    }
    assert forall|i: int| 0 <= i < scope.packages.pairs().len() implies (
    #[trigger] seen.packages@[i] <==> is_needed(scope, ids, Node::Package(i))) by {
        assert(is_seen(scope, seen.importers@, seen.packages@, Node::Package(i))
            <==> seen.packages@[i]);
        if is_needed(scope, ids, Node::Package(i)) {
            assert(closed.contains(Node::Package(i)));
        }
    }
    assert forall|id: Seq<char>| project_by_id(scope.root.deep_view(), id) is Some implies (
    #[trigger] importer_seen(*scope.root, seen.importers@, id) <==> is_needed(
        scope,
        ids,
        Node::Importer(id),
    )) by {
        assert(is_seen(scope, seen.importers@, seen.packages@, Node::Importer(id))
            <==> importer_seen(*scope.root, seen.importers@, id));
        if is_needed(scope, ids, Node::Importer(id)) {
            assert(closed.contains(Node::Importer(id)));
        }
    }
}

/// How many marks are not set.
spec fn unset(marks: Seq<bool>) -> nat
    decreases marks.len(),
{
    if marks.len() == 0 {
        0
    } else {
        unset(marks.drop_last()) + (if marks.last() {
            0nat
        } else {
            1nat
        })
    }
}

proof fn lemma_unset(marks: Seq<bool>, i: int)
    requires
        0 <= i < marks.len(),
        !marks[i],
    ensures
        unset(marks.update(i, true)) + 1 == unset(marks),
    decreases marks.len(),
{
    let after = marks.update(i, true);
    if i == marks.len() - 1 {
        assert(after.drop_last() =~= marks.drop_last());
    } else {
        assert(after.drop_last() =~= marks.drop_last().update(i, true));
        lemma_unset(marks.drop_last(), i);
    }
}

/// Finds the importers and the packages that are needed.
fn search(scope: &Scope, ids: &Vec<String>) -> (seen: Seen)
    ensures
        seen_fits(*scope, seen),
        forall|i: int|
            0 <= i < scope.packages.pairs().len() ==> (#[trigger] seen.packages@[i] <==> is_needed(
                *scope,
                ids.deep_view(),
                Node::Package(i),
            )),
        forall|id: Seq<char>|
            project_by_id(scope.root.deep_view(), id) is Some ==> (#[trigger] importer_seen(
                *scope.root,
                seen.importers@,
                id,
            ) <==> is_needed(*scope, ids.deep_view(), Node::Importer(id))),
{
    let importer_count: usize = match scope.root {
        RootProjectSnapshot::Single(_) => 1,
        RootProjectSnapshot::Multi(importers) => importers.len(),
    };
    let package_count: usize = scope.packages.len();
    let mut seen = Seen {
        importers: table::no_marks(importer_count),
        packages: table::no_marks(package_count),
    };
    let mut queue = first_spots(scope, ids);
    let ghost all = ids.deep_view();
    proof {
        assert forall|node: Node| #[trigger] is_queued(*scope, queue@, node) implies is_needed(
            *scope,
            all,
            node,
        ) by {
            reach::lemma_reachable_root(start(all), step(*scope), node);
        }
        assert forall|id: Seq<char>|
            all.contains(id) && project_by_id(
                scope.root.deep_view(),
                id,
            ) is Some implies #[trigger] is_followed(*scope, seen, queue@, Node::Importer(id)) by {
            assert(start(all).contains(Node::Importer(id)));
            assert(is_queued(*scope, queue@, Node::Importer(id)));
        }
        assert(search_invariant(*scope, all, seen, queue@));
    }
    while queue.len() > 0
        invariant
            all == ids.deep_view(),
            search_invariant(*scope, all, seen, queue@),
            match *scope.root {
                RootProjectSnapshot::Single(_) => true,
                RootProjectSnapshot::Multi(importers) => table::keys(
                    importers.pairs(),
                ).no_duplicates(),
            },
        decreases unset(seen.importers@) + unset(seen.packages@), queue@.len(),
    {
        let ghost before = seen;
        let ghost held = queue@;
        let spot = queue.pop().unwrap();
        let ghost node = spot_node(*scope, spot);
        proof {
            assert(held =~= queue@.push(spot));
            lemma_queue_push(*scope, queue@, spot);
            assert(is_queued(*scope, held, node));
            assert(is_spot(*scope, held[held.len() - 1]));
        }
        let ghost rest = queue@;
        match spot {
            Spot::Importer(j) => {
                if seen.importers[j] {
                    proof {
                        assert(importer_seen(
                            *scope.root,
                            seen.importers@,
                            importer_at(*scope.root, j as int),
                        ));
                        lemma_search_skip(*scope, all, seen, held, queue@, node);
                    }
                } else {
                    proof {
                        lemma_unset(seen.importers@, j as int);
                        lemma_importer_at(*scope.root, j as int);
                    }
                    seen.importers.set(j, true);
                    match scope.root {
                        RootProjectSnapshot::Single(project) => {
                            enqueue_project_snapshot_dependencies(scope, project, &mut queue);
                        },
                        RootProjectSnapshot::Multi(importers) => {
                            enqueue_project_snapshot_dependencies(
                                scope,
                                importers.value_at(j),
                                &mut queue,
                            );
                        },
                    }
                    proof {
                        lemma_seen_more(*scope, before, seen, spot);
                        lemma_search_step(*scope, all, before, held, seen, queue@, node);
                    }
                }
            },
            Spot::Package(i) => {
                if seen.packages[i] {
                    proof {
                        lemma_search_skip(*scope, all, seen, held, queue@, node);
                    }
                } else {
                    proof {
                        lemma_unset(seen.packages@, i as int);
                    }
                    seen.packages.set(i, true);
                    let path = scope.packages.key_at(i).text();
                    if !value::list_contains(scope.skipped, path.as_str()) {
                        let all_dependencies = snapshots::package_dependency_map(
                            scope.packages.value_at(i),
                        );
                        enqueue_dependencies(scope, &all_dependencies, &mut queue);
                    }
                    proof {
                        lemma_seen_more(*scope, before, seen, spot);
                        lemma_search_step(*scope, all, before, held, seen, queue@, node);
                    }
                }
            },
        }
    }
    proof {
        assert(queue@ =~= Seq::empty());
        lemma_search_done(*scope, all, seen);
    }
    seen
}

/// Taking a node from the queue that has been seen keeps the invariant.
proof fn lemma_search_skip(
    scope: Scope,
    ids: Seq<Seq<char>>,
    seen: Seen,
    held: Seq<Spot>,
    queue: Seq<Spot>,
    node: Node,
)
    requires
        search_invariant(scope, ids, seen, held),
        are_spots(scope, queue),
        is_seen(scope, seen.importers@, seen.packages@, node),
        forall|n: Node| #[trigger]
            is_queued(scope, held, n) <==> is_queued(scope, queue, n) || n == node,
    ensures
        search_invariant(scope, ids, seen, queue),
{
    assert forall|n: Node| #[trigger] is_queued(scope, queue, n) implies is_needed(
        scope,
        ids,
        n,
    ) by {
        assert(is_queued(scope, held, n));
    }
    assert forall|id: Seq<char>|
        ids.contains(id) && project_by_id(scope.root.deep_view(), id) is Some implies #[trigger]
    is_followed(scope, seen, queue, Node::Importer(id)) by {
        assert(is_followed(scope, seen, held, Node::Importer(id)));
    }
    assert forall|from: Node, to: Node|
        is_seen(scope, seen.importers@, seen.packages@, from) && #[trigger] leads(
            scope,
            from,
            to,
        ) implies is_followed(scope, seen, queue, to) by {
        assert(is_followed(scope, seen, held, to));
    }
}

/// Whether a group is among those looked at.
fn has_group(groups: &Vec<DependencyGroup>, group: DependencyGroup) -> (yes: bool)
    ensures
        yes == groups@.contains(group),
{
    let mut i: usize = 0;
    while i < groups.len()
        invariant
            i <= groups@.len(),
            forall|j: int| 0 <= j < i ==> groups@[j] != group,
        decreases groups@.len() - i,
    {
        if groups[i] == group {
            assert(groups@[i as int] == group);
            return true;
        }
        i = i + 1;
    }
    false
}

proof fn lemma_resolved_has_specifier(
    pairs: Seq<(PathId, PackageModel)>,
    candidate: PathId,
)
    requires
        table::keys(pairs).no_duplicates(),
    ensures
        snapshots::resolved_index(pairs, candidate) is Some <==> has_specifier(
            table::map_of(pairs),
            candidate.specifier,
        ),
{
    let map = table::map_of(pairs);
    if snapshots::resolved_index(pairs, candidate) is Some {
        let i = snapshots::resolved_index(pairs, candidate)->0;
        snapshots::lemma_resolved_index(pairs, candidate);
        table::lemma_map_entry(pairs, i);
        assert(map.dom().contains(pairs[i].0));
    }
    if has_specifier(map, candidate.specifier) {
        let path = choose|path: PathId| #[trigger]
            map.dom().contains(path) && path.specifier == candidate.specifier;
        let i = table::lemma_map_index(pairs, path);
        snapshots::lemma_specifier_found(pairs, candidate.specifier, 0, i);
    }
}

/// Whether a direct dependency is kept.
fn is_resolvable_dependency(
    packages: Option<&PackageMap>,
    alias: &str,
    version: &ResolvedDependencyVersion,
) -> (yes: bool)
    ensures
        yes == is_resolvable(packages.deep_view(), alias@, version.deep_view()),
{
    if let ResolvedDependencyVersion::Link(link) = version {
        if text::has_prefix(link.as_str(), "link:") {
            return true;
        }
    }
    match packages {
        None => true,
        Some(packages) => match snapshots::dependency_path_from_resolved_version(alias, version) {
            Some(path) => {
                let found = snapshots::resolve_package_snapshot(packages, &path);
                proof {
                    lemma_resolved_has_specifier(packages.pairs(), path.ident());
                }
                found.is_some()
            },
            None => false,
        },
    }
}

/// The direct dependencies of a group that are kept.
fn filter_resolved_dependency_map(
    map: &Option<ResolvedDependencyMap>,
    packages: Option<&PackageMap>,
    include_group: bool,
) -> (kept: Option<ResolvedDependencyMap>)
    ensures
        kept.deep_view() == filtered_group(
            map.deep_view(),
            packages.deep_view(),
            include_group,
        ),
{
    let map = match map {
        Some(map) => map,
        None => {
            return None;
        },
    };
    if !include_group {
        return Some(Table::new());
    }
    let n: usize = map.len();
    let ghost pairs = map.pairs();
    let ghost model = packages.deep_view();
    let ghost keep = |alias: Seq<char>, spec: ResolvedSpecModel|
        is_resolvable(model, alias, spec.version);
    let mut marks: Vec<bool> = Vec::new();
    while marks.len() < n
        invariant
            n == pairs.len(),
            pairs == map.pairs(),
            model == packages.deep_view(),
            marks@.len() <= n,
            forall|i: int|
                0 <= i < marks@.len() ==> #[trigger] marks@[i] == is_resolvable(
                    model,
                    pairs[i].0,
                    pairs[i].1.version,
                ),
        decreases n - marks@.len(),
    {
        let i: usize = marks.len();
        let mark = is_resolvable_dependency(
            packages,
            map.key_at(i).as_str(),
            &map.value_at(i).version,
        );
        marks.push(mark);
    }
    proof {
        table::lemma_marked_filtered(pairs, marks@, keep);
    }
    Some(map.keep(&marks))
}

/// Whether the map holds an alias.
fn map_has_alias(map: &Option<ResolvedDependencyMap>, alias: &String) -> (yes: bool)
    ensures
        yes == has_alias(map.deep_view(), alias@),
{
    match map {
        Some(map) => map.contains_key(alias),
        None => false,
    }
}

/// The specifiers of the direct dependencies that are there.
fn filter_specifiers(
    specifiers: &Option<TextMap<String>>,
    project: &ProjectSnapshot,
) -> (kept: Option<TextMap<String>>)
    ensures
        kept.deep_view() == filtered_specifiers(specifiers.deep_view(), project.deep_view()),
{
    let specifiers = match specifiers {
        Some(specifiers) => specifiers,
        None => {
            return None;
        },
    };
    let n: usize = specifiers.len();
    let ghost pairs = specifiers.pairs();
    let ghost model = project.deep_view();
    let ghost keep = |alias: Seq<char>, specifier: Seq<char>| has_direct(model, alias);
    let mut marks: Vec<bool> = Vec::new();
    while marks.len() < n
        invariant
            n == pairs.len(),
            pairs == specifiers.pairs(),
            model == project.deep_view(),
            marks@.len() <= n,
            forall|i: int|
                0 <= i < marks@.len() ==> #[trigger] marks@[i] == has_direct(model, pairs[i].0),
        decreases n - marks@.len(),
    {
        let alias = specifiers.key_at(marks.len());
        let mark = map_has_alias(&project.dependencies, alias) || map_has_alias(
            &project.optional_dependencies,
            alias,
        ) || map_has_alias(&project.dev_dependencies, alias);
        marks.push(mark);
    }
    proof {
        table::lemma_marked_filtered(pairs, marks@, keep);
    }
    let kept = specifiers.keep(&marks);
    if kept.is_empty() {
        None
    } else {
        Some(kept)
    }
}

/// The importer with the direct dependencies that are kept.
pub fn filter_project_snapshot(
    project: &ProjectSnapshot,
    groups: &Vec<DependencyGroup>,
    packages: Option<&PackageMap>,
) -> (kept: ProjectSnapshot)
    ensures
        kept.deep_view() == filtered_project(
            project.deep_view(),
            groups@,
            packages.deep_view(),
        ),
{
    let mut kept = ProjectSnapshot {
        specifiers: project.specifiers.duplicate(),
        dependencies: filter_resolved_dependency_map(
            &project.dependencies,
            packages,
            has_group(groups, DependencyGroup::Prod),
        ),
        optional_dependencies: filter_resolved_dependency_map(
            &project.optional_dependencies,
            packages,
            has_group(groups, DependencyGroup::Optional),
        ),
        dev_dependencies: filter_resolved_dependency_map(
            &project.dev_dependencies,
            packages,
            has_group(groups, DependencyGroup::Dev),
        ),
        dependencies_meta: project.dependencies_meta.duplicate(),
        publish_directory: project.publish_directory.duplicate(),
    };
    let specifiers = filter_specifiers(&project.specifiers, &kept);
    kept.specifiers = specifiers;
    kept
}

/// The importers that are marked, with the direct dependencies that are kept.
fn filter_importers(
    importers: &TextMap<ProjectSnapshot>,
    marks: &Vec<bool>,
    groups: &Vec<DependencyGroup>,
    packages: Option<&PackageMap>,
) -> (kept: TextMap<ProjectSnapshot>)
    requires
        marks@.len() == importers.pairs().len(),
    ensures
        kept.deep_view() == Map::new(
            |id: Seq<char>|
                importers.deep_view().dom().contains(id) && table::is_marked(
                    importers.pairs(),
                    marks@,
                    id,
                ),
            |id: Seq<char>|
                filtered_project(importers.deep_view()[id], groups@, packages.deep_view()),
        ),
{
    let ghost f = |id: Seq<char>, project: ProjectModel|
        filtered_project(project, groups@, packages.deep_view());
    let chosen = importers.keep(marks);
    let n: usize = chosen.len();
    let ghost pairs = chosen.pairs();
    let mut kept: TextMap<ProjectSnapshot> = Table::new();
    let mut i: usize = 0;
    while i < n
        invariant
            n == pairs.len(),
            pairs == chosen.pairs(),
            table::keys(pairs).no_duplicates(),
            i <= n,
            kept.pairs().len() == i,
            forall|j: int|
                0 <= j < i ==> #[trigger] kept.pairs()[j] == (
                    pairs[j].0,
                    filtered_project(pairs[j].1, groups@, packages.deep_view()),
                ),
        decreases n - i,
    {
        let project = filter_project_snapshot(chosen.value_at(i), groups, packages);
        proof {
            table::lemma_put_next(pairs, kept.pairs(), i as int, project.deep_view());
        }
        kept.insert(chosen.key_at(i).clone(), project);
        i = i + 1;
    }
    proof {
        table::lemma_mapped_values(pairs, kept.pairs(), f);
        assert(kept.deep_view() =~= Map::new(
            |id: Seq<char>|
                importers.deep_view().dom().contains(id) && table::is_marked(
                    importers.pairs(),
                    marks@,
                    id,
                ),
            |id: Seq<char>|
                filtered_project(importers.deep_view()[id], groups@, packages.deep_view()),
        ));
    }
    kept
}

/// Which importers are in a list of ids.
fn mark_listed(importers: &TextMap<ProjectSnapshot>, ids: &Vec<String>) -> (marks: Vec<bool>)
    ensures
        marks@.len() == importers.pairs().len(),
        forall|id: Seq<char>|
            importers.deep_view().dom().contains(id) ==> (#[trigger] table::is_marked(
                importers.pairs(),
                marks@,
                id,
            ) <==> ids.deep_view().contains(id)),
{
    let n: usize = importers.len();
    let ghost pairs = importers.pairs();
    let ghost all = ids.deep_view();
    let mut marks: Vec<bool> = Vec::new();
    while marks.len() < n
        invariant
            n == pairs.len(),
            pairs == importers.pairs(),
            all == ids.deep_view(),
            marks@.len() <= n,
            forall|i: int|
                0 <= i < marks@.len() ==> #[trigger] marks@[i] == all.contains(pairs[i].0),
        decreases n - marks@.len(),
    {
        let mark = value::list_contains(ids, importers.key_at(marks.len()).as_str());
        marks.push(mark);
    }
    proof {
        assert forall|id: Seq<char>| importers.deep_view().dom().contains(id) implies (
        #[trigger] table::is_marked(pairs, marks@, id) <==> all.contains(id)) by {
            let i = table::lemma_map_index(pairs, id);
            if all.contains(id) {
                assert(marks@[i] && pairs[i].0 == id);
            }
        }
    }
    marks
}

/// The part of a lockfile that the importers with these ids need, with what
/// they need in these groups and without what is skipped.
pub fn current_lockfile_for_installers(
    lockfile: &Lockfile,
    importer_ids: &Vec<String>,
    dependency_groups: &Vec<DependencyGroup>,
    skipped: &Vec<String>,
) -> (current: Lockfile)
    ensures
        current.deep_view() == current_lockfile(
            *lockfile,
            importer_ids.deep_view(),
            *dependency_groups,
            *skipped,
        ),
{
    let ghost ids = importer_ids.deep_view();
    let packages = match &lockfile.packages {
        Some(packages) => packages,
        None => {
            let project_snapshot = match &lockfile.project_snapshot {
                RootProjectSnapshot::Single(project) => RootProjectSnapshot::Single(
                    filter_project_snapshot(project, dependency_groups, None),
                ),
                RootProjectSnapshot::Multi(importers) => {
                    let marks = mark_listed(importers, importer_ids);
                    let kept = filter_importers(importers, &marks, dependency_groups, None);
                    proof {
                        assert(RootModel::Multi(kept.deep_view()) == filtered_root(
                            lockfile.project_snapshot.deep_view(),
                            ids.to_set(),
                            dependency_groups@,
                            None,
                        )) by {
                            assert(kept.deep_view() =~= filtered_root(
                                lockfile.project_snapshot.deep_view(),
                                ids.to_set(),
                                dependency_groups@,
                                None,
                            )->Multi_0);
                        }
                    }
                    RootProjectSnapshot::Multi(kept)
                },
            };
            return with_contents(lockfile, project_snapshot, None);
        },
    };
    let scope = Scope {
        packages,
        root: &lockfile.project_snapshot,
        groups: dependency_groups,
        skipped,
    };
    let seen = search(&scope, importer_ids);
    let n: usize = packages.len();
    let ghost pairs = packages.pairs();
    let mut marks: Vec<bool> = Vec::new();
    while marks.len() < n
        invariant
            n == pairs.len(),
            n == seen.packages@.len(),
            pairs == packages.pairs(),
            *scope.packages == *packages,
            scope.skipped.deep_view() == skipped.deep_view(),
            marks@.len() <= n,
            forall|i: int|
                0 <= i < marks@.len() ==> #[trigger] marks@[i] == (seen.packages@[i]
                    && !is_skipped(scope, i)),
        decreases n - marks@.len(),
    {
        let i: usize = marks.len();
        let path = packages.key_at(i).text();
        let mark = seen.packages[i] && !value::list_contains(skipped, path.as_str());
        marks.push(mark);
    }
    let kept = packages.keep(&marks);
    proof {
        assert forall|path: PathId| packages.deep_view().dom().contains(path) implies (
        table::is_marked(pairs, marks@, path) <==> is_kept(scope, ids, path)) by {
            if table::is_marked(pairs, marks@, path) {
                let i = choose|i: int|
                    0 <= i < marks@.len() && marks@[i] && (#[trigger] pairs[i]).0 == path;
                assert(seen.packages@[i]);
                assert(is_needed(scope, ids, Node::Package(i)));
                assert(scope.packages.pairs()[i].0 == path);
            }
            if is_kept(scope, ids, path) {
                let i = choose|i: int|
                    0 <= i < scope.packages.pairs().len() && (#[trigger] scope.packages.pairs()[i]).0
                        == path && is_needed(scope, ids, Node::Package(i)) && !is_skipped(scope, i);
                assert(seen.packages@[i]);
                assert(marks@[i] && pairs[i].0 == path);
            }
        }
        assert(kept.deep_view() =~= kept_packages(scope, ids));
        packages.lemma_named();
        assert(kept.full_keys() =~= kept_keys(scope, ids));
    }
    let project_snapshot = match &lockfile.project_snapshot {
        RootProjectSnapshot::Single(project) => RootProjectSnapshot::Single(
            filter_project_snapshot(project, dependency_groups, Some(&kept)),
        ),
        RootProjectSnapshot::Multi(importers) => {
            let chosen = filter_importers(
                importers,
                &seen.importers,
                dependency_groups,
                Some(&kept),
            );
            proof {
                let expected = filtered_root(
                    lockfile.project_snapshot.deep_view(),
                    needed_importers(scope, ids),
                    dependency_groups@,
                    Some(kept.deep_view()),
                )->Multi_0;
                assert forall|id: Seq<char>| importers.deep_view().dom().contains(id) implies (
                table::is_marked(importers.pairs(), seen.importers@, id) <==> is_needed(
                    scope,
                    ids,
                    Node::Importer(id),
                )) by {
                    assert(project_by_id(scope.root.deep_view(), id) is Some);
                    lemma_importer_seen_marked(*scope.root, seen.importers@, id);
                }
                assert(chosen.deep_view() =~= expected);
            }
            RootProjectSnapshot::Multi(chosen)
        },
    };
    with_contents(lockfile, project_snapshot, Some(kept))
}

proof fn lemma_importer_seen_marked(root: RootProjectSnapshot, marks: Seq<bool>, id: Seq<char>)
    requires
        root is Multi,
    ensures
        importer_seen(root, marks, id) <==> table::is_marked(root->Multi_0.pairs(), marks, id),
{
    let pairs = root->Multi_0.pairs();
    if importer_seen(root, marks, id) {
        let j = choose|j: int|
            0 <= j < marks.len() && marks[j] && #[trigger] importer_at(root, j) == id;
        assert(marks[j] && pairs[j].0 == id);
    }
    if table::is_marked(pairs, marks, id) {
        let j = choose|j: int| 0 <= j < marks.len() && marks[j] && (#[trigger] pairs[j]).0 == id;
        assert(marks[j] && importer_at(root, j) == id);
    }
}

/// The lockfile with other importers and packages.
fn with_contents(
    lockfile: &Lockfile,
    project_snapshot: RootProjectSnapshot,
    packages: Option<PackageMap>,
) -> (changed: Lockfile)
    ensures
        changed.deep_view() == (LockfileModel {
            project_snapshot: project_snapshot.deep_view(),
            packages: packages.deep_view(),
            package_keys: lockfile::full_keys(packages),
            ..lockfile.deep_view()
        }),
{
    Lockfile {
        lockfile_version: lockfile.lockfile_version.duplicate(),
        settings: lockfile.settings.duplicate(),
        never_built_dependencies: lockfile.never_built_dependencies.duplicate(),
        ignored_optional_dependencies: lockfile.ignored_optional_dependencies.duplicate(),
        overrides: lockfile.overrides.duplicate(),
        package_extensions_checksum: lockfile.package_extensions_checksum.duplicate(),
        patched_dependencies: lockfile.patched_dependencies.duplicate(),
        pnpmfile_checksum: lockfile.pnpmfile_checksum.duplicate(),
        catalogs: lockfile.catalogs.duplicate(),
        time: lockfile.time.duplicate(),
        extra_fields: lockfile.extra_fields.duplicate(),
        project_snapshot,
        packages,
    }
}

/// The ids of the importers of a lockfile.
pub open spec fn importer_ids_of(root: RootProjectSnapshot) -> Seq<Seq<char>> {
    match root {
        RootProjectSnapshot::Single(_) => seq!["."@],
        RootProjectSnapshot::Multi(importers) => table::keys(importers.pairs()),
    }
}

/// The texts of `all` that are not in `others`.
pub open spec fn without(all: Seq<Seq<char>>, others: Seq<Seq<char>>) -> Seq<Seq<char>>
    decreases all.len(),
{
    if all.len() == 0 {
        all
    } else if others.contains(all.last()) {
        without(all.drop_last(), others)
    } else {
        without(all.drop_last(), others).push(all.last())
    }
}

/// The importers of a lockfile that are not in a list.
fn other_importers(root: &RootProjectSnapshot, ids: &Vec<String>) -> (others: Vec<String>)
    ensures
        others.deep_view() == without(importer_ids_of(*root), ids.deep_view()),
{
    let mut all: Vec<String> = Vec::new();
    match root {
        RootProjectSnapshot::Single(_) => {
            all.push(text::copy("."));
            assert(all.deep_view() =~= importer_ids_of(*root));
        },
        RootProjectSnapshot::Multi(importers) => {
            let n: usize = importers.len();
            let ghost pairs = importers.pairs();
            let mut i: usize = 0;
            while i < n
                invariant
                    n == pairs.len(),
                    pairs == importers.pairs(),
                    i <= n,
                    all.deep_view() == table::keys(pairs).take(i as int),
                decreases n - i,
            {
                let ghost before = all.deep_view();
                all.push(importers.key_at(i).clone());
                assert(all.deep_view() =~= before.push(pairs[i as int].0));
                i = i + 1;
                assert(all.deep_view() =~= table::keys(pairs).take(i as int));
            }
            assert(all.deep_view() =~= table::keys(pairs));
        },
    }
    let ghost model = all.deep_view();
    let mut others: Vec<String> = Vec::new();
    let mut i: usize = 0;
    assert(others.deep_view() =~= without(model.take(0), ids.deep_view()));
    while i < all.len()
        invariant
            i <= all@.len(),
            model == all.deep_view(),
            others.deep_view() == without(model.take(i as int), ids.deep_view()),
        decreases all@.len() - i,
    {
        let ghost before = others.deep_view();
        assert(model.take(i + 1).drop_last() =~= model.take(i as int));
        assert(model.take(i + 1).last() == all@[i as int]@);
        if !value::list_contains(ids, all[i].as_str()) {
            others.push(all[i].clone());
            assert(others.deep_view() =~= before.push(model[i as int]));
        }
        i = i + 1;
    }
    assert(model.take(i as int) =~= model);
    others
}

/// The importers of two lockfiles; those of the second count where both are of
/// workspaces.
pub open spec fn merged_importers(first: RootModel, second: RootModel) -> RootModel {
    match (first, second) {
        (RootModel::Multi(a), RootModel::Multi(b)) => RootModel::Multi(a.union_prefer_right(b)),
        _ => first,
    }
}

/// What two lockfiles hold by the keys of their packages; that of the first
/// counts.
pub open spec fn merged_packages<T>(
    first: Option<Map<PathId, T>>,
    second: Option<Map<PathId, T>>,
) -> Option<Map<PathId, T>> {
    match (first, second) {
        (_, None) => first,
        (None, Some(b)) => Some(b),
        (Some(a), Some(b)) => Some(b.union_prefer_right(a)),
    }
}

/// The part of a lockfile that some importers need, together with what an
/// earlier one held of the others.
pub open spec fn preserving_lockfile(
    lockfile: Lockfile,
    existing: Option<Lockfile>,
    existing_skipped: Vec<String>,
    ids: Seq<Seq<char>>,
    groups: Vec<DependencyGroup>,
    skipped: Vec<String>,
) -> LockfileModel {
    let current = current_lockfile(lockfile, ids, groups, skipped);
    match existing {
        None => current,
        Some(existing) => {
            let others = without(importer_ids_of(existing.project_snapshot), ids);
            if others.len() == 0 {
                current
            } else {
                let kept = current_lockfile(existing, others, groups, existing_skipped);
                LockfileModel {
                    project_snapshot: merged_importers(
                        current.project_snapshot,
                        kept.project_snapshot,
                    ),
                    packages: merged_packages(current.packages, kept.packages),
                    package_keys: merged_packages(current.package_keys, kept.package_keys),
                    ..current
                }
            }
        },
    }
}

/// The part of a lockfile that the importers with these ids need, together with
/// what the lockfile of the last installation holds of the other importers.
pub fn current_lockfile_for_installers_preserving_unselected_importers(
    lockfile: &Lockfile,
    existing_current_lockfile: Option<&Lockfile>,
    existing_skipped: &Vec<String>,
    importer_ids: &Vec<String>,
    dependency_groups: &Vec<DependencyGroup>,
    skipped: &Vec<String>,
) -> (current: Lockfile)
    ensures
        current.deep_view() == preserving_lockfile(
            *lockfile,
            match existing_current_lockfile {
                Some(existing) => Some(*existing),
                None => None,
            },
            *existing_skipped,
            importer_ids.deep_view(),
            *dependency_groups,
            *skipped,
        ),
{
    let mut current = current_lockfile_for_installers(
        lockfile,
        importer_ids,
        dependency_groups,
        skipped,
    );
    let existing = match existing_current_lockfile {
        Some(existing) => existing,
        None => {
            return current;
        },
    };
    let others = other_importers(&existing.project_snapshot, importer_ids);
    if others.len() == 0 {
        return current;
    }
    let kept = current_lockfile_for_installers(
        existing,
        &others,
        dependency_groups,
        existing_skipped,
    );
    let ghost first = current.deep_view();
    if let RootProjectSnapshot::Multi(extra) = &kept.project_snapshot {
        let merged = match &current.project_snapshot {
            RootProjectSnapshot::Multi(importers) => {
                let mut all = importers.duplicate();
                all.extend(extra);
                Some(all)
            },
            RootProjectSnapshot::Single(_) => None,
        };
        if let Some(all) = merged {
            current.project_snapshot = RootProjectSnapshot::Multi(all);
        }
    }
    assert(current.project_snapshot.deep_view() == merged_importers(
        first.project_snapshot,
        kept.deep_view().project_snapshot,
    ));
    if let Some(extra) = &kept.packages {
        let mut all = match &current.packages {
            Some(packages) => packages.duplicate(),
            None => Table::new(),
        };
        all.fill(extra);
        proof {
            if first.packages is None {
                assert(all.deep_view() =~= extra.deep_view());
                assert(all.full_keys() =~= extra.full_keys());
            }
        }
        current.packages = Some(all);
    }
    current
}

/// The packages to install, together with what the last installation kept for
/// the importers that are not selected, and what is skipped, in order.
pub open spec fn with_unselected(
    packages: Option<Map<PathId, PackageModel>>,
    skipped: Seq<Seq<char>>,
    current: Option<Lockfile>,
    existing_skipped: Vec<String>,
    selected: Seq<Seq<char>>,
    groups: Vec<DependencyGroup>,
) -> (Option<Map<PathId, PackageModel>>, Seq<Seq<char>>) {
    if packages is None || current is None {
        (packages, skipped)
    } else {
        let others = without(importer_ids_of(current->0.project_snapshot), selected);
        if others.len() == 0 {
            (packages, skipped)
        } else {
            (
                merged_packages(
                    packages,
                    current_lockfile(current->0, others, groups, existing_skipped).packages,
                ),
                sorted::in_order(skipped.to_set().union(existing_skipped.deep_view().to_set())),
            )
        }
    }
}

/// The keys of the packages to install, together with those of what the last
/// installation kept for the importers that are not selected.
pub open spec fn keys_with_unselected(
    keys: Option<Map<PathId, PathModel>>,
    current: Option<Lockfile>,
    existing_skipped: Vec<String>,
    selected: Seq<Seq<char>>,
    groups: Vec<DependencyGroup>,
) -> Option<Map<PathId, PathModel>> {
    if keys is None || current is None {
        keys
    } else {
        let others = without(importer_ids_of(current->0.project_snapshot), selected);
        if others.len() == 0 {
            keys
        } else {
            merged_packages(
                keys,
                current_lockfile(current->0, others, groups, existing_skipped).package_keys,
            )
        }
    }
}

/// The packages to install, together with what the last installation kept for
/// the importers that are not selected.
pub fn preserve_current_packages_for_unselected_importers(
    filtered_packages: Option<PackageMap>,
    skipped: Vec<String>,
    current: Option<&Lockfile>,
    existing_skipped: &Vec<String>,
    selected_importer_ids: &Vec<String>,
    dependency_groups: &Vec<DependencyGroup>,
) -> (result: (Option<PackageMap>, Vec<String>))
    ensures
        result.deep_view() == with_unselected(
            filtered_packages.deep_view(),
            skipped.deep_view(),
            match current {
                Some(current) => Some(*current),
                None => None,
            },
            *existing_skipped,
            selected_importer_ids.deep_view(),
            *dependency_groups,
        ),
        lockfile::full_keys(result.0) == keys_with_unselected(
            lockfile::full_keys(filtered_packages),
            match current {
                Some(current) => Some(*current),
                None => None,
            },
            *existing_skipped,
            selected_importer_ids.deep_view(),
            *dependency_groups,
        ),
{
    let mut merged = match filtered_packages {
        Some(packages) => packages,
        None => {
            return (None, skipped);
        },
    };
    let current = match current {
        Some(current) => current,
        None => {
            return (Some(merged), skipped);
        },
    };
    let others = other_importers(&current.project_snapshot, selected_importer_ids);
    if others.len() == 0 {
        return (Some(merged), skipped);
    }
    let kept = current_lockfile_for_installers(
        current,
        &others,
        dependency_groups,
        existing_skipped,
    );
    if let Some(extra) = &kept.packages {
        merged.fill(extra);
    }
    let ghost mine = skipped.deep_view();
    let mut all = skipped;
    let mut more = existing_skipped.duplicate();
    let ghost theirs = more.deep_view();
    all.append(&mut more);
    proof {
        assert(all.deep_view() =~= mine + theirs);
        assert forall|s: Seq<char>| (mine + theirs).to_set().contains(s) <==> mine.to_set().union(
            theirs.to_set(),
        ).contains(s) by {
            if mine.contains(s) {
                assert((mine + theirs)[mine.index_of(s)] == s);
            }
            if theirs.contains(s) {
                assert((mine + theirs)[mine.len() + theirs.index_of(s)] == s);
            }
        }
        assert((mine + theirs).to_set() =~= mine.to_set().union(theirs.to_set()));
    }
    (Some(merged), sorted::sorted_texts(&all))
}

/// The part of packages that counts when they are compared.
pub open spec fn bare_packages(packages: Map<PathId, PackageModel>) -> Map<PathId, PackageModel> {
    table::bare_values::<PathId, PackageSnapshot>(packages)
}

/// The part of an importer that counts when it is compared.
pub open spec fn bare_project(project: Option<ProjectModel>) -> Option<ProjectModel> {
    match project {
        Some(project) => Some(ProjectSnapshot::bare(project)),
        None => None,
    }
}

/// Every package of the second is one of the first.
pub open spec fn has_packages(
    current: Option<Map<PathId, PackageModel>>,
    expected: Option<Map<PathId, PackageModel>>,
) -> bool {
    match (current, expected) {
        (_, None) => true,
        (Some(current), Some(expected)) => bare_packages(expected).submap_of(bare_packages(current)),
        (None, Some(_)) => false,
    }
}

/// The lockfile of the last installation is what is expected of it for one
/// importer. It may hold more packages and other importers.
pub open spec fn matches_expected(
    current: LockfileModel,
    expected: LockfileModel,
    id: Seq<char>,
) -> bool {
    &&& has_packages(current.packages, expected.packages)
    &&& bare_project(project_by_id(current.project_snapshot, id)) == bare_project(
        project_by_id(expected.project_snapshot, id),
    )
    &&& current == (LockfileModel {
        packages: current.packages,
        package_keys: current.package_keys,
        project_snapshot: current.project_snapshot,
        ..expected
    })
}

/// Whether every expected package is there.
fn current_lockfile_contains_expected_packages(current: &Lockfile, expected: &Lockfile) -> (yes:
    bool)
    ensures
        yes == has_packages(current.deep_view().packages, expected.deep_view().packages),
{
    match (&current.packages, &expected.packages) {
        (_, None) => true,
        (Some(current), Some(expected)) => expected.with_bare_values().is_part_of(
            &current.with_bare_values(),
        ),
        (None, Some(_)) => false,
    }
}

/// Whether the lockfile of the last installation is what is expected of it for
/// one importer.
pub fn current_lockfile_matches_expected(
    current: &Lockfile,
    expected: &Lockfile,
    importer_id: &str,
) -> (yes: bool)
    ensures
        yes == matches_expected(current.deep_view(), expected.deep_view(), importer_id@),
{
    let same_project = match (
        project_snapshot_by_id(&current.project_snapshot, importer_id),
        project_snapshot_by_id(&expected.project_snapshot, importer_id),
    ) {
        (Some(a), Some(b)) => a.to_bare().same(&b.to_bare()),
        (None, None) => true,
        _ => false,
    };
    current.lockfile_version.same(&expected.lockfile_version) && current.settings.same(
        &expected.settings,
    ) && current.never_built_dependencies.same(&expected.never_built_dependencies)
        && current.ignored_optional_dependencies.same(&expected.ignored_optional_dependencies)
        && current.overrides.same(&expected.overrides) && current.package_extensions_checksum.same(
        &expected.package_extensions_checksum,
    ) && current.patched_dependencies.same(&expected.patched_dependencies)
        && current.pnpmfile_checksum.same(&expected.pnpmfile_checksum) && current.catalogs.same(
        &expected.catalogs,
    ) && current.time.same(&expected.time) && current.extra_fields.same(&expected.extra_fields)
        && current_lockfile_contains_expected_packages(current, expected) && same_project
}

/// What is kept of a lockfile comes from it unchanged, is not skipped, and is
/// closed: what an importer or a kept package leads to is skipped or kept.
pub proof fn law_kept_packages_closed(scope: Scope, ids: Seq<Seq<char>>, node: Node, i: int)
    requires
        table::keys(scope.packages.pairs()).no_duplicates(),
        0 <= i < scope.packages.pairs().len(),
        match node {
            Node::Importer(id) => ids.contains(id),
            Node::Package(k) => 0 <= k < scope.packages.pairs().len() && kept_packages(
                scope,
                ids,
            ).dom().contains(scope.packages.pairs()[k].0),
        },
        leads(scope, node, Node::Package(i)),
        !is_skipped(scope, i),
    ensures
        kept_packages(scope, ids).dom().contains(scope.packages.pairs()[i].0),
        kept_packages(scope, ids)[scope.packages.pairs()[i].0] == scope.packages.pairs()[i].1,
{
    let pairs = scope.packages.pairs();
    match node {
        Node::Importer(id) => {
            reach::lemma_reachable_root(start(ids), step(scope), node);
        },
        Node::Package(k) => {
            let path = pairs[k].0;
            assert(is_kept(scope, ids, path));
            let j = choose|j: int|
                0 <= j < scope.packages.pairs().len() && (#[trigger] scope.packages.pairs()[j]).0
                    == path && is_needed(scope, ids, Node::Package(j)) && !is_skipped(scope, j);
            table::lemma_map_entry(pairs, j);
            table::lemma_map_entry(pairs, k);
            assert(j == k);
        },
    }
    assert(is_needed(scope, ids, node));
    assert(step(scope)(node, Node::Package(i)));
    reach::lemma_reachable_step(start(ids), step(scope), node, Node::Package(i));
    table::lemma_map_entry(pairs, i);
    assert(pairs[i].0 == scope.packages.pairs()[i].0);
    assert(is_kept(scope, ids, pairs[i].0));
}

/// Nothing that is skipped is kept, and what is kept comes from the lockfile.
pub proof fn law_kept_packages_come_from_lockfile(scope: Scope, ids: Seq<Seq<char>>)
    ensures
        kept_packages(scope, ids).submap_of(scope.packages.deep_view()),
        forall|path: PathId| #[trigger]
            kept_packages(scope, ids).dom().contains(path) ==> exists|i: int|
                0 <= i < scope.packages.pairs().len() && (#[trigger] scope.packages.pairs()[i]).0
                    == path && !is_skipped(scope, i),
{
    assert forall|path: PathId| #[trigger]
        kept_packages(scope, ids).dom().contains(path) implies exists|i: int|
        0 <= i < scope.packages.pairs().len() && (#[trigger] scope.packages.pairs()[i]).0 == path
            && !is_skipped(scope, i) by {
        assert(is_kept(scope, ids, path));
    }
}

/// What an earlier lockfile held of the importers that are not selected says
/// nothing of an importer.
pub open spec fn spares(
    existing: Option<Lockfile>,
    existing_skipped: Vec<String>,
    ids: Seq<Seq<char>>,
    groups: Vec<DependencyGroup>,
    id: Seq<char>,
) -> bool {
    match existing {
        None => true,
        Some(existing) => match current_lockfile(
            existing,
            without(importer_ids_of(existing.project_snapshot), ids),
            groups,
            existing_skipped,
        ).project_snapshot {
            RootModel::Multi(importers) => !importers.dom().contains(id),
            RootModel::Single(_) => true,
        },
    }
}

/// The lockfile that is kept after an installation of some importers is what is
/// expected for each of them, whatever is kept of the others. Left out is an
/// importer that one of the others links to: of that the earlier state is kept.
pub proof fn law_kept_lockfile_is_expected(
    lockfile: Lockfile,
    existing: Option<Lockfile>,
    existing_skipped: Vec<String>,
    ids: Seq<Seq<char>>,
    groups: Vec<DependencyGroup>,
    skipped: Vec<String>,
    id: Seq<char>,
)
    requires
        spares(existing, existing_skipped, ids, groups, id),
    ensures
        matches_expected(
            preserving_lockfile(lockfile, existing, existing_skipped, ids, groups, skipped),
            current_lockfile(lockfile, ids, groups, skipped),
            id,
        ),
{
    let current = current_lockfile(lockfile, ids, groups, skipped);
    if existing is Some {
        let others = without(importer_ids_of(existing->0.project_snapshot), ids);
        let kept = current_lockfile(existing->0, others, groups, existing_skipped);
        if current.packages is Some && kept.packages is Some {
            assert(bare_packages(current.packages->0).submap_of(
                bare_packages(merged_packages(current.packages, kept.packages)->0),
            ));
        }
    }
    if current.packages is Some {
        assert(bare_packages(current.packages->0).submap_of(bare_packages(current.packages->0)));
    }
}

/// What is left of a group is part of it, and all of it that is wanted: nothing where
/// the group is not, and of one that is, every link to another importer and every
/// package that is kept.
pub open spec fn group_is_narrowed(
    kept: Option<Map<Seq<char>, ResolvedSpecModel>>,
    map: Option<Map<Seq<char>, ResolvedSpecModel>>,
    wanted: bool,
    packages: Option<Map<PathId, PackageModel>>,
    alias: Seq<char>,
) -> bool {
    &&& kept is Some <==> map is Some
    &&& !wanted ==> !has_alias(kept, alias)
    &&& has_alias(kept, alias) ==> has_alias(map, alias) && kept->0[alias] == map->0[alias]
    &&& wanted && packages is None && has_alias(map, alias) ==> has_alias(kept, alias)
    &&& wanted && has_alias(map, alias) && packages is Some ==> match map->0[alias].version {
        ResolvedVersionModel::Link(link) => text::starts_with(link, "link:"@) ==> has_alias(
            kept,
            alias,
        ),
        ResolvedVersionModel::PkgVerPeer(suffix) => has_alias(kept, alias) <==> exists|path: PathId|
            #[trigger] packages->0.dom().contains(path) && path.specifier
                == lockfile::SpecifierId::Registry(
                lockfile::NameVerPeerId { name: alias, suffix: lockfile::ver_peer_id(suffix) },
            ),
        ResolvedVersionModel::PkgNameVerPeer(specifier) => has_alias(kept, alias) <==> exists|
            path: PathId,
        | #[trigger]
            packages->0.dom().contains(path) && path.specifier == lockfile::SpecifierId::Registry(
                lockfile::name_ver_peer_id(specifier),
            ),
    }
}

/// What is left of an importer: of its groups those that are wanted, of those what
/// links to importers or is kept, and of its specifiers those of what is left.
pub proof fn law_importer_is_narrowed(
    kept: ProjectModel,
    project: ProjectModel,
    groups: Seq<DependencyGroup>,
    packages: Option<Map<PathId, PackageModel>>,
    alias: Seq<char>,
)
    requires
        kept == filtered_project(project, groups, packages),
    ensures
        group_is_narrowed(
            kept.dependencies,
            project.dependencies,
            groups.contains(DependencyGroup::Prod),
            packages,
            alias,
        ),
        group_is_narrowed(
            kept.optional_dependencies,
            project.optional_dependencies,
            groups.contains(DependencyGroup::Optional),
            packages,
            alias,
        ),
        group_is_narrowed(
            kept.dev_dependencies,
            project.dev_dependencies,
            groups.contains(DependencyGroup::Dev),
            packages,
            alias,
        ),
        kept.specifiers is Some && kept.specifiers->0.dom().contains(alias) <==> (
        project.specifiers is Some && project.specifiers->0.dom().contains(alias) && (has_alias(
            kept.dependencies,
            alias,
        ) || has_alias(kept.optional_dependencies, alias) || has_alias(
            kept.dev_dependencies,
            alias,
        ))),
        kept.specifiers is Some && kept.specifiers->0.dom().contains(alias)
            ==> kept.specifiers->0[alias] == project.specifiers->0[alias],
        kept.publish_directory == project.publish_directory,
        kept.dependencies_meta == project.dependencies_meta,
{
    if project.specifiers is Some {
        let rest = table::filtered(
            project.specifiers->0,
            |name: Seq<char>, specifier: Seq<char>| has_direct(kept, name),
        );
        assert(kept.specifiers == filtered_specifiers(
            project.specifiers,
            ProjectModel { specifiers: project.specifiers, ..kept },
        ));
        let same = table::filtered(
            project.specifiers->0,
            |name: Seq<char>, specifier: Seq<char>|
                has_direct(ProjectModel { specifiers: project.specifiers, ..kept }, name),
        );
        assert(rest =~= same);
        assert(rest.dom().contains(alias) ==> rest != Map::<Seq<char>, Seq<char>>::empty());
    }
}

/// The lockfile of what is installed has every importer that was selected, with what is
/// left of it, and nothing but importers of the lockfile; what it says of the settings
/// is what the lockfile says.
pub proof fn law_selected_importers_are_kept(
    current: LockfileModel,
    lockfile: Lockfile,
    ids: Seq<Seq<char>>,
    groups: Vec<DependencyGroup>,
    skipped: Vec<String>,
    id: Seq<char>,
)
    requires
        current == current_lockfile(lockfile, ids, groups, skipped),
    ensures
        lockfile.project_snapshot is Single ==> current.project_snapshot is Single
            && current.project_snapshot->Single_0 == filtered_project(
            lockfile.project_snapshot.deep_view()->Single_0,
            groups@,
            current.packages,
        ),
        lockfile.project_snapshot is Multi ==> {
            let before = lockfile.project_snapshot.deep_view()->Multi_0;
            let after = current.project_snapshot->Multi_0;
            &&& current.project_snapshot is Multi
            &&& ids.contains(id) && before.dom().contains(id) ==> after.dom().contains(id)
            &&& after.dom().contains(id) ==> before.dom().contains(id) && after[id]
                == filtered_project(before[id], groups@, current.packages)
            &&& lockfile.packages is None && !ids.contains(id) ==> !after.dom().contains(id)
        },
        lockfile.packages is None <==> current.packages is None,
        current.lockfile_version == lockfile.deep_view().lockfile_version,
        current.settings == lockfile.deep_view().settings,
        current.overrides == lockfile.deep_view().overrides,
        current.catalogs == lockfile.deep_view().catalogs,
        current.pnpmfile_checksum == lockfile.deep_view().pnpmfile_checksum,
        current.package_extensions_checksum == lockfile.deep_view().package_extensions_checksum,
        current.patched_dependencies == lockfile.deep_view().patched_dependencies,
{
    if let Some(packages) = lockfile.packages {
        let scope = Scope {
            packages: &packages,
            root: &lockfile.project_snapshot,
            groups: &groups,
            skipped: &skipped,
        };
        if ids.contains(id) {
            assert(start(ids).contains(Node::Importer(id)));
            reach::lemma_reachable_root(start(ids), step(scope), Node::Importer(id));
        }
    }
}

/// The package that a direct dependency of a selected importer is used as is kept, out
/// of every group that is wanted, unless it is skipped.
pub proof fn law_direct_dependencies_are_kept(
    scope: Scope,
    ids: Seq<Seq<char>>,
    id: Seq<char>,
    project: ProjectModel,
    alias: Seq<char>,
    spec: ResolvedSpecModel,
    i: int,
)
    requires
        table::keys(scope.packages.pairs()).no_duplicates(),
        ids.contains(id),
        match scope.root.deep_view() {
            RootModel::Single(only) => id == "."@ && only == project,
            RootModel::Multi(importers) => importers.dom().contains(id) && importers[id] == project,
        },
        ({
            ||| scope.groups@.contains(DependencyGroup::Prod) && has_alias(
                project.dependencies,
                alias,
            ) && project.dependencies->0[alias] == spec
            ||| scope.groups@.contains(DependencyGroup::Optional) && has_alias(
                project.optional_dependencies,
                alias,
            ) && project.optional_dependencies->0[alias] == spec
            ||| scope.groups@.contains(DependencyGroup::Dev) && has_alias(
                project.dev_dependencies,
                alias,
            ) && project.dev_dependencies->0[alias] == spec
        }),
        0 <= i < scope.packages.pairs().len(),
        match spec.version {
            ResolvedVersionModel::PkgVerPeer(suffix) => snapshots::deduped_index(
                *scope.packages,
                snapshots::registry_key(lockfile::NameVerPeerModel { name: alias, suffix }),
            ) == Some(i),
            ResolvedVersionModel::PkgNameVerPeer(specifier) => snapshots::deduped_index(
                *scope.packages,
                snapshots::registry_key(specifier),
            ) == Some(i),
            ResolvedVersionModel::Link(_) => false,
        },
        !scope.skipped.deep_view().contains(lockfile::path_text(scope.packages.key(i))),
    ensures
        kept_packages(scope, ids).dom().contains(scope.packages.pairs()[i].0),
        kept_packages(scope, ids)[scope.packages.pairs()[i].0] == scope.packages.pairs()[i].1,
{
    let node = Node::Package(i);
    let g = if scope.groups@.contains(DependencyGroup::Prod) && has_alias(
        project.dependencies,
        alias,
    ) && project.dependencies->0[alias] == spec {
        DependencyGroup::Prod
    } else if scope.groups@.contains(DependencyGroup::Optional) && has_alias(
        project.optional_dependencies,
        alias,
    ) && project.optional_dependencies->0[alias] == spec {
        DependencyGroup::Optional
    } else {
        DependencyGroup::Dev
    };
    let k = scope.groups@.index_of(g);
    assert(scope.groups@[k] == g);
    let map = lockfile::group_map(project, g)->0;
    assert(map.dom().contains(alias));
    assert(target_of_version(
        *scope.packages,
        scope.root.deep_view(),
        alias,
        map[alias].version,
    ) == Some(node));
    assert(map_leads(scope, map, node));
    assert(group_leads(scope, project, scope.groups@[k], node));
    assert(project_leads(scope, project, node));
    assert(project_by_id(scope.root.deep_view(), id) == Some(project));
    assert(leads(scope, Node::Importer(id), node));
    law_kept_packages_closed(scope, ids, Node::Importer(id), i);
}

/// The package that a dependency of a kept package is used as is kept, unless it is
/// skipped.
pub proof fn law_further_dependencies_are_kept(
    scope: Scope,
    ids: Seq<Seq<char>>,
    k: int,
    alias: Seq<char>,
    i: int,
)
    requires
        table::keys(scope.packages.pairs()).no_duplicates(),
        0 <= k < scope.packages.pairs().len(),
        0 <= i < scope.packages.pairs().len(),
        kept_packages(scope, ids).dom().contains(scope.packages.pairs()[k].0),
        snapshots::all_dependencies(scope.packages.pairs()[k].1).dom().contains(alias),
        match snapshots::all_dependencies(scope.packages.pairs()[k].1)[alias] {
            SnapshotDependencyModel::PkgVerPeer(suffix) => snapshots::deduped_index(
                *scope.packages,
                snapshots::registry_key(lockfile::NameVerPeerModel { name: alias, suffix }),
            ) == Some(i),
            SnapshotDependencyModel::PkgNameVerPeer(specifier) => snapshots::deduped_index(
                *scope.packages,
                snapshots::registry_key(specifier),
            ) == Some(i),
            SnapshotDependencyModel::DependencyPath(path) => snapshots::deduped_index(
                *scope.packages,
                path,
            ) == Some(i),
            SnapshotDependencyModel::Link(_) => false,
        },
        !scope.skipped.deep_view().contains(lockfile::path_text(scope.packages.key(i))),
    ensures
        kept_packages(scope, ids).dom().contains(scope.packages.pairs()[i].0),
{
    let node = Node::Package(i);
    let pairs = scope.packages.pairs();
    let all = snapshots::all_dependencies(pairs[k].1);
    assert(target_of_dependency(*scope.packages, scope.root.deep_view(), alias, all[alias])
        == Some(node));
    assert(dependencies_lead(scope, all, node));
    assert(is_kept(scope, ids, pairs[k].0));
    let j = choose|j: int|
        0 <= j < scope.packages.pairs().len() && (#[trigger] scope.packages.pairs()[j]).0
            == pairs[k].0 && is_needed(scope, ids, Node::Package(j)) && !is_skipped(scope, j);
    table::lemma_map_entry(pairs, j);
    table::lemma_map_entry(pairs, k);
    assert(leads(scope, Node::Package(k), node));
    law_kept_packages_closed(scope, ids, Node::Package(k), i);
}

/// What was installed for importers that are not selected stays in the lockfile of what
/// is installed, and what the selected ones need comes before it.
pub proof fn law_unselected_importers_are_preserved(
    current: LockfileModel,
    lockfile: Lockfile,
    existing: Lockfile,
    existing_skipped: Vec<String>,
    ids: Seq<Seq<char>>,
    groups: Vec<DependencyGroup>,
    skipped: Vec<String>,
    id: Seq<char>,
    path: PathId,
)
    requires
        current == preserving_lockfile(
            lockfile,
            Some(existing),
            existing_skipped,
            ids,
            groups,
            skipped,
        ),
        lockfile.project_snapshot is Multi,
        existing.project_snapshot is Multi,
    ensures
        current.project_snapshot is Multi,
        existing.project_snapshot.deep_view()->Multi_0.dom().contains(id) && !ids.contains(id)
            ==> (current.project_snapshot->Multi_0).dom().contains(id),
        ids.contains(id) && lockfile.project_snapshot.deep_view()->Multi_0.dom().contains(id)
            ==> (current.project_snapshot->Multi_0).dom().contains(id),
        ({
            let own = current_lockfile(lockfile, ids, groups, skipped).packages;
            own is Some && own->0.dom().contains(path) ==> current.packages is Some
                && current.packages->0.dom().contains(path) && current.packages->0[path]
                == own->0[path]
        }),
{
    let others = without(importer_ids_of(existing.project_snapshot), ids);
    lemma_without(importer_ids_of(existing.project_snapshot), ids, id);
    law_selected_importers_are_kept(
        current_lockfile(lockfile, ids, groups, skipped),
        lockfile,
        ids,
        groups,
        skipped,
        id,
    );
    law_selected_importers_are_kept(
        current_lockfile(existing, others, groups, existing_skipped),
        existing,
        others,
        groups,
        existing_skipped,
        id,
    );
}

proof fn lemma_without(all: Seq<Seq<char>>, others: Seq<Seq<char>>, id: Seq<char>)
    ensures
        without(all, others).contains(id) <==> all.contains(id) && !others.contains(id),
    decreases all.len(),
{
    if all.len() > 0 {
        let rest = all.drop_last();
        lemma_without(rest, others, id);
        reach::lemma_push_contains(rest, all.last());
        assert(all =~= rest.push(all.last()));
        reach::lemma_push_contains(without(rest, others), all.last());
        assert(all.contains(id) <==> rest.contains(id) || id == all.last());
    }
}

/// What is installed is what is expected only where it has every expected package, says
/// the same of the importer, and was made with the same overrides, extensions, patches,
/// catalogs and settings; and it is where it is the expected lockfile itself.
pub proof fn law_expected_lockfile_is_matched(
    yes: bool,
    current: LockfileModel,
    expected: LockfileModel,
    id: Seq<char>,
    path: PathId,
)
    requires
        yes == matches_expected(current, expected, id),
    ensures
        yes && expected.packages is Some && expected.packages->0.dom().contains(path)
            ==> current.packages is Some && current.packages->0.dom().contains(path)
            && current.packages->0[path].resolution == expected.packages->0[path].resolution,
        yes ==> {
            &&& project_by_id(current.project_snapshot, id) is Some <==> project_by_id(
                expected.project_snapshot,
                id,
            ) is Some
            &&& current.overrides == expected.overrides
            &&& current.settings == expected.settings
            &&& current.catalogs == expected.catalogs
            &&& current.lockfile_version == expected.lockfile_version
            &&& current.pnpmfile_checksum == expected.pnpmfile_checksum
            &&& current.package_extensions_checksum == expected.package_extensions_checksum
            &&& current.patched_dependencies == expected.patched_dependencies
        },
        current == expected ==> yes,
{
    if yes && expected.packages is Some && expected.packages->0.dom().contains(path) {
        let mine = bare_packages(expected.packages->0);
        let theirs = bare_packages(current.packages->0);
        assert(mine.dom().contains(path));
        assert(theirs.dom().contains(path) && mine[path] == theirs[path]);
    }
    if current == expected && current.packages is Some {
        let own = bare_packages(current.packages->0);
        assert(own.submap_of(own));
    }
}

/// An importer that a selected one links to, in a group that is wanted, is kept as well.
pub proof fn law_linked_importers_are_kept(
    scope: Scope,
    ids: Seq<Seq<char>>,
    id: Seq<char>,
    importers: Map<Seq<char>, ProjectModel>,
    alias: Seq<char>,
    linked: Seq<char>,
)
    requires
        scope.root.deep_view() == RootModel::Multi(importers),
        ids.contains(id),
        importers.dom().contains(id),
        importers.dom().contains(linked),
        ({
            ||| scope.groups@.contains(DependencyGroup::Prod) && has_alias(
                importers[id].dependencies,
                alias,
            ) && importers[id].dependencies->0[alias].version == ResolvedVersionModel::Link(
                "link:"@ + linked,
            )
            ||| scope.groups@.contains(DependencyGroup::Dev) && has_alias(
                importers[id].dev_dependencies,
                alias,
            ) && importers[id].dev_dependencies->0[alias].version == ResolvedVersionModel::Link(
                "link:"@ + linked,
            )
        }),
    ensures
        needed_importers(scope, ids).contains(linked),
{
    let link = "link:"@ + linked;
    reveal_strlit("link:");
    assert(link.subrange(0, 5) =~= "link:"@);
    assert(text::tail(link, 5) =~= linked);
    let project = importers[id];
    let node = Node::Importer(linked);
    let g = if scope.groups@.contains(DependencyGroup::Prod) && has_alias(
        project.dependencies,
        alias,
    ) && project.dependencies->0[alias].version == ResolvedVersionModel::Link(link) {
        DependencyGroup::Prod
    } else {
        DependencyGroup::Dev
    };
    let k = scope.groups@.index_of(g);
    assert(scope.groups@[k] == g);
    let map = lockfile::group_map(project, g)->0;
    assert(map.dom().contains(alias));
    assert(linked_importer(scope.root.deep_view(), link) == Some(linked));
    assert(target_of_version(
        *scope.packages,
        scope.root.deep_view(),
        alias,
        map[alias].version,
    ) == Some(node));
    assert(map_leads(scope, map, node));
    assert(group_leads(scope, project, scope.groups@[k], node));
    assert(project_leads(scope, project, node));
    assert(leads(scope, Node::Importer(id), node));
    assert(start(ids).contains(Node::Importer(id)));
    reach::lemma_reachable_root(start(ids), step(scope), Node::Importer(id));
    assert(step(scope)(Node::Importer(id), node));
    reach::lemma_reachable_step(start(ids), step(scope), Node::Importer(id), node);
}

} // verus!
