//! What is written into a lockfile once everything is resolved.
use crate::config::Npmrc;
use crate::current_lockfile;
use crate::install_with_lockfile;
use crate::install_with_lockfile::{
    ResolvedDirectDependencies, ResolvedPackage, ResolvedPackageModel,
};
use crate::json;
use crate::json::{Json, JsonModel};
use crate::lockfile;
use crate::lockfile::{
    DependencyGroup, Lockfile, LockfileModel, PackageMap, PackageModel, PackageSnapshotDependency,
    PathId, PathModel, ProjectModel, ProjectSnapshot, ResolvedDependencyMap,
    ResolvedDependencyVersion, ResolvedSpecModel, ResolvedVersionModel, RootModel,
    RootProjectSnapshot, SnapshotDependencyModel,
};
use crate::lockfile_check;
use crate::lockfile_check::RuntimeLockfileConfig;
use crate::manifest_check;
use crate::package_snapshots;
use crate::package_snapshots::PackageSnapshots;
use crate::paths;
use crate::pnpmfile;
use crate::prune;
use crate::registry::PackageVersion;
use crate::snapshots;
use crate::table;
use crate::table::{Table, TextMap};
use crate::text;
use crate::value::{Compared, Value};
use crate::workspace;
use crate::workspace::{WorkspacePackageModel, WorkspacePackages};
use vstd::prelude::*;
use vstd::string::*;

verus! {

/// The dependencies of a group, as a package would refer to them.
pub open spec fn group_as_dependencies(map: Option<Map<Seq<char>, ResolvedSpecModel>>) -> Map<
    Seq<char>,
    SnapshotDependencyModel,
> {
    match map {
        Some(map) => Map::new(
            |alias: Seq<char>| map.dom().contains(alias),
            |alias: Seq<char>| install_with_lockfile::snapshot_dependency_of(map[alias].version),
        ),
        None => Map::empty(),
    }
}

/// The dependencies of an importer, as a package would refer to them; of two
/// groups the later counts.
pub open spec fn project_dependencies(project: ProjectModel) -> Map<
    Seq<char>,
    SnapshotDependencyModel,
> {
    group_as_dependencies(project.dependencies).union_prefer_right(
        group_as_dependencies(project.optional_dependencies),
    ).union_prefer_right(group_as_dependencies(project.dev_dependencies))
}

fn add_group(
    all: &mut TextMap<PackageSnapshotDependency>,
    group: Option<&ResolvedDependencyMap>,
)
    ensures
        final(all).deep_view() == old(all).deep_view().union_prefer_right(
            group_as_dependencies(group.deep_view()),
        ),
{
    let ghost first = all.deep_view();
    let map = match group {
        Some(map) => map,
        None => {
            assert(all.deep_view() =~= first.union_prefer_right(Map::empty()));
            return;
        },
    };
    let ghost pairs = map.pairs();
    let ghost whole = group_as_dependencies(Some(map.deep_view()));
    let n: usize = map.len();
    let mut i: usize = 0;
    let ghost mut done: Set<Seq<char>> = Set::empty();
    assert(all.deep_view() =~= first.union_prefer_right(whole.restrict(done)));
    while i < n
        invariant
            n == pairs.len(),
            pairs == map.pairs(),
            table::keys(pairs).no_duplicates(),
            whole == group_as_dependencies(Some(map.deep_view())),
            i <= n,
            forall|alias: Seq<char>|
                done.contains(alias) <==> table::keys(pairs.take(i as int)).contains(alias),
            all.deep_view() == first.union_prefer_right(whole.restrict(done)),
        decreases n - i,
    {
        let alias = map.key_at(i);
        proof {
            table::lemma_map_entry(pairs, i as int);
        }
        all.insert(
            alias.clone(),
            install_with_lockfile::resolved_version_to_snapshot_dependency(
                &map.value_at(i).version,
            ),
        );
        proof {
            let added = done.insert(alias@);
            assert forall|other: Seq<char>|
                added.contains(other) <==> table::keys(pairs.take(i + 1)).contains(other) by {
                let before = table::keys(pairs.take(i as int));
                let after = table::keys(pairs.take(i + 1));
                assert(after =~= before.push(alias@));
                crate::reach::lemma_push_contains(before, alias@);
            }
            assert(all.deep_view() =~= first.union_prefer_right(whole.restrict(added)));
            done = added;
        }
        i = i + 1;
    }
    proof {
        assert(pairs.take(i as int) =~= pairs);
        assert(whole.restrict(done) =~= whole);
    }
}

/// The dependencies of an importer, as a package would refer to them.
pub fn project_snapshot_dependency_map(project_snapshot: &ProjectSnapshot) -> (all: TextMap<
    PackageSnapshotDependency,
>)
    ensures
        all.deep_view() == project_dependencies(project_snapshot.deep_view()),
{
    let mut all: TextMap<PackageSnapshotDependency> = Table::new();
    add_group(&mut all, project_snapshot.dependencies.as_ref());
    proof {
        let first = group_as_dependencies(project_snapshot.dependencies.deep_view());
        assert(Map::<Seq<char>, SnapshotDependencyModel>::empty().union_prefer_right(first)
            =~= first);
    }
    add_group(&mut all, project_snapshot.optional_dependencies.as_ref());
    add_group(&mut all, project_snapshot.dev_dependencies.as_ref());
    all
}

/// What copies of packages of the workspace are held against: the packages so
/// far, the packages of the workspace, and the lockfile that there was.
pub struct InjectedContext<'a> {
    pub lockfile_dir: &'a str,
    pub existing: Option<&'a RootProjectSnapshot>,
    pub workspace_packages: &'a WorkspacePackages,
    pub package_snapshots: &'a PackageSnapshots,
}

/// The mathematical value of an [`InjectedContext`].
pub struct InjectedModel {
    pub lockfile_dir: Seq<char>,
    pub existing: Option<RootModel>,
    pub workspace_packages: Map<Seq<char>, WorkspacePackageModel>,
    pub pairs: Seq<(PathId, PackageModel)>,
}

impl<'a> DeepView for InjectedContext<'a> {
    type V = InjectedModel;

    open spec fn deep_view(&self) -> InjectedModel {
        InjectedModel {
            lockfile_dir: self.lockfile_dir@,
            existing: self.existing.deep_view(),
            workspace_packages: self.workspace_packages.deep_view(),
            pairs: self.package_snapshots.pairs(),
        }
    }
}

/// The copy of a package of the workspace that a link refers to.
pub open spec fn injected_copy(
    ctx: InjectedModel,
    link: Seq<char>,
    root_dir: Seq<char>,
    on_windows: bool,
) -> Option<int> {
    package_snapshots::local_directory_index(
        ctx.pairs,
        link,
        text::trim_start_text(
            workspace::local_reference(ctx.lockfile_dir, root_dir, on_windows),
            "file:"@,
        ),
        0,
    )
}

/// What the lockfile that there was keeps of an importer.
pub open spec fn existing_project(existing: Option<RootModel>, importer_id: Seq<char>) -> Option<
    ProjectModel,
> {
    match existing {
        Some(root) => current_lockfile::project_by_id(root, importer_id),
        None => None,
    }
}

/// What the lockfile that there was keeps of an importer.
pub fn project_snapshot_by_importer<'a>(
    existing: Option<&'a RootProjectSnapshot>,
    importer_id: &str,
) -> (project: Option<&'a ProjectSnapshot>)
    ensures
        project.deep_view() == existing_project(existing.deep_view(), importer_id@),
{
    match existing {
        Some(root) => current_lockfile::project_snapshot_by_id(root, importer_id),
        None => None,
    }
}

/// Where a dependency of a copy leads: to the copy of another package of the
/// workspace, and to the importer that it is a copy of.
pub open spec fn next_copy(
    ctx: InjectedModel,
    alias: Seq<char>,
    dependency: SnapshotDependencyModel,
    other: SnapshotDependencyModel,
    on_windows: bool,
) -> Option<(int, Seq<char>)> {
    match (dependency, other) {
        (SnapshotDependencyModel::Link(copy), SnapshotDependencyModel::Link(link)) => {
            if text::starts_with(copy, "file:"@) && text::starts_with(link, "link:"@)
                && ctx.workspace_packages.dom().contains(alias) {
                let root_dir = ctx.workspace_packages[alias].root_dir;
                let id = paths::importer_id(ctx.lockfile_dir, root_dir, on_windows);
                match injected_copy(ctx, copy, root_dir, on_windows) {
                    Some(i) => if existing_project(ctx.existing, id) is Some {
                        Some((i, id))
                    } else {
                        None
                    },
                    None => None,
                }
            } else {
                None
            }
        },
        _ => None,
    }
}

/// What the importer has under the name of a dependency of a copy.
pub open spec fn counterpart(ctx: InjectedModel, id: Seq<char>, alias: Seq<char>) -> Option<
    SnapshotDependencyModel,
> {
    let project = project_dependencies(existing_project(ctx.existing, id)->0);
    if project.dom().contains(alias) {
        Some(project[alias])
    } else {
        None
    }
}

/// The importer has the same dependency.
pub open spec fn is_counterpart(
    ctx: InjectedModel,
    id: Seq<char>,
    alias: Seq<char>,
    dependency: SnapshotDependencyModel,
) -> bool {
    match counterpart(ctx, id, alias) {
        Some(other) => PackageSnapshotDependency::bare(other) == PackageSnapshotDependency::bare(
            dependency,
        ),
        None => false,
    }
}

/// Where a dependency of a copy leads, held against what the importer has.
pub open spec fn leads_to(
    ctx: InjectedModel,
    id: Seq<char>,
    alias: Seq<char>,
    dependency: SnapshotDependencyModel,
    on_windows: bool,
) -> Option<(int, Seq<char>)> {
    match counterpart(ctx, id, alias) {
        Some(other) => next_copy(ctx, alias, dependency, other, on_windows),
        None => None,
    }
}

/// A copy of a package of the workspace asks for nothing but what the importer
/// has as well: each dependency is the same there, or it is a copy of another
/// package that the importer links to and that asks for nothing more in turn.
/// What is being looked at already counts as fitting.
pub open spec fn copy_fits(
    ctx: InjectedModel,
    i: int,
    id: Seq<char>,
    seen: Seq<(int, Seq<char>)>,
    left: nat,
    on_windows: bool,
) -> bool
    decreases left,
{
    if left == 0 || seen.contains((i, id)) {
        true
    } else {
        match ctx.pairs[i].1.dependencies {
            None => true,
            Some(dependencies) => forall|alias: Seq<char>| #[trigger]
                dependencies.dom().contains(alias) ==> (is_counterpart(
                    ctx,
                    id,
                    alias,
                    dependencies[alias],
                ) || (leads_to(
                    ctx,
                    id,
                    alias,
                    dependencies[alias],
                    on_windows,
                ) is Some && copy_fits(
                    ctx,
                    (leads_to(ctx, id, alias, dependencies[alias], on_windows)->0).0,
                    (leads_to(ctx, id, alias, dependencies[alias], on_windows)->0).1,
                    seen.push((i, id)),
                    (left - 1) as nat,
                    on_windows,
                ))),
        }
    }
}

fn seen_copy(seen: &Vec<(usize, String)>, i: usize, id: &str) -> (yes: bool)
    ensures
        yes == seen_model(seen@).contains((i as int, id@)),
{
    let ghost all = seen_model(seen@);
    let mut k: usize = 0;
    while k < seen.len()
        invariant
            k <= seen@.len(),
            all == seen_model(seen@),
            forall|j: int| 0 <= j < k ==> #[trigger] all[j] != (i as int, id@),
        decreases seen@.len() - k,
    {
        assert(all[k as int] == (seen@[k as int].0 as int, seen@[k as int].1@));
        if seen[k].0 == i && text::same_text(seen[k].1.as_str(), id) {
            assert(all.contains((i as int, id@)));
            return true;
        }
        k = k + 1;
    }
    proof {
        if all.contains((i as int, id@)) {
            let k = all.index_of((i as int, id@));
            assert(all[k] == (i as int, id@));
        }
    }
    false
}

/// What is being looked at.
spec fn seen_model(seen: Seq<(usize, String)>) -> Seq<(int, Seq<char>)> {
    seen.map_values(|entry: (usize, String)| (entry.0 as int, entry.1@))
}

fn with_copy(seen: &Vec<(usize, String)>, i: usize, id: &str) -> (longer: Vec<(usize, String)>)
    ensures
        seen_model(longer@) == seen_model(seen@).push((i as int, id@)),
{
    let ghost all = seen_model(seen@);
    let mut longer: Vec<(usize, String)> = Vec::new();
    let mut k: usize = 0;
    assert(seen_model(longer@) =~= all.take(0));
    while k < seen.len()
        invariant
            k <= seen@.len(),
            all == seen_model(seen@),
            seen_model(longer@) == all.take(k as int),
        decreases seen@.len() - k,
    {
        let ghost before = longer@;
        longer.push((seen[k].0, seen[k].1.clone()));
        proof {
            assert(seen_model(longer@) =~= seen_model(before).push(all[k as int]));
            assert(all.take(k + 1) =~= all.take(k as int).push(all[k as int]));
        }
        k = k + 1;
    }
    assert(all.take(k as int) =~= all);
    let ghost before = longer@;
    longer.push((i, text::copy(id)));
    assert(seen_model(longer@) =~= seen_model(before).push((i as int, id@)));
    longer
}

fn find_copy(
    ctx: &InjectedContext,
    link: &str,
    root_dir: &str,
    on_windows: bool,
) -> (found: Option<usize>)
    requires
        ctx.package_snapshots.well_formed(),
    ensures
        match found {
            Some(i) => injected_copy(
                ctx.deep_view(),
                link@,
                root_dir@,
                on_windows,
            ) == Some(i as int) && i
                < ctx.deep_view().pairs.len(),
            None => injected_copy(ctx.deep_view(), link@, root_dir@, on_windows) is None,
        },
{
    let reference = workspace::normalized_local_file_reference(
        ctx.lockfile_dir,
        root_dir,
        on_windows,
    );
    let directory = text::trim_start_matches(reference.as_str(), "file:");
    package_snapshots::find_local_directory(ctx.package_snapshots, link, directory)
}

fn find_next_copy(
    ctx: &InjectedContext,
    alias: &str,
    dependency: &PackageSnapshotDependency,
    other: &PackageSnapshotDependency,
    on_windows: bool,
) -> (next: Option<(usize, String)>)
    requires
        ctx.package_snapshots.well_formed(),
    ensures
        match next {
            Some((i, id)) => next_copy(
                ctx.deep_view(),
                alias@,
                dependency.deep_view(),
                other.deep_view(),
                on_windows,
            ) == Some((i as int, id@)) && i < ctx.deep_view().pairs.len() && existing_project(
                ctx.deep_view().existing,
                id@,
            ) is Some,
            None => next_copy(
                ctx.deep_view(),
                alias@,
                dependency.deep_view(),
                other.deep_view(),
                on_windows,
            ) is None,
        },
{
    let (copy, link) = match (dependency, other) {
        (PackageSnapshotDependency::Link(copy), PackageSnapshotDependency::Link(link)) => (
            copy,
            link,
        ),
        _ => {
            return None;
        },
    };
    if !text::has_prefix(copy.as_str(), "file:") || !text::has_prefix(link.as_str(), "link:") {
        return None;
    }
    let info = match ctx.workspace_packages.get_text(alias) {
        Some(info) => info,
        None => {
            return None;
        },
    };
    let i = match find_copy(ctx, copy.as_str(), info.root_dir.as_str(), on_windows) {
        Some(i) => i,
        None => {
            return None;
        },
    };
    let id = paths::to_lockfile_importer_id(ctx.lockfile_dir, info.root_dir.as_str(), on_windows);
    if project_snapshot_by_importer(ctx.existing, id.as_str()).is_none() {
        return None;
    }
    Some((i, id))
}

/// Whether a copy asks for nothing but what the importer has as well.
fn copy_is_subset(
    ctx: &InjectedContext,
    i: usize,
    id: &str,
    seen: &Vec<(usize, String)>,
    left: u128,
    on_windows: bool,
) -> (fits: bool)
    requires
        ctx.package_snapshots.well_formed(),
        i < ctx.deep_view().pairs.len(),
        existing_project(ctx.deep_view().existing, id@) is Some,
    ensures
        fits == copy_fits(
            ctx.deep_view(),
            i as int,
            id@,
            seen_model(seen@),
            left as nat,
            on_windows,
        ),
    decreases left,
{
    let ghost model = ctx.deep_view();
    let ghost before = seen_model(seen@);
    if left == 0 || seen_copy(seen, i, id) {
        return true;
    }
    let snapshot = ctx.package_snapshots.value_at(i);
    let dependencies = match &snapshot.dependencies {
        Some(dependencies) => dependencies,
        None => {
            return true;
        },
    };
    let project = match project_snapshot_by_importer(ctx.existing, id) {
        Some(project) => project,
        None => {
            return true;
        },
    };
    let available = project_snapshot_dependency_map(project);
    let longer = with_copy(seen, i, id);
    let ghost pairs = dependencies.pairs();
    let ghost asked = dependencies.deep_view();
    assert(model.pairs[i as int].1.dependencies == Some(asked));
    let n: usize = dependencies.len();
    let mut k: usize = 0;
    while k < n
        invariant
            n == pairs.len(),
            pairs == dependencies.pairs(),
            table::keys(pairs).no_duplicates(),
            asked == dependencies.deep_view(),
            k <= n,
            left > 0,
            model == ctx.deep_view(),
            ctx.package_snapshots.well_formed(),
            before == seen_model(seen@),
            seen_model(longer@) == before.push((i as int, id@)),
            !before.contains((i as int, id@)),
            model.pairs[i as int].1.dependencies == Some(asked),
            existing_project(model.existing, id@) is Some,
            available.deep_view() == project_dependencies(existing_project(model.existing, id@)->0),
            forall|j: int|
                0 <= j < k ==> (is_counterpart(
                    model,
                    id@,
                    (#[trigger] pairs[j]).0,
                    pairs[j].1,
                ) || (leads_to(model, id@, pairs[j].0, pairs[j].1, on_windows) is Some && copy_fits(
                    model,
                    (leads_to(model, id@, pairs[j].0, pairs[j].1, on_windows)->0).0,
                    (leads_to(model, id@, pairs[j].0, pairs[j].1, on_windows)->0).1,
                    before.push((i as int, id@)),
                    (left - 1) as nat,
                    on_windows,
                ))),
        decreases n - k,
    {
        let alias = dependencies.key_at(k);
        let dependency = dependencies.value_at(k);
        proof {
            table::lemma_map_entry(pairs, k as int);
            assert(asked[alias@] == dependency.deep_view());
        }
        let fits = match available.get_text(alias.as_str()) {
            None => false,
            Some(other) => other.to_bare().same(&dependency.to_bare()) || match find_next_copy(
                ctx,
                alias.as_str(),
                dependency,
                other,
                on_windows,
            ) {
                Some((j, next)) => copy_is_subset(
                    ctx,
                    j,
                    next.as_str(),
                    &longer,
                    left - 1,
                    on_windows,
                ),
                None => false,
            },
        };
        if !fits {
            assert(asked.dom().contains(alias@));
            return false;
        }
        k = k + 1;
    }
    proof {
        assert forall|alias: Seq<char>| #[trigger]
            asked.dom().contains(alias) implies (is_counterpart(
            model,
            id@,
            alias,
            asked[alias],
        ) || (leads_to(model, id@, alias, asked[alias], on_windows) is Some && copy_fits(
            model,
            (leads_to(model, id@, alias, asked[alias], on_windows)->0).0,
            (leads_to(model, id@, alias, asked[alias], on_windows)->0).1,
            before.push((i as int, id@)),
            (left - 1) as nat,
            on_windows,
        ))) by {
            let j = table::lemma_map_index(pairs, alias);
            assert(pairs[j].0 == alias);
        }
    }
    true
}

/// How often one can go from a copy to the next without coming back to one: no
/// more often than there are copies and importers to pair them with.
pub open spec fn copy_bound(ctx: InjectedModel) -> nat {
    ctx.pairs.len() * (ctx.workspace_packages.len() + 1)
}

/// The ids of the importers that a copy can be held against: those of the packages
/// of the workspace, and one to begin with.
pub open spec fn importer_ids(
    ctx: InjectedModel,
    first: Seq<char>,
    on_windows: bool,
) -> Set<Seq<char>> {
    ctx.workspace_packages.dom().map(
        |alias: Seq<char>|
            paths::importer_id(
                ctx.lockfile_dir,
                ctx.workspace_packages[alias].root_dir,
                on_windows,
            ),
    ).insert(first)
}

/// The copies that were looked at are copies that there are, each held against an
/// importer that there is, and none of them twice.
pub open spec fn are_distinct_copies(
    ctx: InjectedModel,
    first: Seq<char>,
    seen: Seq<(int, Seq<char>)>,
    on_windows: bool,
) -> bool {
    &&& seen.no_duplicates()
    &&& forall|k: int|
        0 <= k < seen.len() ==> 0 <= (#[trigger] seen[k]).0 < ctx.pairs.len() && importer_ids(
            ctx,
            first,
            on_windows,
        ).contains(seen[k].1)
}

proof fn lemma_listed(ids: Set<Seq<char>>)
    requires
        ids.finite(),
    ensures
        ids.to_seq().len() == ids.len(),
    decreases ids.len(),
{
    if ids.len() > 0 {
        let id = ids.choose();
        lemma_listed(ids.remove(id));
    }
}

proof fn lemma_codes_differ(m: int, i: int, a: int, j: int, b: int)
    requires
        0 <= a < m,
        0 <= b < m,
        i * m + a == j * m + b,
    ensures
        i == j,
        a == b,
{
    assert(i == j) by (nonlinear_arith)
        requires
            0 <= a < m,
            0 <= b < m,
            i * m + a == j * m + b,
    ;
}

/// There are no more distinct copies than the bound says.
proof fn lemma_copies_are_bounded(
    ctx: InjectedModel,
    first: Seq<char>,
    seen: Seq<(int, Seq<char>)>,
    on_windows: bool,
)
    requires
        ctx.workspace_packages.dom().finite(),
        are_distinct_copies(ctx, first, seen, on_windows),
    ensures
        seen.len() <= copy_bound(ctx),
{
    let n = ctx.pairs.len() as int;
    let dom = ctx.workspace_packages.dom();
    let id_of = |alias: Seq<char>|
        paths::importer_id(ctx.lockfile_dir, ctx.workspace_packages[alias].root_dir, on_windows);
    let ids = importer_ids(ctx, first, on_windows);
    vstd::set_lib::lemma_map_size_bound(dom, dom.map(id_of), id_of);
    let order = ids.to_seq();
    let m = order.len() as int;
    lemma_listed(ids);
    ids.lemma_to_seq_to_set_id();
    let codes = Seq::new(seen.len(), |k: int| seen[k].0 * m + order.index_of(seen[k].1));
    assert forall|k: int| 0 <= k < seen.len() implies order.contains(#[trigger] seen[k].1) by {
        assert(order.to_set().contains(seen[k].1));
    }
    assert forall|k: int, l: int| 0 <= k < l < codes.len() implies codes[k] != codes[l] by {
        if codes[k] == codes[l] {
            assert(order.contains(seen[k].1) && order.contains(seen[l].1));
            lemma_codes_differ(
                m,
                seen[k].0,
                order.index_of(seen[k].1),
                seen[l].0,
                order.index_of(seen[l].1),
            );
            assert(seen[k] == seen[l]);
        }
    }
    codes.unique_seq_to_set();
    assert(n * m >= 0) by (nonlinear_arith)
        requires
            n >= 0,
            m >= 0,
    ;
    vstd::set_lib::lemma_int_range(0, n * m);
    assert forall|code: int| codes.to_set().contains(code) implies vstd::set_lib::set_int_range(
        0,
        n * m,
    ).contains(code) by {
        let k = codes.index_of(code);
        assert(codes[k] == code);
        assert(order.contains(seen[k].1));
        let i = seen[k].0;
        let a = order.index_of(seen[k].1);
        assert(0 <= i * m + a < n * m) by (nonlinear_arith)
            requires
                0 <= i < n,
                0 <= a < m,
        ;
    }
    vstd::set_lib::lemma_len_subset(codes.to_set(), vstd::set_lib::set_int_range(0, n * m));
    assert(n * m <= n * (ctx.workspace_packages.len() + 1)) by (nonlinear_arith)
        requires
            n >= 0,
            m <= ctx.workspace_packages.len() + 1,
    ;
}

proof fn lemma_directory_index(
    pairs: Seq<(PathId, PackageModel)>,
    link: Seq<char>,
    directory: Seq<char>,
    from: int,
)
    requires
        0 <= from,
    ensures
        match package_snapshots::local_directory_index(pairs, link, directory, from) {
            Some(i) => from <= i < pairs.len(),
            None => true,
        },
    decreases pairs.len() - from,
{
    if from < pairs.len() {
        lemma_directory_index(pairs, link, directory, from + 1);
    }
}

proof fn lemma_next_copy(
    ctx: InjectedModel,
    first: Seq<char>,
    alias: Seq<char>,
    dependency: SnapshotDependencyModel,
    other: SnapshotDependencyModel,
    on_windows: bool,
)
    ensures
        match next_copy(ctx, alias, dependency, other, on_windows) {
            Some((i, id)) => 0 <= i < ctx.pairs.len() && importer_ids(
                ctx,
                first,
                on_windows,
            ).contains(id),
            None => true,
        },
{
    if next_copy(ctx, alias, dependency, other, on_windows) is Some {
        let root_dir = ctx.workspace_packages[alias].root_dir;
        let id_of = |name: Seq<char>|
            paths::importer_id(ctx.lockfile_dir, ctx.workspace_packages[name].root_dir, on_windows);
        lemma_directory_index(
            ctx.pairs,
            dependency->Link_0,
            text::trim_start_text(
                workspace::local_reference(ctx.lockfile_dir, root_dir, on_windows),
                "file:"@,
            ),
            0,
        );
        assert(ctx.workspace_packages.dom().map(id_of).contains(id_of(alias)));
    }
}

proof fn lemma_bound_suffices(
    ctx: InjectedModel,
    first: Seq<char>,
    i: int,
    id: Seq<char>,
    seen: Seq<(int, Seq<char>)>,
    left: nat,
    more: nat,
    on_windows: bool,
)
    requires
        ctx.workspace_packages.dom().finite(),
        are_distinct_copies(ctx, first, seen, on_windows),
        0 <= i < ctx.pairs.len(),
        importer_ids(ctx, first, on_windows).contains(id),
        left + seen.len() >= copy_bound(ctx),
        left <= more,
    ensures
        copy_fits(
            ctx,
            i,
            id,
            seen,
            left,
            on_windows,
        ) == copy_fits(ctx, i, id, seen, more, on_windows),
    decreases left,
{
    if !seen.contains((i, id)) {
        let longer = seen.push((i, id));
        assert(are_distinct_copies(ctx, first, longer, on_windows));
        lemma_copies_are_bounded(ctx, first, longer, on_windows);
        if let Some(asked) = ctx.pairs[i].1.dependencies {
            assert forall|alias: Seq<char>|
                asked.dom().contains(alias) && #[trigger] leads_to(
                    ctx,
                    id,
                    alias,
                    asked[alias],
                    on_windows,
                ) is Some implies copy_fits(
                ctx,
                (leads_to(ctx, id, alias, asked[alias], on_windows)->0).0,
                (leads_to(ctx, id, alias, asked[alias], on_windows)->0).1,
                longer,
                (left - 1) as nat,
                on_windows,
            ) == copy_fits(
                ctx,
                (leads_to(ctx, id, alias, asked[alias], on_windows)->0).0,
                (leads_to(ctx, id, alias, asked[alias], on_windows)->0).1,
                longer,
                (more - 1) as nat,
                on_windows,
            ) by {
                let next = leads_to(ctx, id, alias, asked[alias], on_windows)->0;
                lemma_next_copy(
                    ctx,
                    first,
                    alias,
                    asked[alias],
                    counterpart(ctx, id, alias)->0,
                    on_windows,
                );
                lemma_bound_suffices(
                    ctx,
                    first,
                    next.0,
                    next.1,
                    longer,
                    (left - 1) as nat,
                    (more - 1) as nat,
                    on_windows,
                );
            }
        }
    }
}

/// The bound cuts nothing short: whether a copy asks for nothing but what the
/// importer has comes out the same however much further one looks.
pub proof fn law_copy_bound_cuts_nothing_short(
    ctx: InjectedModel,
    i: int,
    id: Seq<char>,
    more: nat,
    on_windows: bool,
)
    requires
        ctx.workspace_packages.dom().finite(),
        0 <= i < ctx.pairs.len(),
        copy_bound(ctx) <= more,
    ensures
        copy_fits(ctx, i, id, Seq::empty(), copy_bound(ctx), on_windows) == copy_fits(
            ctx,
            i,
            id,
            Seq::empty(),
            more,
            on_windows,
        ),
{
    lemma_bound_suffices(ctx, id, i, id, Seq::empty(), copy_bound(ctx), more, on_windows);
}

/// A package of the workspace that a dependency is on: the name and the
/// specifier of the dependency, and where the package is.
#[derive(Debug)]
pub struct WorkspaceLookup {
    pub name: String,
    pub specifier: String,
    pub root_dir: String,
}

/// Where the package of the workspace is that a dependency is on, from a place
/// in the list on.
pub open spec fn looked_up(
    lookups: Seq<WorkspaceLookup>,
    name: Seq<char>,
    specifier: Seq<char>,
    from: int,
) -> Option<Seq<char>>
    decreases lookups.len() - from,
{
    if from >= lookups.len() {
        None
    } else if lookups[from].name@ == name && lookups[from].specifier@ == specifier {
        Some(lookups[from].root_dir@)
    } else {
        looked_up(lookups, name, specifier, from + 1)
    }
}

fn look_up<'a>(lookups: &'a Vec<WorkspaceLookup>, name: &str, specifier: &str) -> (root_dir: Option<
    &'a str,
>)
    ensures
        root_dir.deep_view() == looked_up(lookups@, name@, specifier@, 0),
{
    let mut i: usize = 0;
    while i < lookups.len()
        invariant
            i <= lookups@.len(),
            looked_up(lookups@, name@, specifier@, 0) == looked_up(
                lookups@,
                name@,
                specifier@,
                i as int,
            ),
        decreases lookups@.len() - i,
    {
        if text::same_text(lookups[i].name.as_str(), name) && text::same_text(
            lookups[i].specifier.as_str(),
            specifier,
        ) {
            return Some(lookups[i].root_dir.as_str());
        }
        i = i + 1;
    }
    None
}

/// What the direct dependencies of a project are held against.
pub struct InjectingProject<'a> {
    pub config: &'a Npmrc,
    pub manifest: &'a Json,
    pub manifest_path: &'a str,
    pub lookups: &'a Vec<WorkspaceLookup>,
}

/// What a direct dependency becomes that is a copy of a package of the
/// workspace: a link, where the copy has nothing of its own.
pub open spec fn relinked(
    project: InjectingProject,
    ctx: InjectedModel,
    name: Seq<char>,
    specifier: Seq<char>,
    version: ResolvedVersionModel,
    on_windows: bool,
) -> Option<ResolvedPackageModel> {
    if !project.config.dedupe_injected_deps || !workspace::injects(
        project.manifest.deep_view(),
        name,
        specifier,
        project.config.inject_workspace_packages,
    ) {
        None
    } else {
        match (looked_up(project.lookups@, name, specifier, 0), version) {
            (Some(root_dir), ResolvedVersionModel::Link(link)) => {
                let id = paths::importer_id(ctx.lockfile_dir, root_dir, on_windows);
                let copy = injected_copy(ctx, link, root_dir, on_windows);
                if text::starts_with(link, "file:"@) && copy is Some && existing_project(
                    ctx.existing,
                    id,
                ) is Some && copy_fits(
                    ctx,
                    copy->0,
                    id,
                    Seq::empty(),
                    copy_bound(ctx),
                    on_windows,
                ) {
                    Some(
                        install_with_lockfile::plain_package(
                            ResolvedVersionModel::Link(
                                workspace::workspace_link(
                                    workspace::manifest_dir(project.manifest_path@, on_windows),
                                    root_dir,
                                    on_windows,
                                ),
                            ),
                        ),
                    )
                } else {
                    None
                }
            },
            _ => None,
        }
    }
}

/// What the direct dependencies become once copies in a group were replaced.
pub open spec fn group_relinked(
    project: InjectingProject,
    ctx: InjectedModel,
    entries: Map<Seq<char>, Seq<char>>,
    resolved: Map<(Seq<char>, Seq<char>), ResolvedPackageModel>,
    on_windows: bool,
) -> Map<(Seq<char>, Seq<char>), ResolvedPackageModel> {
    Map::new(
        |key: (Seq<char>, Seq<char>)| resolved.dom().contains(key),
        |key: (Seq<char>, Seq<char>)|
            if entries.dom().contains(key.0) && entries[key.0] == key.1 && relinked(
                project,
                ctx,
                key.0,
                key.1,
                resolved[key].version,
                on_windows,
            ) is Some {
                relinked(project, ctx, key.0, key.1, resolved[key].version, on_windows)->0
            } else {
                resolved[key]
            },
    )
}

fn relink(
    project: &InjectingProject,
    ctx: &InjectedContext,
    name: &str,
    specifier: &str,
    version: &ResolvedDependencyVersion,
    on_windows: bool,
) -> (package: Option<ResolvedPackage>)
    requires
        ctx.package_snapshots.well_formed(),
    ensures
        package.deep_view() == relinked(
            *project,
            ctx.deep_view(),
            name@,
            specifier@,
            version.deep_view(),
            on_windows,
        ),
{
    if !project.config.dedupe_injected_deps || !workspace::should_inject_workspace_dependency(
        project.manifest,
        name,
        specifier,
        project.config,
    ) {
        return None;
    }
    let root_dir = match look_up(project.lookups, name, specifier) {
        Some(root_dir) => root_dir,
        None => {
            return None;
        },
    };
    let link = match version {
        ResolvedDependencyVersion::Link(link) => link,
        _ => {
            return None;
        },
    };
    if !text::has_prefix(link.as_str(), "file:") {
        return None;
    }
    let i = match find_copy(ctx, link.as_str(), root_dir, on_windows) {
        Some(i) => i,
        None => {
            return None;
        },
    };
    let id = paths::to_lockfile_importer_id(ctx.lockfile_dir, root_dir, on_windows);
    if project_snapshot_by_importer(ctx.existing, id.as_str()).is_none() {
        return None;
    }
    let seen: Vec<(usize, String)> = Vec::new();
    let many: usize = ctx.package_snapshots.len();
    let others: usize = ctx.workspace_packages.len();
    proof {
        table::lemma_map_len(ctx.workspace_packages.pairs());
        assert(seen_model(seen@) =~= Seq::empty());
        assert((many as int) * (others + 1) <= 0xffff_ffff_ffff_ffff_ffff_ffff_ffff_ffff)
            by (nonlinear_arith)
            requires
                0 <= many <= 0xffff_ffff_ffff_ffff,
                0 <= others <= 0xffff_ffff_ffff_ffff,
        ;
        assert(0 <= (many as int) * (others + 1)) by (nonlinear_arith)
            requires
                0 <= many,
                0 <= others,
        ;
    }
    let bound: u128 = (many as u128) * ((others as u128) + 1);
    if !copy_is_subset(ctx, i, id.as_str(), &seen, bound, on_windows) {
        return None;
    }
    let dir = workspace::dir_of_manifest(project.manifest_path, on_windows);
    Some(
        ResolvedPackage::new(
            ResolvedDependencyVersion::Link(
                workspace::link_to_workspace_package(dir.as_str(), root_dir, on_windows),
            ),
        ),
    )
}

/// Replaces the copies of packages of the workspace in a group by links, where
/// they have nothing of their own.
pub fn dedupe_injected_dependency_map(
    project: &InjectingProject,
    ctx: &InjectedContext,
    resolved_direct_dependencies: &mut ResolvedDirectDependencies,
    group: DependencyGroup,
    on_windows: bool,
)
    requires
        ctx.package_snapshots.well_formed(),
    ensures
        final(resolved_direct_dependencies).deep_view() == group_relinked(
            *project,
            ctx.deep_view(),
            install_with_lockfile::group_entries(project.manifest.deep_view(), group),
            old(resolved_direct_dependencies).deep_view(),
            on_windows,
        ),
{
    let entries = json::json_string_map(project.manifest.get(pnpmfile::group_name(group)));
    let ghost model = ctx.deep_view();
    let ghost asked = entries.deep_view();
    let ghost pairs = entries.pairs();
    let ghost first = resolved_direct_dependencies.deep_view();
    let ghost whole = group_relinked(*project, model, asked, first, on_windows);
    let ghost mut done: Set<Seq<char>> = Set::empty();
    let n: usize = entries.len();
    let mut i: usize = 0;
    assert(resolved_direct_dependencies.deep_view() =~= group_relinked(
        *project,
        model,
        asked.restrict(done),
        first,
        on_windows,
    ));
    while i < n
        invariant
            n == pairs.len(),
            pairs == entries.pairs(),
            asked == entries.deep_view(),
            table::keys(pairs).no_duplicates(),
            model == ctx.deep_view(),
            ctx.package_snapshots.well_formed(),
            i <= n,
            forall|name: Seq<char>|
                done.contains(name) <==> table::keys(pairs.take(i as int)).contains(name),
            resolved_direct_dependencies.deep_view() == group_relinked(
                *project,
                model,
                asked.restrict(done),
                first,
                on_windows,
            ),
        decreases n - i,
    {
        let name = entries.key_at(i);
        let specifier = entries.value_at(i);
        proof {
            table::lemma_map_entry(pairs, i as int);
            assert(!done.contains(name@)) by {
                let before = table::keys(pairs.take(i as int));
                if before.contains(name@) {
                    let k = before.index_of(name@);
                    assert(table::keys(pairs)[k] == table::keys(pairs)[i as int]);
                }
            }
        }
        let ghost before = resolved_direct_dependencies.deep_view();
        let key = (name.clone(), specifier.clone());
        assert(key.deep_view() == (name@, specifier@));
        let replaced = match resolved_direct_dependencies.get(&key) {
            Some(package) => relink(
                project,
                ctx,
                name.as_str(),
                specifier.as_str(),
                &package.version,
                on_windows,
            ),
            None => None,
        };
        if let Some(package) = replaced {
            resolved_direct_dependencies.insert(key, package);
        }
        proof {
            let added = done.insert(name@);
            assert forall|other: Seq<char>|
                added.contains(other) <==> table::keys(pairs.take(i + 1)).contains(other) by {
                let shorter = table::keys(pairs.take(i as int));
                let longer = table::keys(pairs.take(i + 1));
                assert(longer =~= shorter.push(name@));
                crate::reach::lemma_push_contains(shorter, name@);
            }
            let next = group_relinked(*project, model, asked.restrict(added), first, on_windows);
            assert(resolved_direct_dependencies.deep_view() =~= next);
            done = added;
        }
        i = i + 1;
    }
    proof {
        assert(pairs.take(i as int) =~= pairs);
        assert(asked.restrict(done) =~= asked);
    }
}

/// What the direct dependencies become once copies were replaced.
pub open spec fn all_relinked(
    project: InjectingProject,
    ctx: InjectedModel,
    resolved: Map<(Seq<char>, Seq<char>), ResolvedPackageModel>,
    on_windows: bool,
) -> Map<(Seq<char>, Seq<char>), ResolvedPackageModel> {
    let manifest = project.manifest.deep_view();
    let first = group_relinked(
        project,
        ctx,
        install_with_lockfile::group_entries(manifest, DependencyGroup::Prod),
        resolved,
        on_windows,
    );
    let second = group_relinked(
        project,
        ctx,
        install_with_lockfile::group_entries(manifest, DependencyGroup::Optional),
        first,
        on_windows,
    );
    group_relinked(
        project,
        ctx,
        install_with_lockfile::group_entries(manifest, DependencyGroup::Dev),
        second,
        on_windows,
    )
}

/// Replaces the copies of packages of the workspace by links, where they have
/// nothing of their own.
pub fn dedupe_injected_direct_dependencies(
    project: &InjectingProject,
    ctx: &InjectedContext,
    resolved_direct_dependencies: &mut ResolvedDirectDependencies,
    on_windows: bool,
)
    requires
        ctx.package_snapshots.well_formed(),
    ensures
        final(resolved_direct_dependencies).deep_view() == all_relinked(
            *project,
            ctx.deep_view(),
            old(resolved_direct_dependencies).deep_view(),
            on_windows,
        ),
{
    dedupe_injected_dependency_map(
        project,
        ctx,
        resolved_direct_dependencies,
        DependencyGroup::Prod,
        on_windows,
    );
    dedupe_injected_dependency_map(
        project,
        ctx,
        resolved_direct_dependencies,
        DependencyGroup::Optional,
        on_windows,
    );
    dedupe_injected_dependency_map(
        project,
        ctx,
        resolved_direct_dependencies,
        DependencyGroup::Dev,
        on_windows,
    );
}

/// The importers of a lockfile with what is known of one of them.
pub open spec fn with_importer(
    existing: Option<RootModel>,
    importer_id: Seq<char>,
    project: ProjectModel,
) -> RootModel {
    match existing {
        Some(RootModel::Multi(importers)) => RootModel::Multi(
            importers.insert(importer_id, project),
        ),
        Some(RootModel::Single(first)) => if importer_id == "."@ {
            RootModel::Single(project)
        } else {
            RootModel::Multi(
                Map::<Seq<char>, ProjectModel>::empty().insert("."@, first).insert(
                    importer_id,
                    project,
                ),
            )
        },
        None => if importer_id == "."@ {
            RootModel::Single(project)
        } else {
            RootModel::Multi(
                Map::<Seq<char>, ProjectModel>::empty().insert(importer_id, project),
            )
        },
    }
}

/// The importers of a lockfile with what is known of one of them.
pub fn merge_project_snapshot(
    existing: Option<&RootProjectSnapshot>,
    lockfile_importer_id: &str,
    project_snapshot: ProjectSnapshot,
) -> (root: RootProjectSnapshot)
    ensures
        root.deep_view() == with_importer(
            existing.deep_view(),
            lockfile_importer_id@,
            project_snapshot.deep_view(),
        ),
{
    match existing {
        Some(RootProjectSnapshot::Multi(importers)) => {
            let mut importers = importers.duplicate();
            importers.insert(text::copy(lockfile_importer_id), project_snapshot);
            RootProjectSnapshot::Multi(importers)
        },
        Some(RootProjectSnapshot::Single(first)) => {
            if text::same_text(lockfile_importer_id, ".") {
                RootProjectSnapshot::Single(project_snapshot)
            } else {
                let mut importers: TextMap<ProjectSnapshot> = Table::new();
                importers.insert(text::copy("."), first.duplicate());
                importers.insert(text::copy(lockfile_importer_id), project_snapshot);
                RootProjectSnapshot::Multi(importers)
            }
        },
        None => {
            if text::same_text(lockfile_importer_id, ".") {
                RootProjectSnapshot::Single(project_snapshot)
            } else {
                let mut importers: TextMap<ProjectSnapshot> = Table::new();
                importers.insert(text::copy(lockfile_importer_id), project_snapshot);
                RootProjectSnapshot::Multi(importers)
            }
        },
    }
}

/// Some package of the workspace is the importer with an id.
pub open spec fn is_workspace_importer(
    lockfile_dir: Seq<char>,
    packages: Map<Seq<char>, WorkspacePackageModel>,
    id: Seq<char>,
    on_windows: bool,
) -> bool {
    exists|name: Seq<char>| #[trigger]
        packages.dom().contains(name) && paths::importer_id(
            lockfile_dir,
            packages[name].root_dir,
            on_windows,
        )
            == id
}

/// The importers that a lockfile tells apart.
pub open spec fn importers_of(root: RootModel) -> Map<Seq<char>, ProjectModel> {
    match root {
        RootModel::Single(project) => Map::<Seq<char>, ProjectModel>::empty().insert("."@, project),
        RootModel::Multi(importers) => importers,
    }
}

/// The importers of a lockfile, with one for every package of the workspace.
pub open spec fn with_workspace(
    root: RootModel,
    lockfile_dir: Seq<char>,
    packages: Map<Seq<char>, WorkspacePackageModel>,
    on_windows: bool,
) -> RootModel {
    if packages == Map::<Seq<char>, WorkspacePackageModel>::empty() {
        root
    } else {
        RootModel::Multi(
            Map::new(
                |id: Seq<char>|
                    importers_of(root).dom().contains(id) || is_workspace_importer(
                        lockfile_dir,
                        packages,
                        id,
                        on_windows,
                    ),
                |id: Seq<char>|
                    if importers_of(root).dom().contains(id) {
                        importers_of(root)[id]
                    } else {
                        lockfile::empty_project()
                    },
            ),
        )
    }
}

/// The importers of a lockfile, with one for every package of the workspace.
pub fn ensure_workspace_importers(
    project_snapshot: RootProjectSnapshot,
    lockfile_dir: &str,
    workspace_packages: &WorkspacePackages,
    on_windows: bool,
) -> (root: RootProjectSnapshot)
    ensures
        root.deep_view() == with_workspace(
            project_snapshot.deep_view(),
            lockfile_dir@,
            workspace_packages.deep_view(),
            on_windows,
        ),
{
    if workspace_packages.is_empty() {
        return project_snapshot;
    }
    let ghost before = importers_of(project_snapshot.deep_view());
    let mut importers: TextMap<ProjectSnapshot> = match project_snapshot {
        RootProjectSnapshot::Single(snapshot) => {
            let mut importers: TextMap<ProjectSnapshot> = Table::new();
            importers.insert(text::copy("."), snapshot);
            importers
        },
        RootProjectSnapshot::Multi(importers) => importers,
    };
    let ghost packages = workspace_packages.deep_view();
    let ghost pairs = workspace_packages.pairs();
    let ghost whole = with_workspace(
        project_snapshot.deep_view(),
        lockfile_dir@,
        packages,
        on_windows,
    )->Multi_0;
    let n: usize = workspace_packages.len();
    let mut i: usize = 0;
    assert(importers.deep_view() == before);
    while i < n
        invariant
            n == pairs.len(),
            pairs == workspace_packages.pairs(),
            packages == workspace_packages.deep_view(),
            packages == table::map_of(pairs),
            table::keys(pairs).no_duplicates(),
            i <= n,
            before.submap_of(importers.deep_view()),
            importers.deep_view().submap_of(whole),
            before.submap_of(whole),
            forall|id: Seq<char>| #[trigger]
                whole.dom().contains(id) <==> before.dom().contains(id) || is_workspace_importer(
                    lockfile_dir@,
                    packages,
                    id,
                    on_windows,
                ),
            forall|id: Seq<char>|
                whole.dom().contains(id) && !before.dom().contains(id) ==> #[trigger] whole[id]
                    == lockfile::empty_project(),
            forall|j: int|
                0 <= j < i ==> importers.deep_view().dom().contains(
                    paths::importer_id(lockfile_dir@, (#[trigger] pairs[j]).1.root_dir, on_windows),
                ),
        decreases n - i,
    {
        let info = workspace_packages.value_at(i);
        let id = paths::to_lockfile_importer_id(lockfile_dir, info.root_dir.as_str(), on_windows);
        proof {
            table::lemma_map_entry(pairs, i as int);
            assert(packages.dom().contains(pairs[i as int].0));
            assert(is_workspace_importer(lockfile_dir@, packages, id@, on_windows));
        }
        if !importers.contains_text(id.as_str()) {
            let ghost known = importers.deep_view();
            let ghost added = id@;
            assert(!before.dom().contains(added));
            assert(whole.dom().contains(added));
            importers.insert(id, ProjectSnapshot::empty());
            assert(importers.deep_view() == known.insert(added, lockfile::empty_project()));
            assert(whole[added] == lockfile::empty_project());
            assert forall|key: Seq<char>| #[trigger]
                importers.deep_view().dom().contains(key) implies whole.dom().contains(key)
                && whole[key] == importers.deep_view()[key] by {
                if key != added {
                    assert(known.dom().contains(key));
                }
            }
        }
        i = i + 1;
    }
    proof {
        let all = importers.deep_view();
        assert forall|id: Seq<char>| whole.dom().contains(id) implies all.dom().contains(id) by {
            if !before.dom().contains(id) {
                let name = choose|name: Seq<char>| #[trigger]
                    packages.dom().contains(name) && paths::importer_id(
                        lockfile_dir@,
                        packages[name].root_dir,
                        on_windows,
                    ) == id;
                let j = table::lemma_map_index(pairs, name);
                table::lemma_map_entry(pairs, j);
                assert(pairs[j].1.root_dir == packages[name].root_dir);
            }
        }
        assert(all =~= whole);
    }
    RootProjectSnapshot::Multi(importers)
}

/// Writing down one importer leaves the others as they were.
pub proof fn law_merge_keeps_other_importers(
    existing: RootModel,
    importer_id: Seq<char>,
    project: ProjectModel,
    other: Seq<char>,
)
    requires
        other != importer_id,
    ensures
        importers_of(existing).dom().contains(other) ==> importers_of(
            with_importer(Some(existing), importer_id, project),
        ).dom().contains(other) && importers_of(
            with_importer(Some(existing), importer_id, project),
        )[other] == importers_of(existing)[other],
        importers_of(with_importer(Some(existing), importer_id, project))[importer_id] == project,
{
}

/// Making an importer of every package of the workspace leaves those that there
/// were as they were.
pub proof fn law_workspace_importers_are_added(
    root: RootModel,
    lockfile_dir: Seq<char>,
    packages: Map<Seq<char>, WorkspacePackageModel>,
    id: Seq<char>,
    on_windows: bool,
)
    ensures
        importers_of(root).dom().contains(id) ==> importers_of(
            with_workspace(root, lockfile_dir, packages, on_windows),
        ).dom().contains(id) && importers_of(with_workspace(
            root,
            lockfile_dir,
            packages,
            on_windows,
        ))[id]
            == importers_of(root)[id],
        is_workspace_importer(lockfile_dir, packages, id, on_windows) ==> importers_of(
            with_workspace(root, lockfile_dir, packages, on_windows),
        ).dom().contains(id),
{
}

/// A direct dependency that is no copy of a package of the workspace stays what
/// it was resolved to, and a copy only ever becomes a link.
pub proof fn law_relinking_makes_links(
    project: InjectingProject,
    ctx: InjectedModel,
    name: Seq<char>,
    specifier: Seq<char>,
    version: ResolvedVersionModel,
    on_windows: bool,
)
    ensures
        relinked(project, ctx, name, specifier, version, on_windows) is Some ==> (version matches
            ResolvedVersionModel::Link(link) && text::starts_with(link, "file:"@)),
        relinked(project, ctx, name, specifier, version, on_windows) matches Some(package) ==> (
        package.version matches ResolvedVersionModel::Link(link) && text::starts_with(
            link,
            "link:"@,
        )),
{
    if let Some(package) = relinked(project, ctx, name, specifier, version, on_windows) {
        reveal_strlit("link:");
        let root_dir = looked_up(project.lookups@, name, specifier, 0)->0;
        let link = workspace::workspace_link(
            workspace::manifest_dir(project.manifest_path@, on_windows),
            root_dir,
            on_windows,
        );
        assert(link.subrange(0, 5) =~= "link:"@);
    }
}

/// What goes into a lockfile.
pub struct LockfileParts<'a> {
    pub config: &'a Npmrc,
    pub manifest: &'a Json,
    pub dependency_groups: &'a Vec<DependencyGroup>,
    pub existing_lockfile: Option<&'a Lockfile>,
    pub lockfile_dir: &'a str,
    pub lockfile_importer_id: &'a str,
    pub workspace_packages: &'a WorkspacePackages,
    pub resolved_direct_dependencies: &'a ResolvedDirectDependencies,
}

/// The importers of the lockfile that there was.
pub open spec fn existing_root(existing: Option<LockfileModel>) -> Option<RootModel> {
    match existing {
        Some(lockfile) => Some(lockfile.project_snapshot),
        None => None,
    }
}

/// The packages of the lockfile that there was.
pub open spec fn existing_packages(existing: Option<LockfileModel>) -> Map<PathId, PackageModel> {
    match existing {
        Some(lockfile) => match lockfile.packages {
            Some(packages) => packages,
            None => Map::empty(),
        },
        None => Map::empty(),
    }
}

/// The keys of the packages of the lockfile that there was.
pub open spec fn existing_keys(existing: Option<LockfileModel>) -> Map<PathId, PathModel> {
    match existing {
        Some(lockfile) => match lockfile.package_keys {
            Some(keys) => keys,
            None => Map::empty(),
        },
        None => Map::empty(),
    }
}

/// The importers of a lockfile, given all packages that there are.
pub open spec fn assembled_root(
    parts: LockfileParts,
    packages: PackageMap,
    on_windows: bool,
) -> RootModel {
    let project = install_with_lockfile::project_of(
        parts.manifest.deep_view(),
        parts.dependency_groups@,
        parts.resolved_direct_dependencies.deep_view(),
        parts.config.exclude_links_from_lockfile,
    );
    let deduped = if parts.config.dedupe_peer_dependents {
        snapshots::deduped_project(packages, project)
    } else {
        project
    };
    with_workspace(
        with_importer(
            existing_root(parts.existing_lockfile.deep_view()),
            parts.lockfile_importer_id@,
            deduped,
        ),
        parts.lockfile_dir@,
        parts.workspace_packages.deep_view(),
        on_windows,
    )
}

/// A lockfile, given all packages that there are.
pub open spec fn assembled(
    parts: LockfileParts,
    packages: PackageMap,
    runtime: RuntimeLockfileConfig,
    patched: Option<Map<Seq<char>, JsonModel>>,
    on_windows: bool,
) -> LockfileModel {
    let existing = parts.existing_lockfile.deep_view();
    let root = assembled_root(parts, packages, on_windows);
    let kept = prune::pruned(packages.pairs(), root);
    LockfileModel {
        lockfile_version: (9u16, 0u16),
        settings: Some(runtime.settings),
        never_built_dependencies: None,
        ignored_optional_dependencies: match existing {
            Some(lockfile) => lockfile.ignored_optional_dependencies,
            None => None,
        },
        overrides: runtime.overrides.deep_view(),
        package_extensions_checksum: runtime.package_extensions_checksum.deep_view(),
        patched_dependencies: patched,
        pnpmfile_checksum: runtime.pnpmfile_checksum.deep_view(),
        catalogs: match existing {
            Some(lockfile) => lockfile.catalogs,
            None => None,
        },
        time: match existing {
            Some(lockfile) => lockfile.time,
            None => None,
        },
        extra_fields: match existing {
            Some(lockfile) => lockfile.extra_fields,
            None => Map::empty(),
        },
        project_snapshot: root,
        packages: if kept == Map::<PathId, PackageModel>::empty() {
            None
        } else {
            Some(kept)
        },
        package_keys: if kept == Map::<PathId, PackageModel>::empty() {
            None
        } else {
            Some(prune::pruned_keys(packages.pairs(), packages.full_keys(), root))
        },
    }
}

/// A lockfile holds what was resolved: of the packages that there were and those
/// that came on top, in whatever order, the ones that an importer needs.
pub open spec fn is_assembled(
    lockfile: LockfileModel,
    parts: LockfileParts,
    added: Map<PathId, PackageModel>,
    added_keys: Map<PathId, PathModel>,
    runtime: RuntimeLockfileConfig,
    patched: Option<Map<Seq<char>, JsonModel>>,
    on_windows: bool,
) -> bool {
    exists|packages: PackageMap| #[trigger]
        assembled(parts, packages, runtime, patched, on_windows) == lockfile && packages.deep_view()
            == existing_packages(
            parts.existing_lockfile.deep_view(),
        ).union_prefer_right(added) && packages.full_keys() == added_keys.union_prefer_right(
            existing_keys(parts.existing_lockfile.deep_view()),
        )
}

/// The lockfile that holds what was resolved.
pub fn build_lockfile(
    parts: &LockfileParts,
    package_snapshots: &PackageSnapshots,
    runtime: RuntimeLockfileConfig,
    patched_dependencies: Option<TextMap<Json>>,
    on_windows: bool,
) -> (lockfile: Lockfile)
    requires
        package_snapshots.well_formed(),
    ensures
        is_assembled(
            lockfile.deep_view(),
            *parts,
            table::map_of(package_snapshots.pairs()),
            package_snapshots.full_keys(),
            runtime,
            patched_dependencies.deep_view(),
            on_windows,
        ),
{
    let mut packages: PackageMap = match parts.existing_lockfile {
        Some(existing) => match &existing.packages {
            Some(packages) => packages.duplicate(),
            None => Table::new(),
        },
        None => Table::new(),
    };
    package_snapshots.add_to(&mut packages);
    let project = install_with_lockfile::build_project_snapshot(
        parts.manifest,
        parts.dependency_groups,
        parts.resolved_direct_dependencies,
        parts.config.exclude_links_from_lockfile,
    );
    let deduped = snapshots::dedupe_project_snapshot(
        &project,
        Some(&packages),
        parts.config.dedupe_peer_dependents,
    );
    let existing = match parts.existing_lockfile {
        Some(existing) => Some(&existing.project_snapshot),
        None => None,
    };
    let merged = merge_project_snapshot(existing, parts.lockfile_importer_id, deduped);
    let root = ensure_workspace_importers(
        merged,
        parts.lockfile_dir,
        parts.workspace_packages,
        on_windows,
    );
    let kept = prune::prune_unreferenced_packages(&root, &packages);
    let (ignored_optional_dependencies, catalogs, time) = match parts.existing_lockfile {
        Some(existing) => (
            existing.ignored_optional_dependencies.duplicate(),
            existing.catalogs.duplicate(),
            existing.time.duplicate(),
        ),
        None => (None, None, None),
    };
    let extra_fields: TextMap<Json> = match parts.existing_lockfile {
        Some(existing) => existing.extra_fields.duplicate(),
        None => Table::new(),
    };
    let lockfile = Lockfile {
        lockfile_version: (9, 0),
        settings: Some(runtime.settings),
        never_built_dependencies: None,
        ignored_optional_dependencies,
        overrides: runtime.overrides,
        package_extensions_checksum: runtime.package_extensions_checksum,
        patched_dependencies,
        pnpmfile_checksum: runtime.pnpmfile_checksum,
        catalogs,
        time,
        extra_fields,
        project_snapshot: root,
        packages: if kept.is_empty() {
            None
        } else {
            Some(kept)
        },
    };
    assert(assembled(*parts, packages, runtime, patched_dependencies.deep_view(), on_windows)
        == lockfile.deep_view());
    lockfile
}

/// What a lockfile keeps of the importer that is installed.
pub open spec fn installed_importer(root: RootModel, importer_id: Seq<char>) -> ProjectModel {
    match root {
        RootModel::Single(project) => project,
        RootModel::Multi(importers) => if importers.dom().contains(importer_id) {
            importers[importer_id]
        } else {
            lockfile::empty_project()
        },
    }
}

/// What a lockfile keeps of the importer that is installed.
pub fn project_snapshot_for_importer(root: &RootProjectSnapshot, importer_id: &str) -> (project:
    ProjectSnapshot)
    ensures
        project.deep_view() == installed_importer(root.deep_view(), importer_id@),
{
    match root {
        RootProjectSnapshot::Single(snapshot) => snapshot.duplicate(),
        RootProjectSnapshot::Multi(importers) => match importers.get_text(importer_id) {
            Some(snapshot) => snapshot.duplicate(),
            None => ProjectSnapshot::empty(),
        },
    }
}

/// A lockfile that was just written was written under the settings of now, and
/// the next installation finds none outdated. The catalogs are those of the
/// lockfile that there was: where they have changed, they still have to be
/// resolved.
pub proof fn law_written_lockfile_is_current(
    lockfile: LockfileModel,
    parts: LockfileParts,
    added: Map<PathId, PackageModel>,
    added_keys: Map<PathId, PathModel>,
    runtime: RuntimeLockfileConfig,
    patched: Option<Map<Seq<char>, JsonModel>>,
    on_windows: bool,
)
    requires
        is_assembled(lockfile, parts, added, added_keys, runtime, patched, on_windows),
        lockfile_check::catalogs_are_current(
            runtime.deep_view().catalogs,
            match parts.existing_lockfile {
                Some(existing) => existing.catalogs.deep_view(),
                None => None,
            },
        ),
    ensures
        lockfile_check::outdated_setting(lockfile, runtime.deep_view()) is None,
{
}

/// A lockfile that was just written says of the project what its manifest asks
/// for, so that the next installation need not resolve anything. All groups are
/// installed, a name stands in one of them alone, and the versions that were
/// resolved belong to the ranges that are asked for.
pub proof fn law_written_lockfile_fits_its_manifest(
    lockfile: LockfileModel,
    parts: LockfileParts,
    added: Map<PathId, PackageModel>,
    added_keys: Map<PathId, PathModel>,
    runtime: RuntimeLockfileConfig,
    patched: Option<Map<Seq<char>, JsonModel>>,
    project: ProjectSnapshot,
    auto_install_peers: bool,
    on_windows: bool,
)
    requires
        is_assembled(lockfile, parts, added, added_keys, runtime, patched, on_windows),
        project.deep_view() == installed_importer(
            lockfile.project_snapshot,
            parts.lockfile_importer_id@,
        ),
        parts.dependency_groups@.contains(DependencyGroup::Prod),
        parts.dependency_groups@.contains(DependencyGroup::Optional),
        parts.dependency_groups@.contains(DependencyGroup::Dev),
        !parts.dependency_groups@.contains(DependencyGroup::Peer),
        install_with_lockfile::groups_are_apart(parts.manifest.deep_view()),
        install_with_lockfile::all_resolved(
            parts.manifest.deep_view(),
            parts.resolved_direct_dependencies.deep_view(),
            parts.config.exclude_links_from_lockfile,
        ),
        install_with_lockfile::versions_fit(project, parts.manifest.deep_view()),
    ensures
        manifest_check::is_verdict(
            project,
            manifest_check::manifest_of(parts.manifest.deep_view()),
            manifest_check::wanted(
                project.deep_view(),
                manifest_check::manifest_of(parts.manifest.deep_view()),
                auto_install_peers,
                parts.config.exclude_links_from_lockfile,
            ),
            true,
            None,
        ),
{
    let packages = choose|packages: PackageMap| #[trigger]
        assembled(parts, packages, runtime, patched, on_windows) == lockfile && packages.deep_view()
            == existing_packages(
            parts.existing_lockfile.deep_view(),
        ).union_prefer_right(added) && packages.full_keys() == added_keys.union_prefer_right(
            existing_keys(parts.existing_lockfile.deep_view()),
        );
    let whole = install_with_lockfile::project_of(
        parts.manifest.deep_view(),
        parts.dependency_groups@,
        parts.resolved_direct_dependencies.deep_view(),
        parts.config.exclude_links_from_lockfile,
    );
    let deduped = if parts.config.dedupe_peer_dependents {
        snapshots::deduped_project(packages, whole)
    } else {
        whole
    };
    let id = parts.lockfile_importer_id@;
    let merged = with_importer(existing_root(parts.existing_lockfile.deep_view()), id, deduped);
    assert(importers_of(merged).dom().contains(id) && importers_of(merged)[id] == deduped);
    assert(project.deep_view() == deduped);
    assert forall|group: DependencyGroup| #[trigger]
        install_with_lockfile::names_of(deduped, group) == install_with_lockfile::names_of(
            whole,
            group,
        ) by {
        assert(install_with_lockfile::names_of(deduped, group) =~= install_with_lockfile::names_of(
            whole,
            group,
        ));
    }
    install_with_lockfile::law_written_importer_fits_its_manifest(
        project,
        parts.manifest.deep_view(),
        parts.dependency_groups@,
        parts.resolved_direct_dependencies.deep_view(),
        parts.config.exclude_links_from_lockfile,
        auto_install_peers,
    );
}

/// A direct dependency of a lockfile that was just written leads to the
/// directory of the virtual store that its package is put into. Where preferred
/// variants take the place of dependencies, it is theirs.
pub proof fn law_written_dependency_leads_to_its_package(
    lockfile: LockfileModel,
    parts: LockfileParts,
    added: Map<PathId, PackageModel>,
    added_keys: Map<PathId, PathModel>,
    runtime: RuntimeLockfileConfig,
    patched: Option<Map<Seq<char>, JsonModel>>,
    group: DependencyGroup,
    name: Seq<char>,
    package: PackageVersion,
    version: ResolvedDependencyVersion,
    packages: Option<PackageMap>,
    on_windows: bool,
)
    requires
        is_assembled(lockfile, parts, added, added_keys, runtime, patched, on_windows),
        !parts.config.dedupe_peer_dependents,
        !(group is Peer),
        parts.dependency_groups@.contains(group),
        install_with_lockfile::group_entries(
            parts.manifest.deep_view(),
            group,
        ).dom().contains(name),
        ({
            let asked = (
                name,
                install_with_lockfile::group_entries(parts.manifest.deep_view(), group)[name],
            );
            let resolved = parts.resolved_direct_dependencies.deep_view();
            resolved.dom().contains(asked) && resolved[asked].version
                == install_with_lockfile::resolved_to(name, package)
        }),
        version.deep_view() == install_with_lockfile::resolved_to(name, package),
    ensures
        ({
            let importer = installed_importer(
                lockfile.project_snapshot,
                parts.lockfile_importer_id@,
            );
            &&& lockfile::group_map(importer, group) is Some
            &&& lockfile::group_map(importer, group)->0.dom().contains(name)
            &&& lockfile::group_map(importer, group)->0[name].version == version.deep_view()
        }),
        snapshots::store_location(name, version, packages) == Some(
            (name, package.virtual_store_name@, package.name@),
        ),
{
    let all = choose|all: PackageMap| #[trigger]
        assembled(parts, all, runtime, patched, on_windows) == lockfile && all.deep_view()
            == existing_packages(
            parts.existing_lockfile.deep_view(),
        ).union_prefer_right(added) && all.full_keys() == added_keys.union_prefer_right(
            existing_keys(parts.existing_lockfile.deep_view()),
        );
    let whole = install_with_lockfile::project_of(
        parts.manifest.deep_view(),
        parts.dependency_groups@,
        parts.resolved_direct_dependencies.deep_view(),
        parts.config.exclude_links_from_lockfile,
    );
    let id = parts.lockfile_importer_id@;
    let merged = with_importer(existing_root(parts.existing_lockfile.deep_view()), id, whole);
    assert(importers_of(merged).dom().contains(id) && importers_of(merged)[id] == whole);
    assert(installed_importer(lockfile.project_snapshot, id) == whole);
    let written = install_with_lockfile::written_group(
        install_with_lockfile::group_entries(parts.manifest.deep_view(), group),
        parts.resolved_direct_dependencies.deep_view(),
        parts.config.exclude_links_from_lockfile,
    );
    assert(written.dom().contains(name));
    assert(written != Map::<Seq<char>, ResolvedSpecModel>::empty());
}

/// The lockfile that is written records what it was written under: the settings, the
/// overrides, the extensions, the pnpmfile and the patches of now. What an earlier one says
/// of catalogs, times and anything unknown stays.
pub proof fn law_written_lockfile_records_the_settings(
    lockfile: LockfileModel,
    parts: LockfileParts,
    added: Map<PathId, PackageModel>,
    added_keys: Map<PathId, PathModel>,
    runtime: RuntimeLockfileConfig,
    patched: Option<Map<Seq<char>, JsonModel>>,
    on_windows: bool,
)
    requires
        is_assembled(lockfile, parts, added, added_keys, runtime, patched, on_windows),
    ensures
        lockfile.lockfile_version == (9u16, 0u16),
        lockfile.settings == Some(runtime.settings),
        lockfile.overrides == runtime.overrides.deep_view(),
        lockfile.package_extensions_checksum == runtime.package_extensions_checksum.deep_view(),
        lockfile.pnpmfile_checksum == runtime.pnpmfile_checksum.deep_view(),
        lockfile.patched_dependencies == patched,
        parts.existing_lockfile is None ==> lockfile.catalogs is None && lockfile.time is None
            && lockfile.extra_fields.dom() == Set::<Seq<char>>::empty(),
        parts.existing_lockfile matches Some(existing) ==> {
            &&& lockfile.catalogs == existing.deep_view().catalogs
            &&& lockfile.time == existing.deep_view().time
            &&& lockfile.extra_fields == existing.deep_view().extra_fields
            &&& lockfile.ignored_optional_dependencies
                == existing.deep_view().ignored_optional_dependencies
        },
{
    assert(Map::<Seq<char>, JsonModel>::empty().dom() =~= Set::<Seq<char>>::empty());
}

/// The lockfile that is written has the importer that was resolved, under its id, with
/// every direct dependency by its name; other importers stay as they were, and every
/// package of the workspace is one.
pub proof fn law_written_lockfile_has_the_importer(
    lockfile: LockfileModel,
    parts: LockfileParts,
    added: Map<PathId, PackageModel>,
    added_keys: Map<PathId, PathModel>,
    runtime: RuntimeLockfileConfig,
    patched: Option<Map<Seq<char>, JsonModel>>,
    on_windows: bool,
    name: Seq<char>,
    other: Seq<char>,
)
    requires
        is_assembled(lockfile, parts, added, added_keys, runtime, patched, on_windows),
    ensures
        ({
            let own = importers_of(lockfile.project_snapshot);
            let id = parts.lockfile_importer_id@;
            let asked = install_with_lockfile::project_of(
                parts.manifest.deep_view(),
                parts.dependency_groups@,
                parts.resolved_direct_dependencies.deep_view(),
                parts.config.exclude_links_from_lockfile,
            );
            &&& own.dom().contains(id)
            &&& own[id].specifiers == asked.specifiers
            &&& current_lockfile::has_alias(own[id].dependencies, name)
                <==> current_lockfile::has_alias(asked.dependencies, name)
            &&& current_lockfile::has_alias(own[id].optional_dependencies, name)
                <==> current_lockfile::has_alias(asked.optional_dependencies, name)
            &&& current_lockfile::has_alias(own[id].dev_dependencies, name)
                <==> current_lockfile::has_alias(asked.dev_dependencies, name)
            &&& !parts.config.dedupe_peer_dependents ==> own[id] == asked
            &&& parts.existing_lockfile matches Some(existing) ==> (other != id && importers_of(
                existing.deep_view().project_snapshot,
            ).dom().contains(other) ==> own.dom().contains(other) && own[other] == importers_of(
                existing.deep_view().project_snapshot,
            )[other])
            &&& parts.workspace_packages.deep_view().dom().contains(name) ==> own.dom().contains(
                paths::importer_id(
                    parts.lockfile_dir@,
                    parts.workspace_packages.deep_view()[name].root_dir,
                    on_windows,
                ),
            )
        }),
{
    let packages = choose|packages: PackageMap| #[trigger]
        assembled(parts, packages, runtime, patched, on_windows) == lockfile && packages.deep_view()
            == existing_packages(
            parts.existing_lockfile.deep_view(),
        ).union_prefer_right(added) && packages.full_keys() == added_keys.union_prefer_right(
            existing_keys(parts.existing_lockfile.deep_view()),
        );
    let all = parts.workspace_packages.deep_view();
    if all.dom().contains(name) {
        assert(all != Map::<Seq<char>, WorkspacePackageModel>::empty());
        assert(is_workspace_importer(
            parts.lockfile_dir@,
            all,
            paths::importer_id(parts.lockfile_dir@, all[name].root_dir, on_windows),
            on_windows,
        ));
    }
}

/// A copy of a package of the workspace becomes a link only where the settings ask for
/// that, the manifest injects it, the lockfile knows the importer, and every dependency of
/// the copy is one of the importer as well. The link leads to the package.
pub proof fn law_copy_is_relinked_only_where_it_fits(
    project: InjectingProject,
    ctx: InjectedModel,
    name: Seq<char>,
    specifier: Seq<char>,
    version: ResolvedVersionModel,
    on_windows: bool,
    alias: Seq<char>,
)
    requires
        relinked(project, ctx, name, specifier, version, on_windows) is Some,
    ensures
        project.config.dedupe_injected_deps,
        text::starts_with(specifier, "workspace:"@),
        exists|root_dir: Seq<char>, i: int|
            0 <= i < ctx.pairs.len() && (relinked(
                project,
                ctx,
                name,
                specifier,
                version,
                on_windows,
            )->0).version == ResolvedVersionModel::Link(
                #[trigger] workspace::workspace_link(
                    workspace::manifest_dir(project.manifest_path@, on_windows),
                    root_dir,
                    on_windows,
                ),
            ) && existing_project(
                ctx.existing,
                paths::importer_id(ctx.lockfile_dir, root_dir, on_windows),
            ) is Some && ((#[trigger] ctx.pairs[i]).1.dependencies is Some
                && ctx.pairs[i].1.dependencies->0.dom().contains(alias) ==> project_dependencies(
                existing_project(
                    ctx.existing,
                    paths::importer_id(ctx.lockfile_dir, root_dir, on_windows),
                )->0,
            ).dom().contains(alias)),
{
    let root_dir = looked_up(project.lookups@, name, specifier, 0)->0;
    let link = version->Link_0;
    let id = paths::importer_id(ctx.lockfile_dir, root_dir, on_windows);
    let i = injected_copy(ctx, link, root_dir, on_windows)->0;
    lemma_directory_index(
        ctx.pairs,
        link,
        text::trim_start_text(
            workspace::local_reference(ctx.lockfile_dir, root_dir, on_windows),
            "file:"@,
        ),
        0,
    );
    assert(copy_fits(ctx, i, id, Seq::empty(), copy_bound(ctx), on_windows));
    assert(copy_bound(ctx) > 0) by (nonlinear_arith)
        requires
            copy_bound(ctx) == ctx.pairs.len() * (ctx.workspace_packages.len() + 1),
            ctx.pairs.len() > 0,
    ;
    if ctx.pairs[i].1.dependencies is Some && ctx.pairs[i].1.dependencies->0.dom().contains(
        alias,
    ) {
        assert(counterpart(ctx, id, alias) is Some);
    }
    assert(ctx.pairs[i] == ctx.pairs[i]);
    assert((relinked(project, ctx, name, specifier, version, on_windows)->0).version
        == ResolvedVersionModel::Link(
        workspace::workspace_link(
            workspace::manifest_dir(project.manifest_path@, on_windows),
            root_dir,
            on_windows,
        ),
    ));
}

/// After copies were replaced by links every direct dependency is still resolved, and one
/// that was not a copy is resolved as it was.
pub proof fn law_relinking_keeps_the_rest(
    project: InjectingProject,
    ctx: InjectedModel,
    resolved: Map<(Seq<char>, Seq<char>), ResolvedPackageModel>,
    on_windows: bool,
    key: (Seq<char>, Seq<char>),
)
    ensures
        all_relinked(project, ctx, resolved, on_windows).dom().contains(key)
            <==> resolved.dom().contains(key),
        resolved.dom().contains(key) && !(resolved[key].version is Link) ==> all_relinked(
            project,
            ctx,
            resolved,
            on_windows,
        )[key] == resolved[key],
{
}

} // verus!
