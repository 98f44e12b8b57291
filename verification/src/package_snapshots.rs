//! What a resolution has come across so far: which packages, and what the
//! lockfile is to hold of them.
use crate::lockfile;
use crate::lockfile::{
    DependencyPath, LockfileResolution, PackageMap, PackageModel, PackageSnapshot, PathId,
    PathModel, ResolutionModel,
};
use crate::table;
use crate::text;
use crate::value::{Key, Value};
use dashmap::{DashMap, DashSet};
use vstd::prelude::*;
use vstd::string::*;

verus! {

/// The concurrent set of `dashmap`.
#[verifier::external_type_specification]
#[verifier::external_body]
#[verifier::reject_recursive_types(K)]
#[verifier::reject_recursive_types(S)]
pub struct ExDashSet<K, S>(DashSet<K, S>);

/// The concurrent map of `dashmap`.
#[verifier::external_type_specification]
#[verifier::external_body]
#[verifier::reject_recursive_types(K)]
#[verifier::reject_recursive_types(V)]
#[verifier::reject_recursive_types(S)]
pub struct ExDashMap<K, V, S>(DashMap<K, V, S>);

/// The texts in a set.
pub uninterp spec fn set_members(set: DashSet<String>) -> Set<Seq<char>>;

/// Makes a set with `dashmap::DashSet::new`: it is empty.
#[verifier::external_body]
fn set_new() -> (set: DashSet<String>)
    ensures
        set_members(set) == Set::<Seq<char>>::empty(),
{
    DashSet::new()
}

/// Puts a text into a set with `dashmap::DashSet::insert`, which tells whether
/// it was not there before.
#[verifier::external_body]
fn set_insert(set: &mut DashSet<String>, text: String) -> (added: bool)
    ensures
        added == !set_members(*old(set)).contains(text@),
        set_members(*final(set)) == set_members(*old(set)).insert(text@),
{
    set.insert(text)
}

/// The snapshots in a map, by their numbers.
pub uninterp spec fn map_entries(held: DashMap<u64, PackageSnapshot>) -> Map<u64, PackageModel>;

/// Makes a map with `dashmap::DashMap::new`: it is empty.
#[verifier::external_body]
fn map_new() -> (held: DashMap<u64, PackageSnapshot>)
    ensures
        map_entries(held).dom() == Set::<u64>::empty(),
{
    DashMap::new()
}

/// Puts a snapshot into a map with `dashmap::DashMap::insert`, in place of the
/// one that the number had.
#[verifier::external_body]
fn map_insert(held: &mut DashMap<u64, PackageSnapshot>, number: u64, snapshot: PackageSnapshot)
    ensures
        map_entries(*final(held)) == map_entries(*old(held)).insert(number, snapshot.deep_view()),
{
    held.insert(number, snapshot);
}

/// Reads a snapshot of a map with `dashmap::DashMap::get`, and copies it.
#[verifier::external_body]
fn map_get(held: &DashMap<u64, PackageSnapshot>, number: u64) -> (snapshot: Option<PackageSnapshot>)
    ensures
        match snapshot {
            Some(snapshot) => map_entries(*held).dom().contains(number) && snapshot.deep_view()
                == map_entries(*held)[number],
            None => !map_entries(*held).dom().contains(number),
        },
{
    held.get(&number).map(|entry| entry.value().duplicate())
}

/// The names of the packages that a resolution has taken up.
pub struct ResolvedPackages {
    names: DashSet<String>,
}

impl ResolvedPackages {
    /// The names.
    pub closed spec fn names(self) -> Set<Seq<char>> {
        set_members(self.names)
    }

    /// No names.
    pub fn new() -> (packages: ResolvedPackages)
        ensures
            packages.names() == Set::<Seq<char>>::empty(),
    {
        ResolvedPackages { names: set_new() }
    }

    /// Adds a name, and tells whether it is a new one.
    pub fn insert(&mut self, name: String) -> (added: bool)
        ensures
            added == !old(self).names().contains(name@),
            final(self).names() == old(self).names().insert(name@),
    {
        set_insert(&mut self.names, name)
    }
}

/// What the lockfile is to hold of the packages that a resolution has taken up.
pub struct PackageSnapshots {
    paths: Vec<DependencyPath>,
    held: DashMap<u64, PackageSnapshot>,
}

impl PackageSnapshots {
    /// The packages in the order in which they came.
    pub closed spec fn pairs(self) -> Seq<(PathId, PackageModel)> {
        Seq::new(
            self.paths@.len(),
            |i: int| (self.paths@[i].ident(), map_entries(self.held)[i as u64]),
        )
    }

    /// The keys in order, by their identity.
    pub closed spec fn named(self) -> Seq<(PathId, PathModel)> {
        Seq::new(
            self.paths@.len(),
            |i: int| (self.paths@[i].ident(), self.paths@[i].deep_view()),
        )
    }

    /// The keys by their identity.
    pub open spec fn full_keys(self) -> Map<PathId, PathModel> {
        table::map_of(self.named())
    }

    /// The keys that are named are those of the packages.
    pub proof fn lemma_named(self)
        ensures
            self.named().len() == self.pairs().len(),
            table::keys(self.named()) == table::keys(self.pairs()),
            self.full_keys().dom() == table::map_of(self.pairs()).dom(),
            forall|i: int|
                0 <= i < self.pairs().len() ==> (#[trigger] self.named()[i]).0
                    == self.pairs()[i].0,
    {
        assert(table::keys(self.named()) =~= table::keys(self.pairs()));
        assert(self.full_keys().dom() =~= table::map_of(self.pairs()).dom());
    }

    /// Each package has one key, and every key has its package.
    pub closed spec fn well_formed(self) -> bool {
        &&& table::keys(self.pairs()).no_duplicates()
        &&& forall|n: u64| #[trigger] map_entries(self.held).dom().contains(n) <==> n
            < self.paths@.len()
    }

    /// No packages.
    pub fn new() -> (snapshots: PackageSnapshots)
        ensures
            snapshots.well_formed(),
            snapshots.pairs() == Seq::<(PathId, PackageModel)>::empty(),
            snapshots.full_keys() == Map::<PathId, PathModel>::empty(),
    {
        let snapshots = PackageSnapshots { paths: Vec::new(), held: map_new() };
        assert(snapshots.pairs() =~= Seq::<(PathId, PackageModel)>::empty());
        assert(snapshots.full_keys() =~= Map::<PathId, PathModel>::empty());
        snapshots
    }

    /// The number of packages.
    pub fn len(&self) -> (n: usize)
        requires
            self.well_formed(),
        ensures
            n == self.pairs().len(),
            table::keys(self.pairs()).no_duplicates(),
    {
        self.paths.len()
    }

    /// The key of a package.
    pub fn key_at(&self, i: usize) -> (path: &DependencyPath)
        requires
            self.well_formed(),
            i < self.pairs().len(),
        ensures
            path.ident() == self.pairs()[i as int].0,
            path.deep_view() == self.named()[i as int].1,
    {
        &self.paths[i]
    }

    /// A copy of what is held of a package.
    pub fn value_at(&self, i: usize) -> (snapshot: PackageSnapshot)
        requires
            self.well_formed(),
            i < self.pairs().len(),
        ensures
            snapshot.deep_view() == self.pairs()[i as int].1,
    {
        assert(map_entries(self.held).dom().contains(i as u64));
        map_get(&self.held, i as u64).unwrap()
    }

    /// The place of a key.
    pub fn position(&self, path: &DependencyPath) -> (found: Option<usize>)
        requires
            self.well_formed(),
        ensures
            match found {
                Some(i) => i < self.pairs().len() && self.pairs()[i as int].0 == path.ident(),
                None => !table::keys(self.pairs()).contains(path.ident()),
            },
    {
        let mut i: usize = 0;
        while i < self.paths.len()
            invariant
                i <= self.paths@.len(),
                forall|j: int| 0 <= j < i ==> #[trigger] self.pairs()[j].0 != path.ident(),
            decreases self.paths@.len() - i,
        {
            if self.paths[i].is_key(path) {
                assert(self.pairs()[i as int].0 == path.ident());
                return Some(i);
            }
            assert(self.pairs()[i as int].0 != path.ident());
            i = i + 1;
        }
        proof {
            let keys = table::keys(self.pairs());
            if keys.contains(path.ident()) {
                let k = keys.index_of(path.ident());
                assert(self.pairs()[k].0 == path.ident());
            }
        }
        None
    }

    /// A copy of what is held under a key.
    pub fn get(&self, path: &DependencyPath) -> (snapshot: Option<PackageSnapshot>)
        requires
            self.well_formed(),
        ensures
            match snapshot {
                Some(snapshot) => table::map_of(self.pairs()).dom().contains(path.ident())
                    && table::map_of(self.pairs())[path.ident()] == snapshot.deep_view(),
                None => !table::map_of(self.pairs()).dom().contains(path.ident()),
            },
    {
        match self.position(path) {
            Some(i) => {
                proof {
                    table::lemma_map_entry(self.pairs(), i as int);
                }
                Some(self.value_at(i))
            },
            None => None,
        }
    }

    /// Holds a package under a key, in place of the one that it had. A key that
    /// was there stays as it is.
    pub fn insert(&mut self, path: DependencyPath, snapshot: PackageSnapshot)
        requires
            old(self).well_formed(),
        ensures
            final(self).well_formed(),
            final(self).pairs() == table::put(
                old(self).pairs(),
                path.ident(),
                snapshot.deep_view(),
            ),
            final(self).full_keys() == table::with_key(
                old(self).full_keys(),
                path.ident(),
                path.deep_view(),
            ),
    {
        let ghost before = *self;
        let ghost whole = path.deep_view();
        let ghost key = path.ident();
        let ghost model = snapshot.deep_view();
        proof {
            table::lemma_put(self.pairs(), key, model);
            self.lemma_named();
            table::lemma_put(self.named(), key, whole);
        }
        let n: usize = self.paths.len();
        match self.position(&path) {
            Some(i) => {
                map_insert(&mut self.held, i as u64, snapshot);
                proof {
                    let keys = table::keys(before.pairs());
                    assert(keys[i as int] == key);
                    assert(keys.index_of(key) == i);
                    let put = table::put(before.pairs(), key, model);
                    assert(put.len() == self.pairs().len());
                    assert forall|j: int| 0 <= j < put.len() implies #[trigger] self.pairs()[j]
                        == put[j] by {
                        assert((j as u64) as int == j);
                    }
                    assert(self.pairs() =~= table::put(before.pairs(), key, model));
                    assert(self.named() =~= before.named());
                }
            },
            None => {
                map_insert(&mut self.held, n as u64, snapshot);
                self.paths.push(path);
                assert(self.pairs() =~= table::put(before.pairs(), key, model));
                assert(self.named() =~= table::put(before.named(), key, whole));
            },
        }
    }

    /// Adds the packages to others, in place of those with their keys.
    pub fn add_to(&self, packages: &mut PackageMap)
        requires
            self.well_formed(),
        ensures
            final(packages).deep_view() == old(packages).deep_view().union_prefer_right(
                table::map_of(self.pairs()),
            ),
            final(packages).full_keys() == self.full_keys().union_prefer_right(
                old(packages).full_keys(),
            ),
    {
        let ghost pairs = self.pairs();
        let ghost before = packages.deep_view();
        let n: usize = self.len();
        let ghost named = self.named();
        let ghost held = packages.full_keys();
        let mut i: usize = 0;
        proof {
            self.lemma_named();
        }
        assert(table::map_of(named.take(0)).dom() =~= Set::empty());
        assert(packages.full_keys() =~= table::map_of(named.take(0)).union_prefer_right(held));
        assert(table::map_of(pairs.take(0)).dom() =~= Set::empty());
        assert(packages.deep_view() =~= before.union_prefer_right(table::map_of(pairs.take(0))));
        while i < n
            invariant
                self.well_formed(),
                pairs == self.pairs(),
                n == pairs.len(),
                table::keys(pairs).no_duplicates(),
                i <= n,
                named == self.named(),
                named.len() == n,
                table::keys(named) == table::keys(pairs),
                forall|j: int| 0 <= j < n ==> (#[trigger] named[j]).0 == pairs[j].0,
                packages.full_keys() == table::map_of(named.take(i as int)).union_prefer_right(
                    held,
                ),
                packages.deep_view() == before.union_prefer_right(
                    table::map_of(pairs.take(i as int)),
                ),
            decreases n - i,
        {
            packages.insert(self.key_at(i).duplicate(), self.value_at(i));
            proof {
                table::lemma_take_next(pairs, i as int);
                table::lemma_take_next(named, i as int);
                assert(named[i as int].0 == pairs[i as int].0);
                assert(packages.full_keys() =~= table::map_of(
                    named.take(i + 1),
                ).union_prefer_right(held));
                assert(packages.deep_view() =~= before.union_prefer_right(
                    table::map_of(pairs.take(i + 1)),
                ));
            }
            i = i + 1;
        }
        assert(pairs.take(i as int) =~= pairs);
        assert(named.take(i as int) =~= named);
    }
}

/// A package that is needed after all.
pub open spec fn required(package: PackageModel) -> PackageModel {
    PackageModel { optional: None, ..package }
}

/// The packages after one of them turned up again.
pub open spec fn seen_again(
    pairs: Seq<(PathId, PackageModel)>,
    path: PathId,
    optional: bool,
) -> Seq<(PathId, PackageModel)> {
    if !optional && table::keys(pairs).contains(path) {
        table::put(pairs, path, required(table::map_of(pairs)[path]))
    } else {
        pairs
    }
}

/// Makes a package that turns up again a needed one, unless it is again only
/// optional.
pub fn downgrade_existing_snapshot_optional_flag(
    package_snapshots: &mut PackageSnapshots,
    dependency_path: &DependencyPath,
    optional: bool,
)
    requires
        old(package_snapshots).well_formed(),
    ensures
        final(package_snapshots).well_formed(),
        final(package_snapshots).pairs() == seen_again(
            old(package_snapshots).pairs(),
            dependency_path.ident(),
            optional,
        ),
        final(package_snapshots).full_keys() == old(package_snapshots).full_keys(),
{
    if optional {
        return;
    }
    proof {
        package_snapshots.lemma_named();
    }
    if let Some(mut snapshot) = package_snapshots.get(dependency_path) {
        snapshot.optional = None;
        package_snapshots.insert(dependency_path.duplicate(), snapshot);
    }
}

/// The package is a local directory that is referred to in a certain way.
pub open spec fn is_local_directory(
    pair: (PathId, PackageModel),
    link: Seq<char>,
    directory: Seq<char>,
) -> bool {
    lockfile::local_reference(pair.0) == Some(link) && (pair.1.resolution matches
        ResolutionModel::Directory { directory: held } && held == directory)
}

/// The first local directory that is referred to in a certain way.
pub open spec fn local_directory_index(
    pairs: Seq<(PathId, PackageModel)>,
    link: Seq<char>,
    directory: Seq<char>,
    from: int,
) -> Option<int>
    decreases pairs.len() - from,
{
    if from >= pairs.len() {
        None
    } else if is_local_directory(pairs[from], link, directory) {
        Some(from)
    } else {
        local_directory_index(pairs, link, directory, from + 1)
    }
}

/// The place of the local directory that is referred to in a certain way.
pub fn find_local_directory(
    package_snapshots: &PackageSnapshots,
    link: &str,
    directory: &str,
) -> (found: Option<usize>)
    requires
        package_snapshots.well_formed(),
    ensures
        match found {
            Some(i) => local_directory_index(package_snapshots.pairs(), link@, directory@, 0)
                == Some(i as int) && i < package_snapshots.pairs().len(),
            None => local_directory_index(
                package_snapshots.pairs(),
                link@,
                directory@,
                0,
            ) is None,
        },
{
    let n: usize = package_snapshots.len();
    let mut i: usize = 0;
    while i < n
        invariant
            package_snapshots.well_formed(),
            n == package_snapshots.pairs().len(),
            i <= n,
            local_directory_index(package_snapshots.pairs(), link@, directory@, 0)
                == local_directory_index(package_snapshots.pairs(), link@, directory@, i as int),
        decreases n - i,
    {
        let refers = match package_snapshots.key_at(i).local_file_reference() {
            Some(reference) => text::same_text(reference, link),
            None => false,
        };
        if refers {
            let snapshot = package_snapshots.value_at(i);
            if let LockfileResolution::Directory { directory: held } = &snapshot.resolution {
                if text::same_text(held.as_str(), directory) {
                    return Some(i);
                }
            }
        }
        i = i + 1;
    }
    None
}

} // verus!
