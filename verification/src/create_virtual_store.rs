//! The layout of the virtual store.
use crate::config::{NodeLinker, Npmrc};
use crate::lockfile;
use crate::lockfile::{PackageMap, PackageSnapshotDependency, PackageSpecifier, PkgNameVerPeer};
use crate::paths;
use crate::patterns;
use crate::semver;
use crate::reach;
use crate::snapshots;
use crate::sorted;
use crate::table;
use crate::table::TextMap;
use crate::text;
use crate::value;
use vstd::prelude::*;
use vstd::string::*;

verus! {

/// The directory `node_modules` of a package in the virtual store.
pub open spec fn modules_dir_of(
    virtual_store_dir: Seq<char>,
    store_name: Seq<char>,
    on_windows: bool,
) -> Seq<char> {
    paths::joined(
        paths::joined(virtual_store_dir, store_name, on_windows),
        "node_modules"@,
        on_windows,
    )
}

/// The directory `node_modules` of a package in the virtual store.
pub fn virtual_modules_dir(
    virtual_store_dir: &str,
    store_name: &str,
    on_windows: bool,
) -> (dir: String)
    ensures
        dir@ == modules_dir_of(virtual_store_dir@, store_name@, on_windows),
{
    let package_dir = paths::join_paths(virtual_store_dir, store_name, on_windows);
    paths::join_paths(package_dir.as_str(), "node_modules", on_windows)
}

/// A package of a registry may be hoisted by its name.
pub open spec fn is_candidate(
    packages: PackageMap,
    patterns: Seq<Seq<char>>,
    name: Seq<char>,
    i: int,
) -> bool {
    match packages.key(i).package_specifier {
        PackageSpecifier::Registry(specifier) => specifier.name@ == name && patterns::matches_any(
            name,
            patterns,
        ),
        _ => false,
    }
}

/// The package of a registry at `i`.
pub open spec fn registry_package(packages: PackageMap, i: int) -> PkgNameVerPeer {
    packages.key(i).package_specifier->Registry_0
}

/// A package is to be hoisted before another one of its name: the one with the
/// higher version; with one version, and where peers are deduplicated, the one
/// without peers, else the one with peers; and then the one whose directory
/// comes first.
pub open spec fn is_preferred(new: PkgNameVerPeer, current: PkgNameVerPeer, dedupe: bool) -> bool {
    let a = new.suffix.version.deep_view();
    let b = current.suffix.version.deep_view();
    let new_bare = new.suffix.peer@.len() == 0;
    let current_bare = current.suffix.peer@.len() == 0;
    if !semver::same_version(a, b) {
        semver::version_less(b, a)
    } else if new_bare != current_bare {
        new_bare == dedupe
    } else {
        text::text_less(new.suffix.store_name@, current.suffix.store_name@)
    }
}

/// The package to be hoisted under `name` among the first `n`.
pub open spec fn hoisted_index(
    packages: PackageMap,
    dedupe: bool,
    patterns: Seq<Seq<char>>,
    name: Seq<char>,
    n: int,
) -> Option<int>
    decreases n,
{
    if n <= 0 {
        None
    } else {
        let before = hoisted_index(packages, dedupe, patterns, name, n - 1);
        if is_candidate(packages, patterns, name, n - 1) && (before is None || is_preferred(
            registry_package(packages, n - 1),
            registry_package(packages, before->0),
            dedupe,
        )) {
            Some(n - 1)
        } else {
            before
        }
    }
}

/// The positions of the packages to be hoisted, by name.
pub open spec fn hoisted_packages(
    packages: PackageMap,
    dedupe: bool,
    patterns: Seq<Seq<char>>,
    n: int,
) -> Map<Seq<char>, int> {
    Map::new(
        |name: Seq<char>| hoisted_index(packages, dedupe, patterns, name, n) is Some,
        |name: Seq<char>| hoisted_index(packages, dedupe, patterns, name, n)->0,
    )
}

/// Whether a package is to be hoisted before another one of its name.
fn should_replace(new: &PkgNameVerPeer, current: &PkgNameVerPeer, dedupe: bool) -> (yes: bool)
    ensures
        yes == is_preferred(*new, *current, dedupe),
{
    if !new.suffix.version.is_same(&current.suffix.version) {
        return current.suffix.version.stands_before(&new.suffix.version);
    }
    let new_bare = new.suffix.peer.as_str().unicode_len() == 0;
    let current_bare = current.suffix.peer.as_str().unicode_len() == 0;
    if new_bare != current_bare {
        new_bare == dedupe
    } else {
        text::is_less(new.suffix.store_name.as_str(), current.suffix.store_name.as_str())
    }
}

/// The packages to be hoisted, by name: their names in order, each with the
/// position of its package.
pub struct Hoisted {
    pub names: Vec<String>,
    pub positions: Vec<usize>,
}

impl Hoisted {
    /// The names are in order, and each has its position.
    pub open spec fn holds(self, map: Map<Seq<char>, int>) -> bool {
        &&& self.names.deep_view() == sorted::in_order(map.dom())
        &&& sorted::is_sorted(self.names.deep_view())
        &&& self.names.deep_view().to_set() == map.dom()
        &&& self.positions@.len() == self.names@.len()
        &&& forall|k: int|
            0 <= k < self.positions@.len() ==> #[trigger] self.positions@[k]
                == map[self.names.deep_view()[k]]
    }
}

/// The packages to be hoisted, in the order of their names.
pub fn select_hoisted_packages(
    packages: &PackageMap,
    dedupe_peer_dependents: bool,
    hoist_patterns: &Vec<String>,
) -> (selected: Hoisted)
    ensures
        selected.holds(
            hoisted_packages(
                *packages,
                dedupe_peer_dependents,
                hoist_patterns.deep_view(),
                packages.pairs().len() as int,
            ),
        ),
        forall|k: int|
            0 <= k < selected.positions@.len() ==> #[trigger] selected.positions@[k]
                < packages.pairs().len(),
{
    let n: usize = packages.len();
    let ghost globs = hoist_patterns.deep_view();
    let mut names: Vec<String> = Vec::new();
    let mut i: usize = 0;
    while i < n
        invariant
            n == packages.pairs().len(),
            globs == hoist_patterns.deep_view(),
            i <= n,
            forall|name: Seq<char>| #[trigger]
                names.deep_view().to_set().contains(name) <==> hoisted_index(
                    *packages,
                    dedupe_peer_dependents,
                    globs,
                    name,
                    i as int,
                ) is Some,
        decreases n - i,
    {
        let ghost before = names.deep_view();
        if let PackageSpecifier::Registry(specifier) = &packages.key_at(i).package_specifier {
            if patterns::matches_patterns(specifier.name.as_str(), hoist_patterns) {
                names.push(specifier.name.clone());
                proof {
                    assert(names.deep_view() =~= before.push(specifier.name@));
                    crate::reach::lemma_push_contains(before, specifier.name@);
                }
            }
        }
        proof {
            assert forall|name: Seq<char>| #[trigger]
                names.deep_view().to_set().contains(name) <==> hoisted_index(
                    *packages,
                    dedupe_peer_dependents,
                    globs,
                    name,
                    i + 1,
                ) is Some by {
                assert(before.to_set().contains(name) <==> hoisted_index(
                    *packages,
                    dedupe_peer_dependents,
                    globs,
                    name,
                    i as int,
                ) is Some);
                assert(names.deep_view().contains(name) <==> before.contains(name)
                    || is_candidate(*packages, globs, name, i as int));
            }
        }
        i = i + 1;
    }
    let names = sorted::sorted_texts(&names);
    let ghost map = hoisted_packages(*packages, dedupe_peer_dependents, globs, n as int);
    let ghost listed = names.deep_view();
    proof {
        assert(listed.to_set() =~= map.dom());
    }
    let mut positions: Vec<usize> = Vec::new();
    while positions.len() < names.len()
        invariant
            n == packages.pairs().len(),
            globs == hoist_patterns.deep_view(),
            map == hoisted_packages(*packages, dedupe_peer_dependents, globs, n as int),
            listed == names.deep_view(),
            listed.to_set() == map.dom(),
            positions@.len() <= names@.len(),
            forall|k: int|
                0 <= k < positions@.len() ==> #[trigger] positions@[k] == map[listed[k]]
                    && positions@[k] < n,
        decreases names@.len() - positions@.len(),
    {
        let k: usize = positions.len();
        proof {
            assert(listed[k as int] == names@[k as int]@);
            assert(listed.to_set().contains(listed[k as int]));
        }
        match find_hoisted(
            packages,
            dedupe_peer_dependents,
            hoist_patterns,
            names[k].as_str(),
        ) {
            Some(p) => {
                positions.push(p);
            },
            None => {
                assert(false);
                positions.push(0);
            },
        }
    }
    Hoisted { names, positions }
}

/// The package to be hoisted under a name.
fn find_hoisted(
    packages: &PackageMap,
    dedupe: bool,
    hoist_patterns: &Vec<String>,
    name: &str,
) -> (found: Option<usize>)
    ensures
        match found {
            Some(i) => i < packages.pairs().len() && hoisted_index(
                *packages,
                dedupe,
                hoist_patterns.deep_view(),
                name@,
                packages.pairs().len() as int,
            ) == Some(i as int),
            None => hoisted_index(
                *packages,
                dedupe,
                hoist_patterns.deep_view(),
                name@,
                packages.pairs().len() as int,
            ) is None,
        },
{
    let n: usize = packages.len();
    let matched = patterns::matches_patterns(name, hoist_patterns);
    let mut best: Option<usize> = None;
    let mut i: usize = 0;
    while i < n
        invariant
            n == packages.pairs().len(),
            matched == patterns::matches_any(name@, hoist_patterns.deep_view()),
            i <= n,
            match best {
                Some(b) => b < i && is_candidate(
                    *packages,
                    hoist_patterns.deep_view(),
                    name@,
                    b as int,
                ) && hoisted_index(
                    *packages,
                    dedupe,
                    hoist_patterns.deep_view(),
                    name@,
                    i as int,
                ) == Some(b as int),
                None => hoisted_index(
                    *packages,
                    dedupe,
                    hoist_patterns.deep_view(),
                    name@,
                    i as int,
                ) is None,
            },
        decreases n - i,
    {
        if let PackageSpecifier::Registry(specifier) = &packages.key_at(i).package_specifier {
            if matched && text::same_text(specifier.name.as_str(), name) {
                match best {
                    None => {
                        best = Some(i);
                    },
                    Some(b) => {
                        if let PackageSpecifier::Registry(current) = &packages.key_at(
                            b,
                        ).package_specifier {
                            if should_replace(specifier, current, dedupe) {
                                best = Some(i);
                            }
                        }
                    },
                }
            }
        }
        i = i + 1;
    }
    best
}

/// A hoisted package, and where it and the link to it lie.
#[derive(Debug)]
pub struct HoistedLink {
    pub name: String,
    pub target: String,
    pub link: String,
}

/// The package that lies in the virtual store, and the link to it.
pub open spec fn is_hoisted_link(
    config: Npmrc,
    packages: PackageMap,
    name: Seq<char>,
    position: int,
    link: HoistedLink,
    on_windows: bool,
) -> bool {
    &&& link.name@ == name
    &&& link.target@ == paths::joined(
        modules_dir_of(
            config.virtual_store_dir@,
            registry_package(packages, position).suffix.store_name@,
            on_windows,
        ),
        name,
        on_windows,
    )
    &&& link.link@ == paths::joined(
        paths::joined(config.virtual_store_dir@, "node_modules"@, on_windows),
        name,
        on_windows,
    )
}

/// Dependencies are hoisted inside the virtual store.
pub open spec fn hoists_inside(config: Npmrc) -> bool {
    config.symlink && (config.hoist || config.shamefully_hoist)
}

/// The links to the packages that are hoisted inside the virtual store.
pub open spec fn are_hoisted_links(
    links: Seq<HoistedLink>,
    config: Npmrc,
    packages: PackageMap,
    on_windows: bool,
) -> bool {
    let map = hoisted_packages(
        packages,
        config.dedupe_peer_dependents,
        config.hoist_pattern.deep_view(),
        packages.pairs().len() as int,
    );
    let names = sorted::in_order(map.dom());
    if hoists_inside(config) {
        &&& links.len() == names.len()
        &&& forall|k: int|
            0 <= k < links.len() ==> is_hoisted_link(
                config,
                packages,
                names[k],
                map[names[k]],
                #[trigger] links[k],
                on_windows,
            )
    } else {
        links.len() == 0
    }
}

/// The hoisted links inside the virtual store, in the order of their names.
pub fn hoisted_links(
    config: &Npmrc,
    packages: &PackageMap,
    on_windows: bool,
) -> (links: Vec<HoistedLink>)
    ensures
        are_hoisted_links(links@, *config, *packages, on_windows),
{
    let mut links: Vec<HoistedLink> = Vec::new();
    if !config.symlink || (!config.hoist && !config.shamefully_hoist) {
        return links;
    }
    let selected = select_hoisted_packages(
        packages,
        config.dedupe_peer_dependents,
        &config.hoist_pattern,
    );
    let ghost map = hoisted_packages(
        *packages,
        config.dedupe_peer_dependents,
        config.hoist_pattern.deep_view(),
        packages.pairs().len() as int,
    );
    let ghost names = sorted::in_order(map.dom());
    let hoisted_modules_dir = paths::join_paths(
        config.virtual_store_dir.as_str(),
        "node_modules",
        on_windows,
    );
    while links.len() < selected.names.len()
        invariant
            names == selected.names.deep_view(),
            selected.holds(map),
            hoisted_modules_dir@ == paths::joined(
                config.virtual_store_dir@,
                "node_modules"@,
                on_windows,
            ),
            map == hoisted_packages(
                *packages,
                config.dedupe_peer_dependents,
                config.hoist_pattern.deep_view(),
                packages.pairs().len() as int,
            ),
            forall|k: int|
                0 <= k < selected.positions@.len() ==> #[trigger] selected.positions@[k]
                    < packages.pairs().len(),
            links@.len() <= selected.names@.len(),
            forall|k: int|
                0 <= k < links@.len() ==> is_hoisted_link(
                    *config,
                    *packages,
                    names[k],
                    map[names[k]],
                    #[trigger] links@[k],
                    on_windows,
                ),
        decreases selected.names@.len() - links@.len(),
    {
        let k: usize = links.len();
        let name = selected.names[k].as_str();
        let position = selected.positions[k];
        proof {
            assert(names[k as int] == name@);
            assert(names.to_set().contains(names[k as int]));
            lemma_hoisted_registry(
                *packages,
                config.dedupe_peer_dependents,
                config.hoist_pattern.deep_view(),
                name@,
                packages.pairs().len() as int,
            );
        }
        let store_name = packages.key_at(position).package_specifier.to_virtual_store_name();
        let modules_dir = virtual_modules_dir(
            config.virtual_store_dir.as_str(),
            store_name,
            on_windows,
        );
        let target = paths::join_paths(modules_dir.as_str(), name, on_windows);
        let link = paths::join_paths(hoisted_modules_dir.as_str(), name, on_windows);
        links.push(HoistedLink { name: text::copy(name), target, link });
    }
    links
}

pub proof fn lemma_hoisted_registry(
    packages: PackageMap,
    dedupe: bool,
    patterns: Seq<Seq<char>>,
    name: Seq<char>,
    n: int,
)
    requires
        hoisted_index(packages, dedupe, patterns, name, n) is Some,
    ensures
        0 <= hoisted_index(packages, dedupe, patterns, name, n)->0 < n,
        is_candidate(
            packages,
            patterns,
            name,
            hoisted_index(packages, dedupe, patterns, name, n)->0,
        ),
    decreases n,
{
    if n > 0 && hoisted_index(packages, dedupe, patterns, name, n - 1) is Some {
        lemma_hoisted_registry(packages, dedupe, patterns, name, n - 1);
    }
}

/// Some hoisted package is there without the link to it.
pub fn hoisted_links_missing(links: &Vec<HoistedLink>, present: &Vec<String>) -> (missing: bool)
    ensures
        missing == (exists|k: int|
            0 <= k < links@.len() && present.deep_view().contains((#[trigger] links@[k]).target@)
                && !present.deep_view().contains(links@[k].link@)),
{
    let mut i: usize = 0;
    while i < links.len()
        invariant
            i <= links@.len(),
            forall|k: int|
                0 <= k < i ==> !(present.deep_view().contains((#[trigger] links@[k]).target@)
                    && !present.deep_view().contains(links@[k].link@)),
        decreases links@.len() - i,
    {
        if value::list_contains(present, links[i].target.as_str()) && !value::list_contains(
            present,
            links[i].link.as_str(),
        ) {
            return true;
        }
        i = i + 1;
    }
    false
}

/// The directory in which the dependencies of the package at `i` are laid out.
pub open spec fn layout_dir(
    config: Npmrc,
    packages: PackageMap,
    i: int,
    on_windows: bool,
) -> Seq<char> {
    modules_dir_of(
        config.virtual_store_dir@,
        lockfile::specifier_store_name(packages.key(i).package_specifier),
        on_windows,
    )
}

/// The dependency `alias` is laid out in `dir`.
pub open spec fn is_laid_out(
    present: Seq<Seq<char>>,
    dir: Seq<char>,
    alias: Seq<char>,
    on_windows: bool,
) -> bool {
    present.contains(paths::joined(dir, alias, on_windows))
}

/// Every dependency is laid out in `dir`.
pub open spec fn layout_is_present(
    dependencies: Map<Seq<char>, lockfile::SnapshotDependencyModel>,
    dir: Seq<char>,
    present: Seq<Seq<char>>,
    on_windows: bool,
) -> bool {
    forall|alias: Seq<char>| #[trigger]
        dependencies.dom().contains(alias) ==> is_laid_out(present, dir, alias, on_windows)
}

/// Whether every dependency is laid out in a directory, given the paths that
/// are there.
pub fn dependency_layout_is_present(
    dependencies: &TextMap<PackageSnapshotDependency>,
    virtual_node_modules_dir: &str,
    present: &Vec<String>,
    on_windows: bool,
) -> (yes: bool)
    ensures
        yes == layout_is_present(
            dependencies.deep_view(),
            virtual_node_modules_dir@,
            present.deep_view(),
            on_windows,
        ),
{
    let n: usize = dependencies.len();
    let ghost pairs = dependencies.pairs();
    let mut i: usize = 0;
    while i < n
        invariant
            n == pairs.len(),
            pairs == dependencies.pairs(),
            table::keys(pairs).no_duplicates(),
            i <= n,
            forall|j: int|
                0 <= j < i ==> is_laid_out(
                    present.deep_view(),
                    virtual_node_modules_dir@,
                    (#[trigger] pairs[j]).0,
                    on_windows,
                ),
        decreases n - i,
    {
        let path = paths::join_paths(
            virtual_node_modules_dir,
            dependencies.key_at(i).as_str(),
            on_windows,
        );
        if !value::list_contains(present, path.as_str()) {
            proof {
                table::lemma_map_entry(pairs, i as int);
                assert(dependencies.deep_view().dom().contains(pairs[i as int].0));
            }
            return false;
        }
        i = i + 1;
    }
    proof {
        assert forall|alias: Seq<char>| #[trigger] dependencies.deep_view().dom().contains(
            alias,
        ) implies is_laid_out(
            present.deep_view(),
            virtual_node_modules_dir@,
            alias,
            on_windows,
        ) by {
            let j = table::lemma_map_index(pairs, alias);
            assert(pairs[j].0 == alias);
        }
    }
    true
}

/// The layout of the package at `i` is not complete.
pub open spec fn lacks_layout(
    config: Npmrc,
    packages: PackageMap,
    present: Seq<Seq<char>>,
    i: int,
    on_windows: bool,
) -> bool {
    !layout_is_present(
        snapshots::all_dependencies(packages.pairs()[i].1),
        layout_dir(config, packages, i, on_windows),
        present,
        on_windows,
    )
}

/// Whether some package of the virtual store lacks its dependencies, given the
/// paths that are there.
pub fn virtual_dependency_layout_missing(
    config: &Npmrc,
    packages: &PackageMap,
    present: &Vec<String>,
    on_windows: bool,
) -> (missing: bool)
    ensures
        missing == (exists|i: int|
            0 <= i < packages.pairs().len() && #[trigger] lacks_layout(
                *config,
                *packages,
                present.deep_view(),
                i,
                on_windows,
            )),
{
    let n: usize = packages.len();
    let mut i: usize = 0;
    while i < n
        invariant
            n == packages.pairs().len(),
            i <= n,
            forall|j: int|
                0 <= j < i ==> !#[trigger] lacks_layout(
                    *config,
                    *packages,
                    present.deep_view(),
                    j,
                    on_windows,
                ),
        decreases n - i,
    {
        let dependencies = snapshots::package_dependency_map(packages.value_at(i));
        let store_name = packages.key_at(i).package_specifier.to_virtual_store_name();
        let dir = virtual_modules_dir(config.virtual_store_dir.as_str(), store_name, on_windows);
        if !dependency_layout_is_present(&dependencies, dir.as_str(), present, on_windows) {
            assert(lacks_layout(*config, *packages, present.deep_view(), i as int, on_windows));
            return true;
        }
        i = i + 1;
    }
    false
}

/// A dependency of the package at `i` is laid out at a place.
pub open spec fn lies_beside(
    config: Npmrc,
    packages: PackageMap,
    i: int,
    place: Seq<char>,
    on_windows: bool,
) -> bool {
    exists|alias: Seq<char>| #[trigger]
        snapshots::all_dependencies(packages.pairs()[i].1).dom().contains(alias) && place
            == paths::joined(layout_dir(config, packages, i, on_windows), alias, on_windows)
}

/// A dependency of some package is laid out at a place.
pub open spec fn is_layout_place(
    config: Npmrc,
    packages: PackageMap,
    place: Seq<char>,
    on_windows: bool,
) -> bool {
    exists|i: int|
        0 <= i < packages.pairs().len() && #[trigger] lies_beside(
            config,
            packages,
            i,
            place,
            on_windows,
        )
}

/// The paths that tell whether some package of the virtual store lacks its
/// dependencies.
pub fn layout_probes(
    config: &Npmrc,
    packages: &PackageMap,
    on_windows: bool,
) -> (probes: Vec<String>)
    ensures
        forall|place: Seq<char>| #[trigger]
            probes.deep_view().contains(place) <==> is_layout_place(
                *config,
                *packages,
                place,
                on_windows,
            ),
{
    let n: usize = packages.len();
    let mut probes: Vec<String> = Vec::new();
    let mut i: usize = 0;
    while i < n
        invariant
            n == packages.pairs().len(),
            i <= n,
            forall|place: Seq<char>| #[trigger]
                probes.deep_view().contains(place) <==> exists|j: int|
                    0 <= j < i && #[trigger] lies_beside(*config, *packages, j, place, on_windows),
        decreases n - i,
    {
        let dependencies = snapshots::package_dependency_map(packages.value_at(i));
        let store_name = packages.key_at(i).package_specifier.to_virtual_store_name();
        let dir = virtual_modules_dir(config.virtual_store_dir.as_str(), store_name, on_windows);
        let ghost pairs = dependencies.pairs();
        let ghost before = probes.deep_view();
        let m: usize = dependencies.len();
        let mut k: usize = 0;
        while k < m
            invariant
                m == pairs.len(),
                pairs == dependencies.pairs(),
                k <= m,
                forall|place: Seq<char>| #[trigger]
                    probes.deep_view().contains(place) <==> before.contains(place) || exists|
                        j: int,
                    |
                        0 <= j < k && place == paths::joined(
                            dir@,
                            (#[trigger] pairs[j]).0,
                            on_windows,
                        ),
            decreases m - k,
        {
            let ghost held = probes.deep_view();
            let place = paths::join_paths(
                dir.as_str(),
                dependencies.key_at(k).as_str(),
                on_windows,
            );
            let ghost added = place@;
            probes.push(place);
            proof {
                assert(probes.deep_view() =~= held.push(added));
                reach::lemma_push_contains(held, added);
                assert(added == paths::joined(dir@, pairs[k as int].0, on_windows));
                assert forall|place: Seq<char>| #[trigger] probes.deep_view().contains(
                    place,
                ) implies before.contains(place) || exists|j: int|
                    0 <= j < k + 1 && place == paths::joined(
                        dir@,
                        (#[trigger] pairs[j]).0,
                        on_windows,
                    ) by {
                    if place != added && !before.contains(place) {
                        assert(held.contains(place));
                    }
                }
                assert forall|place: Seq<char>|
                    before.contains(place) || exists|j: int|
                        0 <= j < k + 1 && place == paths::joined(
                            dir@,
                            (#[trigger] pairs[j]).0,
                            on_windows,
                        ) implies #[trigger] probes.deep_view().contains(place) by {
                    if place != added {
                        assert(held.contains(place));
                    }
                }
            }
            k = k + 1;
        }
        proof {
            let all = snapshots::all_dependencies(packages.pairs()[i as int].1);
            assert(dir@ == layout_dir(*config, *packages, i as int, on_windows));
            assert(dependencies.deep_view() == all);
            assert forall|place: Seq<char>| lies_beside(
                *config,
                *packages,
                i as int,
                place,
                on_windows,
            )
                <==> #[trigger] is_among(pairs, dir@, place, on_windows) by {
                if lies_beside(*config, *packages, i as int, place, on_windows) {
                    let alias = choose|alias: Seq<char>| #[trigger]
                        all.dom().contains(alias) && place == paths::joined(
                            dir@,
                            alias,
                            on_windows,
                        );
                    let j = table::lemma_map_index(pairs, alias);
                    assert(pairs[j].0 == alias);
                }
                if is_among(pairs, dir@, place, on_windows) {
                    let j = choose|j: int|
                        0 <= j < pairs.len() && place == paths::joined(
                            dir@,
                            (#[trigger] pairs[j]).0,
                            on_windows,
                        );
                    table::lemma_map_entry(pairs, j);
                    assert(all.dom().contains(pairs[j].0));
                }
            }
            assert forall|place: Seq<char>| #[trigger] probes.deep_view().contains(place)
                <==> exists|j: int|
                0 <= j < i + 1 && #[trigger] lies_beside(
                    *config,
                    *packages,
                    j,
                    place,
                    on_windows,
                ) by {
                assert(lies_beside(*config, *packages, i as int, place, on_windows) <==> is_among(
                    pairs,
                    dir@,
                    place,
                    on_windows,
                ));
                if before.contains(place) {
                    let j = choose|j: int|
                        0 <= j < i && #[trigger] lies_beside(
                            *config,
                            *packages,
                            j,
                            place,
                            on_windows,
                        );
                    assert(lies_beside(*config, *packages, j, place, on_windows));
                }
            }
        }
        i = i + 1;
    }
    probes
}

/// A place is that of an entry in a directory.
spec fn is_among<T>(
    pairs: Seq<(Seq<char>, T)>,
    dir: Seq<char>,
    place: Seq<char>,
    on_windows: bool,
) -> bool {
    exists|j: int| 0 <= j < pairs.len() && place == paths::joined(
        dir,
        (#[trigger] pairs[j]).0,
        on_windows,
    )
}

/// Whether the layout of a package is complete is decided by the probes alone:
/// two lists of paths that agree on those lead to one answer.
pub proof fn law_probes_decide_layout(
    config: Npmrc,
    packages: PackageMap,
    present: Seq<Seq<char>>,
    other: Seq<Seq<char>>,
    i: int,
    on_windows: bool,
)
    requires
        0 <= i < packages.pairs().len(),
        forall|place: Seq<char>| #[trigger]
            is_layout_place(config, packages, place, on_windows) ==> (present.contains(place)
                <==> other.contains(place)),
    ensures
        lacks_layout(
            config,
            packages,
            present,
            i,
            on_windows,
        ) == lacks_layout(config, packages, other, i, on_windows),
{
    let all = snapshots::all_dependencies(packages.pairs()[i].1);
    let dir = layout_dir(config, packages, i, on_windows);
    assert forall|alias: Seq<char>| #[trigger] all.dom().contains(alias) implies is_laid_out(
        present,
        dir,
        alias,
        on_windows,
    ) == is_laid_out(other, dir, alias, on_windows) by {
        let place = paths::joined(dir, alias, on_windows);
        assert(lies_beside(config, packages, i, place, on_windows));
        assert(is_layout_place(config, packages, place, on_windows));
    }
    if layout_is_present(all, dir, present, on_windows) {
        assert(layout_is_present(all, dir, other, on_windows));
    }
    if layout_is_present(all, dir, other, on_windows) {
        assert(layout_is_present(all, dir, present, on_windows));
    }
}

/// What a lockfile keeps is never taken out of the virtual store.
pub proof fn law_kept_packages_are_wanted(packages: PackageMap, i: int)
    requires
        0 <= i < packages.pairs().len(),
    ensures
        is_wanted(packages, lockfile::specifier_store_name(packages.key(i).package_specifier)),
{
}

/// The directories of the package at `i`: its `node_modules`, and the package
/// itself in it.
pub open spec fn package_dirs(config: Npmrc, packages: PackageMap, i: int, on_windows: bool) -> (
    Seq<char>,
    Seq<char>,
) {
    let dir = layout_dir(config, packages, i, on_windows);
    (dir, paths::joined(dir, lockfile::specifier_name(packages.pairs()[i].0.specifier), on_windows))
}

/// The directories that have to be there before packages are linked.
pub fn virtual_store_dirs(
    config: &Npmrc,
    packages: &PackageMap,
    on_windows: bool,
) -> (dirs: Vec<(String, String)>)
    ensures
        dirs@.len() == packages.pairs().len(),
        forall|i: int|
            0 <= i < dirs@.len() ==> (#[trigger] dirs@[i]).0@ == package_dirs(
                *config,
                *packages,
                i,
                on_windows,
            ).0 && dirs@[i].1@ == package_dirs(*config, *packages, i, on_windows).1,
{
    let n: usize = packages.len();
    let mut dirs: Vec<(String, String)> = Vec::new();
    while dirs.len() < n
        invariant
            n == packages.pairs().len(),
            dirs@.len() <= n,
            forall|i: int|
                0 <= i < dirs@.len() ==> (#[trigger] dirs@[i]).0@ == package_dirs(
                    *config,
                    *packages,
                    i,
                    on_windows,
                ).0 && dirs@[i].1@ == package_dirs(*config, *packages, i, on_windows).1,
        decreases n - dirs@.len(),
    {
        let specifier = &packages.key_at(dirs.len()).package_specifier;
        let dir = virtual_modules_dir(
            config.virtual_store_dir.as_str(),
            specifier.to_virtual_store_name(),
            on_windows,
        );
        let package_dir = paths::join_paths(dir.as_str(), specifier.name(), on_windows);
        dirs.push((dir, package_dir));
    }
    dirs
}

/// The dependencies of the package at `i` are to be laid out.
pub open spec fn needs_links(config: Npmrc, packages: PackageMap, i: int) -> bool {
    &&& snapshots::all_dependencies(packages.pairs()[i].1) != Map::<
        Seq<char>,
        lockfile::SnapshotDependencyModel,
    >::empty()
    &&& config.symlink || config.node_linker is Hoisted
}

/// Whether the dependencies of a package are to be laid out.
pub fn package_needs_links(config: &Npmrc, packages: &PackageMap, i: usize) -> (yes: bool)
    requires
        i < packages.pairs().len(),
    ensures
        yes == needs_links(*config, *packages, i as int),
{
    let dependencies = snapshots::package_dependency_map(packages.value_at(i));
    let hoisted = matches!(config.node_linker, NodeLinker::Hoisted);
    !dependencies.is_empty() && (config.symlink || hoisted)
}

/// Some package has this directory in the virtual store.
pub open spec fn is_wanted(packages: PackageMap, name: Seq<char>) -> bool {
    exists|i: int|
        0 <= i < packages.pairs().len() && lockfile::specifier_store_name(
            (#[trigger] packages.key(i)).package_specifier,
        ) == name
}

/// What lies in the virtual store belongs to no package.
pub open spec fn is_orphan(packages: PackageMap, name: Seq<char>, is_dir: bool) -> bool {
    is_dir && name != "node_modules"@ && !is_wanted(packages, name)
}

/// Whether a directory of the virtual store belongs to no package any more.
pub fn is_orphaned(packages: &PackageMap, name: &str, is_dir: bool) -> (orphaned: bool)
    ensures
        orphaned == is_orphan(*packages, name@, is_dir),
{
    if !is_dir || text::same_text(name, "node_modules") {
        return false;
    }
    let n: usize = packages.len();
    let mut i: usize = 0;
    while i < n
        invariant
            n == packages.pairs().len(),
            i <= n,
            forall|j: int|
                0 <= j < i ==> lockfile::specifier_store_name(
                    (#[trigger] packages.key(j)).package_specifier,
                ) != name@,
        decreases n - i,
    {
        let key = packages.key_at(i);
        if text::same_text(key.package_specifier.to_virtual_store_name(), name) {
            assert(lockfile::specifier_store_name(packages.key(i as int).package_specifier)
                == name@);
            return false;
        }
        i = i + 1;
    }
    true
}

proof fn lemma_preferred_transitive(
    a: PkgNameVerPeer,
    b: PkgNameVerPeer,
    c: PkgNameVerPeer,
    dedupe: bool,
)
    requires
        is_preferred(a, b, dedupe),
        is_preferred(b, c, dedupe),
    ensures
        is_preferred(a, c, dedupe),
{
    semver::law_version_precedence(
        c.suffix.version.deep_view(),
        b.suffix.version.deep_view(),
        a.suffix.version.deep_view(),
    );
    semver::law_version_precedence(
        a.suffix.version.deep_view(),
        b.suffix.version.deep_view(),
        c.suffix.version.deep_view(),
    );
    text::lemma_text_less_order(
        a.suffix.store_name@,
        b.suffix.store_name@,
        c.suffix.store_name@,
    );
}

proof fn lemma_hoisted_is_best(
    packages: PackageMap,
    dedupe: bool,
    patterns: Seq<Seq<char>>,
    name: Seq<char>,
    n: int,
    i: int,
)
    requires
        0 <= i < n,
        is_candidate(packages, patterns, name, i),
    ensures
        hoisted_index(packages, dedupe, patterns, name, n) is Some,
        !is_preferred(
            registry_package(packages, i),
            registry_package(
                packages,
                hoisted_index(packages, dedupe, patterns, name, n)->0,
            ),
            dedupe,
        ),
    decreases n,
{
    let before = hoisted_index(packages, dedupe, patterns, name, n - 1);
    let chosen = hoisted_index(packages, dedupe, patterns, name, n);
    let mine = registry_package(packages, i);
    if i < n - 1 {
        lemma_hoisted_is_best(packages, dedupe, patterns, name, n - 1, i);
        if chosen != before {
            let theirs = registry_package(packages, chosen->0);
            if is_preferred(mine, theirs, dedupe) {
                lemma_preferred_transitive(
                    mine,
                    theirs,
                    registry_package(packages, before->0),
                    dedupe,
                );
            }
        }
    } else {
        semver::law_version_precedence(
            mine.suffix.version.deep_view(),
            mine.suffix.version.deep_view(),
            mine.suffix.version.deep_view(),
        );
        text::lemma_text_less_order(
            mine.suffix.store_name@,
            mine.suffix.store_name@,
            mine.suffix.store_name@,
        );
    }
}

/// Under each name that a pattern lets pass a package is hoisted, and none of
/// that name is to be preferred to it.
pub proof fn law_hoisted_is_best(
    packages: PackageMap,
    dedupe: bool,
    patterns: Seq<Seq<char>>,
    name: Seq<char>,
    i: int,
)
    requires
        0 <= i < packages.pairs().len(),
        is_candidate(packages, patterns, name, i),
    ensures
        ({
            let map = hoisted_packages(
                packages,
                dedupe,
                patterns,
                packages.pairs().len() as int,
            );
            &&& map.dom().contains(name)
            &&& is_candidate(packages, patterns, name, map[name])
            &&& !is_preferred(
                registry_package(packages, i),
                registry_package(packages, map[name]),
                dedupe,
            )
        }),
{
    let n = packages.pairs().len() as int;
    lemma_hoisted_is_best(packages, dedupe, patterns, name, n, i);
    lemma_hoisted_registry(packages, dedupe, patterns, name, n);
}

proof fn lemma_hoisted_names_finite(
    packages: PackageMap,
    dedupe: bool,
    patterns: Seq<Seq<char>>,
    n: int,
)
    requires
        0 <= n,
    ensures
        hoisted_packages(packages, dedupe, patterns, n).dom().finite(),
    decreases n,
{
    let now = hoisted_packages(packages, dedupe, patterns, n).dom();
    if n <= 0 {
        assert(now =~= Set::empty());
    } else {
        lemma_hoisted_names_finite(packages, dedupe, patterns, n - 1);
        let before = hoisted_packages(packages, dedupe, patterns, n - 1).dom();
        let more = before.insert(registry_package(packages, n - 1).name@);
        assert(now.subset_of(more));
        vstd::set_lib::lemma_len_subset(now, more);
    }
}

/// Where packages are linked and hoisted, every package of a registry whose name passes
/// the patterns is linked to by its name inside the virtual store, in the highest version
/// that there is of it; where they are not, none is.
pub proof fn law_packages_are_hoisted_inside_the_store(
    links: Seq<HoistedLink>,
    config: Npmrc,
    packages: PackageMap,
    on_windows: bool,
    i: int,
    specifier: PkgNameVerPeer,
)
    requires
        are_hoisted_links(links, config, packages, on_windows),
        0 <= i < packages.pairs().len(),
        packages.key(i).package_specifier == PackageSpecifier::Registry(specifier),
        patterns::matches_any(specifier.name@, config.hoist_pattern.deep_view()),
    ensures
        !config.symlink || !config.hoist && !config.shamefully_hoist ==> links.len() == 0,
        config.symlink && (config.hoist || config.shamefully_hoist) ==> exists|k: int, j: int|
            0 <= k < links.len() && 0 <= j < packages.pairs().len() && (#[trigger]
            packages.key(j)).package_specifier is Registry && (#[trigger] links[k]).name@
                == specifier.name@ && {
                let used = packages.key(j).package_specifier->Registry_0;
                &&& used.name@ == specifier.name@
                &&& semver::same_version(
                    used.suffix.version.deep_view(),
                    specifier.suffix.version.deep_view(),
                ) || !semver::version_less(
                    used.suffix.version.deep_view(),
                    specifier.suffix.version.deep_view(),
                )
                &&& links[k].target@ == paths::joined(
                    paths::joined(
                        paths::joined(
                            config.virtual_store_dir@,
                            used.suffix.store_name@,
                            on_windows,
                        ),
                        "node_modules"@,
                        on_windows,
                    ),
                    specifier.name@,
                    on_windows,
                )
                &&& links[k].link@ == paths::joined(
                    paths::joined(config.virtual_store_dir@, "node_modules"@, on_windows),
                    specifier.name@,
                    on_windows,
                )
            },
{
    if config.symlink && (config.hoist || config.shamefully_hoist) {
        let patterns = config.hoist_pattern.deep_view();
        let n = packages.pairs().len() as int;
        let map = hoisted_packages(packages, config.dedupe_peer_dependents, patterns, n);
        let name = specifier.name@;
        assert(is_candidate(packages, patterns, name, i));
        law_hoisted_is_best(packages, config.dedupe_peer_dependents, patterns, name, i);
        lemma_hoisted_registry(packages, config.dedupe_peer_dependents, patterns, name, n);
        lemma_hoisted_names_finite(packages, config.dedupe_peer_dependents, patterns, n);
        sorted::lemma_listed(map.dom());
        let names = sorted::in_order(map.dom());
        assert(names.to_set().contains(name));
        let k = names.index_of(name);
        let j = map[name];
        assert(is_hoisted_link(config, packages, names[k], map[names[k]], links[k], on_windows));
        assert(packages.key(j).package_specifier is Registry);
        let a = specifier.suffix.version.deep_view();
        let b = registry_package(packages, j).suffix.version.deep_view();
        assert(!is_preferred(
            specifier,
            registry_package(packages, j),
            config.dedupe_peer_dependents,
        ));
        lemma_same_version_both_ways(a, b);
    }
}

proof fn lemma_same_version_both_ways(a: semver::VersionModel, b: semver::VersionModel)
    ensures
        semver::same_version(a, b) == semver::same_version(b, a),
{
}

/// What is taken out of the virtual store is a directory in which no package of the
/// lockfile lies, and not the one for hoisted packages; every such directory is.
pub proof fn law_orphans_belong_to_no_package(
    orphaned: bool,
    packages: PackageMap,
    name: Seq<char>,
    is_dir: bool,
    i: int,
)
    requires
        orphaned == is_orphan(packages, name, is_dir),
        0 <= i < packages.pairs().len(),
    ensures
        lockfile::specifier_store_name(packages.key(i).package_specifier) == name ==> !orphaned,
        name == "node_modules"@ || !is_dir ==> !orphaned,
        is_dir && name != "node_modules"@ && (forall|k: int|
            0 <= k < packages.pairs().len() ==> lockfile::specifier_store_name(
                (#[trigger] packages.key(k)).package_specifier,
            ) != name) ==> orphaned,
{
}

/// A package whose dependencies are all laid out beside it has nothing missing; with one
/// that is not it has.
pub proof fn law_layout_has_every_dependency(
    config: Npmrc,
    packages: PackageMap,
    present: Seq<Seq<char>>,
    i: int,
    alias: Seq<char>,
    on_windows: bool,
)
    requires
        0 <= i < packages.pairs().len(),
        snapshots::all_dependencies(packages.pairs()[i].1).dom().contains(alias),
    ensures
        !present.contains(
            paths::joined(
                paths::joined(
                    paths::joined(
                        config.virtual_store_dir@,
                        lockfile::specifier_store_name(packages.key(i).package_specifier),
                        on_windows,
                    ),
                    "node_modules"@,
                    on_windows,
                ),
                alias,
                on_windows,
            ),
        ) ==> lacks_layout(config, packages, present, i, on_windows),
        (forall|place: Seq<char>| present.contains(place)) ==> !lacks_layout(
            config,
            packages,
            present,
            i,
            on_windows,
        ),
        config.symlink || config.node_linker is Hoisted ==> needs_links(config, packages, i),
        !config.symlink && !(config.node_linker is Hoisted) ==> !needs_links(config, packages, i),
{
    let all = snapshots::all_dependencies(packages.pairs()[i].1);
    assert(all != Map::<Seq<char>, lockfile::SnapshotDependencyModel>::empty());
    let dir = layout_dir(config, packages, i, on_windows);
    if !present.contains(paths::joined(dir, alias, on_windows)) {
        assert(!is_laid_out(present, dir, alias, on_windows));
    }
}

} // verus!
