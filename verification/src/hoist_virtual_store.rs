//! Hoisting packages out of the virtual store.
use crate::config::{NodeLinker, Npmrc};
use crate::create_virtual_store::Hoisted;
use crate::json;
use crate::json::Json;
use crate::paths;
use crate::patterns;
use crate::semver;
use crate::semver::{Version, VersionModel};
use crate::sorted;
use crate::text;
use vstd::prelude::*;
use vstd::string::*;

verus! {

/// What lies in a directory of a scope: where, and whether a manifest does.
#[derive(Debug)]
pub struct ScopedEntry {
    pub path: String,
    pub has_manifest: bool,
}

/// What lies in the `node_modules` of a package: its name, where it lies,
/// whether a manifest does, and what lies in it if that can be listed.
#[derive(Debug)]
pub struct StoreEntry {
    pub name: String,
    pub path: String,
    pub has_manifest: bool,
    pub scoped: Option<Vec<ScopedEntry>>,
}

/// What lies in the virtual store: its name, whether it is a directory, and
/// what lies in its `node_modules` if that can be listed.
#[derive(Debug)]
pub struct StoreDir {
    pub name: String,
    pub is_dir: bool,
    pub entries: Option<Vec<StoreEntry>>,
}

/// The packages in the directory of a scope.
pub open spec fn scoped_packages(entries: Seq<ScopedEntry>) -> Seq<Seq<char>>
    decreases entries.len(),
{
    if entries.len() == 0 {
        Seq::empty()
    } else {
        let before = scoped_packages(entries.drop_last());
        if entries.last().has_manifest {
            before.push(entries.last().path@)
        } else {
            before
        }
    }
}

/// The packages that an entry of a `node_modules` stands for: those of a scope,
/// or itself.
pub open spec fn entry_packages(entry: StoreEntry) -> Seq<Seq<char>> {
    if entry.name@.len() > 0 && entry.name@[0] == '@' {
        match entry.scoped {
            Some(scoped) => scoped_packages(scoped@),
            None => Seq::empty(),
        }
    } else if entry.has_manifest {
        seq![entry.path@]
    } else {
        Seq::empty()
    }
}

/// The packages in a `node_modules`.
pub open spec fn entries_packages(entries: Seq<StoreEntry>) -> Seq<Seq<char>>
    decreases entries.len(),
{
    if entries.len() == 0 {
        Seq::empty()
    } else {
        entries_packages(entries.drop_last()) + entry_packages(entries.last())
    }
}

/// The packages in a directory of the virtual store; its own `node_modules`
/// holds links alone.
pub open spec fn dir_packages(dir: StoreDir) -> Seq<Seq<char>> {
    if dir.is_dir && dir.name@ != "node_modules"@ && dir.entries is Some {
        entries_packages(dir.entries->0@)
    } else {
        Seq::empty()
    }
}

/// The packages in the virtual store.
pub open spec fn store_packages(dirs: Seq<StoreDir>) -> Seq<Seq<char>>
    decreases dirs.len(),
{
    if dirs.len() == 0 {
        Seq::empty()
    } else {
        store_packages(dirs.drop_last()) + dir_packages(dirs.last())
    }
}

fn push_scoped(found: &mut Vec<String>, entries: &Vec<ScopedEntry>)
    ensures
        final(found).deep_view() == old(found).deep_view() + scoped_packages(entries@),
{
    let ghost before = found.deep_view();
    let mut i: usize = 0;
    assert(found.deep_view() =~= before + scoped_packages(entries@.take(0)));
    while i < entries.len()
        invariant
            i <= entries@.len(),
            found.deep_view() == before + scoped_packages(entries@.take(i as int)),
        decreases entries@.len() - i,
    {
        let ghost held = found.deep_view();
        assert(entries@.take(i + 1).drop_last() =~= entries@.take(i as int));
        if entries[i].has_manifest {
            found.push(entries[i].path.clone());
            assert(found.deep_view() =~= held.push(entries@[i as int].path@));
            assert(found.deep_view() =~= before + scoped_packages(entries@.take(i + 1)));
        }
        i = i + 1;
    }
    assert(entries@.take(i as int) =~= entries@);
}

fn push_entries(found: &mut Vec<String>, entries: &Vec<StoreEntry>)
    ensures
        final(found).deep_view() == old(found).deep_view() + entries_packages(entries@),
{
    let ghost before = found.deep_view();
    let mut i: usize = 0;
    assert(found.deep_view() =~= before + entries_packages(entries@.take(0)));
    while i < entries.len()
        invariant
            i <= entries@.len(),
            found.deep_view() == before + entries_packages(entries@.take(i as int)),
        decreases entries@.len() - i,
    {
        let ghost held = found.deep_view();
        assert(entries@.take(i + 1).drop_last() =~= entries@.take(i as int));
        let entry = &entries[i];
        if text::has_first_char(entry.name.as_str(), '@') {
            if let Some(scoped) = &entry.scoped {
                push_scoped(found, scoped);
            }
        } else if entry.has_manifest {
            found.push(entry.path.clone());
            assert(found.deep_view() =~= held + seq![entry.path@]);
        }
        assert(found.deep_view() =~= held + entry_packages(*entry));
        assert(found.deep_view() =~= before + entries_packages(entries@.take(i + 1)));
        i = i + 1;
    }
    assert(entries@.take(i as int) =~= entries@);
}

/// The packages in the virtual store, given what lies in it.
pub fn discover_package_dirs(dirs: &Vec<StoreDir>) -> (found: Vec<String>)
    ensures
        found.deep_view() == store_packages(dirs@),
{
    let mut found: Vec<String> = Vec::new();
    let mut i: usize = 0;
    assert(found.deep_view() =~= store_packages(dirs@.take(0)));
    while i < dirs.len()
        invariant
            i <= dirs@.len(),
            found.deep_view() == store_packages(dirs@.take(i as int)),
        decreases dirs@.len() - i,
    {
        let ghost held = found.deep_view();
        assert(dirs@.take(i + 1).drop_last() =~= dirs@.take(i as int));
        let dir = &dirs[i];
        if dir.is_dir && !text::same_text(dir.name.as_str(), "node_modules") {
            if let Some(entries) = &dir.entries {
                push_entries(&mut found, entries);
            }
        }
        assert(found.deep_view() =~= held + dir_packages(*dir));
        i = i + 1;
    }
    assert(dirs@.take(i as int) =~= dirs@);
    found
}

/// A package that was found: where it lies and its manifest.
#[derive(Debug)]
pub struct FoundPackage {
    pub dir: String,
    pub manifest: Json,
}

/// The name in a manifest.
pub open spec fn found_name(package: FoundPackage) -> Option<Seq<char>> {
    json::as_text(json::field(package.manifest.deep_view(), "name"@))
}

/// The version in a manifest.
pub open spec fn found_version(package: FoundPackage) -> Option<VersionModel> {
    match json::as_text(json::field(package.manifest.deep_view(), "version"@)) {
        Some(version) => semver::parsed_version(version),
        None => None,
    }
}

/// A package that was found may be hoisted under `name`.
pub open spec fn may_hoist(
    package: FoundPackage,
    patterns: Seq<Seq<char>>,
    all: bool,
    name: Seq<char>,
) -> bool {
    &&& found_name(package) == Some(name)
    &&& all || patterns::matches_any(name, patterns)
    &&& found_version(package) is Some
}

/// The package to be hoisted under `name` among the first `n`: the first one
/// with the highest version.
pub open spec fn selected_index(
    packages: Seq<FoundPackage>,
    patterns: Seq<Seq<char>>,
    all: bool,
    name: Seq<char>,
    n: int,
) -> Option<int>
    decreases n,
{
    if n <= 0 {
        None
    } else {
        let before = selected_index(packages, patterns, all, name, n - 1);
        if may_hoist(packages[n - 1], patterns, all, name) && (before is None
            || semver::version_less(
            found_version(packages[before->0])->0,
            found_version(packages[n - 1])->0,
        )) {
            Some(n - 1)
        } else {
            before
        }
    }
}

/// The positions of the packages to be hoisted, by name.
pub open spec fn selected(
    packages: Seq<FoundPackage>,
    patterns: Seq<Seq<char>>,
    all: bool,
) -> Map<Seq<char>, int> {
    let n = packages.len() as int;
    Map::new(
        |name: Seq<char>| selected_index(packages, patterns, all, name, n) is Some,
        |name: Seq<char>| selected_index(packages, patterns, all, name, n)->0,
    )
}

fn name_of(package: &FoundPackage) -> (name: Option<&str>)
    ensures
        name.deep_view() == found_name(*package),
{
    match package.manifest.get("name") {
        Some(name) => name.as_str(),
        None => None,
    }
}

fn version_of(package: &FoundPackage) -> (version: Option<Version>)
    ensures
        version.deep_view() == found_version(*package),
{
    match package.manifest.get("version") {
        Some(version) => match version.as_str() {
            Some(version) => Version::parse(version),
            None => None,
        },
        None => None,
    }
}

/// The package to be hoisted under a name.
fn find_selected(
    packages: &Vec<FoundPackage>,
    hoist_patterns: &Vec<String>,
    all: bool,
    name: &str,
) -> (found: Option<usize>)
    ensures
        match found {
            Some(i) => i < packages@.len() && selected_index(
                packages@,
                hoist_patterns.deep_view(),
                all,
                name@,
                packages@.len() as int,
            ) == Some(i as int),
            None => selected_index(
                packages@,
                hoist_patterns.deep_view(),
                all,
                name@,
                packages@.len() as int,
            ) is None,
        },
{
    let passes = all || patterns::matches_patterns(name, hoist_patterns);
    let mut best: Option<(usize, Version)> = None;
    let mut i: usize = 0;
    while i < packages.len()
        invariant
            passes == (all || patterns::matches_any(name@, hoist_patterns.deep_view())),
            i <= packages@.len(),
            match best {
                Some((b, version)) => b < i && found_version(packages@[b as int]) == Some(
                    version.deep_view(),
                ) && selected_index(
                    packages@,
                    hoist_patterns.deep_view(),
                    all,
                    name@,
                    i as int,
                ) == Some(b as int),
                None => selected_index(
                    packages@,
                    hoist_patterns.deep_view(),
                    all,
                    name@,
                    i as int,
                ) is None,
            },
        decreases packages@.len() - i,
    {
        let package = &packages[i];
        let named = match name_of(package) {
            Some(own) => text::same_text(own, name),
            None => false,
        };
        if passes && named {
            if let Some(version) = version_of(package) {
                let replace = match &best {
                    Some((_, current)) => current.stands_before(&version),
                    None => true,
                };
                if replace {
                    best = Some((i, version));
                }
            }
        }
        i = i + 1;
    }
    match best {
        Some((b, _)) => Some(b),
        None => None,
    }
}

/// The packages to be hoisted: all of them, or those that the patterns let
/// pass; of several with one name the one with the highest version.
pub fn select_packages_by_patterns(
    packages: &Vec<FoundPackage>,
    hoist_patterns: &Vec<String>,
    include_all: bool,
) -> (chosen: Hoisted)
    ensures
        chosen.holds(selected(packages@, hoist_patterns.deep_view(), include_all)),
        forall|k: int|
            0 <= k < chosen.positions@.len() ==> #[trigger] chosen.positions@[k] < packages@.len(),
{
    let ghost globs = hoist_patterns.deep_view();
    let mut names: Vec<String> = Vec::new();
    let mut i: usize = 0;
    while i < packages.len()
        invariant
            globs == hoist_patterns.deep_view(),
            i <= packages@.len(),
            forall|name: Seq<char>| #[trigger]
                names.deep_view().to_set().contains(name) <==> selected_index(
                    packages@,
                    globs,
                    include_all,
                    name,
                    i as int,
                ) is Some,
        decreases packages@.len() - i,
    {
        let ghost before = names.deep_view();
        let package = &packages[i];
        if let Some(name) = name_of(package) {
            if include_all || patterns::matches_patterns(name, hoist_patterns) {
                if version_of(package).is_some() {
                    names.push(text::copy(name));
                    proof {
                        assert(names.deep_view() =~= before.push(name@));
                        crate::reach::lemma_push_contains(before, name@);
                    }
                }
            }
        }
        proof {
            assert forall|name: Seq<char>| #[trigger]
                names.deep_view().to_set().contains(name) <==> selected_index(
                    packages@,
                    globs,
                    include_all,
                    name,
                    i + 1,
                ) is Some by {
                assert(before.to_set().contains(name) <==> selected_index(
                    packages@,
                    globs,
                    include_all,
                    name,
                    i as int,
                ) is Some);
                assert(names.deep_view().contains(name) <==> before.contains(name) || may_hoist(
                    packages@[i as int],
                    globs,
                    include_all,
                    name,
                ));
            }
        }
        i = i + 1;
    }
    let names = sorted::sorted_texts(&names);
    let ghost map = selected(packages@, globs, include_all);
    let ghost listed = names.deep_view();
    proof {
        assert(listed.to_set() =~= map.dom());
    }
    let mut positions: Vec<usize> = Vec::new();
    while positions.len() < names.len()
        invariant
            globs == hoist_patterns.deep_view(),
            map == selected(packages@, globs, include_all),
            listed == names.deep_view(),
            listed.to_set() == map.dom(),
            positions@.len() <= names@.len(),
            forall|k: int|
                0 <= k < positions@.len() ==> #[trigger] positions@[k] == map[listed[k]]
                    && positions@[k] < packages@.len(),
        decreases names@.len() - positions@.len(),
    {
        let k: usize = positions.len();
        proof {
            assert(listed[k as int] == names@[k as int]@);
            assert(listed.to_set().contains(listed[k as int]));
        }
        match find_selected(packages, hoist_patterns, include_all, names[k].as_str()) {
            Some(p) => {
                positions.push(p);
            },
            None => {
                assert(false);
                positions.push(0);
            },
        }
    }
    Hoisted { names, positions }
}

/// Where packages are to be hoisted to, and which: each by its name and where
/// it lies.
#[derive(Debug)]
pub struct HoistStep {
    pub root_dir: String,
    pub links: Vec<(String, String)>,
}

/// The step hoists the chosen packages to `root_dir`, in the order of their
/// names.
pub open spec fn is_step(
    step: HoistStep,
    root_dir: Seq<char>,
    packages: Seq<FoundPackage>,
    map: Map<Seq<char>, int>,
) -> bool {
    let names = sorted::in_order(map.dom());
    &&& step.root_dir@ == root_dir
    &&& step.links@.len() == names.len()
    &&& forall|k: int|
        0 <= k < step.links@.len() ==> (#[trigger] step.links@[k]).0@ == names[k]
            && step.links@[k].1@ == packages[map[names[k]]].dir@
}

/// The directory that hoisted packages share.
pub open spec fn shared_modules_dir(config: Npmrc, on_windows: bool) -> Seq<char> {
    match paths::parent(config.virtual_store_dir@, on_windows) {
        Some(dir) => dir,
        None => config.modules_dir@,
    }
}

/// Everything is hoisted inside the virtual store.
pub open spec fn hoists_all_inside(config: Npmrc) -> bool {
    config.shamefully_hoist
}

/// What is hoisted to a directory that programs look in: where, and which
/// packages.
pub open spec fn outer_hoist(
    config: Npmrc,
    packages: Seq<FoundPackage>,
    on_windows: bool,
) -> Option<
    (Seq<char>, Map<Seq<char>, int>),
> {
    let chosen = selected(
        packages,
        config.public_hoist_pattern.deep_view(),
        config.shamefully_hoist,
    );
    match config.node_linker {
        NodeLinker::Hoisted => Some(
            (shared_modules_dir(config, on_windows), selected(packages, Seq::empty(), true)),
        ),
        NodeLinker::Pnp => None,
        NodeLinker::Isolated => if (config.hoist || config.shamefully_hoist) && chosen.dom()
            != Set::<Seq<char>>::empty() {
            Some((config.modules_dir@, chosen))
        } else {
            None
        },
    }
}

fn make_step(root_dir: String, packages: &Vec<FoundPackage>, chosen: &Hoisted, Ghost(map): Ghost<
    Map<Seq<char>, int>,
>) -> (step: HoistStep)
    requires
        chosen.holds(map),
        forall|k: int|
            0 <= k < chosen.positions@.len() ==> #[trigger] chosen.positions@[k] < packages@.len(),
    ensures
        is_step(step, root_dir@, packages@, map),
{
    let mut links: Vec<(String, String)> = Vec::new();
    let ghost names = sorted::in_order(map.dom());
    while links.len() < chosen.names.len()
        invariant
            chosen.holds(map),
            names == chosen.names.deep_view(),
            forall|k: int|
                0 <= k < chosen.positions@.len() ==> #[trigger] chosen.positions@[k]
                    < packages@.len(),
            links@.len() <= chosen.names@.len(),
            forall|k: int|
                0 <= k < links@.len() ==> (#[trigger] links@[k]).0@ == names[k] && links@[k].1@
                    == packages@[map[names[k]]].dir@,
        decreases chosen.names@.len() - links@.len(),
    {
        let k: usize = links.len();
        let position = chosen.positions[k];
        assert(names[k as int] == chosen.names@[k as int]@);
        links.push((chosen.names[k].clone(), packages[position].dir.clone()));
    }
    HoistStep { root_dir, links }
}

/// What is hoisted out of the virtual store: inside it, and to a directory that
/// programs look in.
pub open spec fn are_hoist_steps(
    steps: (Option<HoistStep>, Option<HoistStep>),
    config: Npmrc,
    packages: Seq<FoundPackage>,
    on_windows: bool,
) -> bool {
    &&& match steps.0 {
        Some(step) => hoists_all_inside(config) && is_step(
            step,
            paths::joined(config.virtual_store_dir@, "node_modules"@, on_windows),
            packages,
            selected(packages, Seq::empty(), true),
        ),
        None => !hoists_all_inside(config),
    }
    &&& match steps.1 {
        Some(step) => outer_hoist(config, packages, on_windows) is Some && is_step(
            step,
            (outer_hoist(config, packages, on_windows)->0).0,
            packages,
            (outer_hoist(config, packages, on_windows)->0).1,
        ),
        None => outer_hoist(config, packages, on_windows) is None,
    }
}

/// What is hoisted out of the virtual store: inside it, and to a directory that
/// programs look in.
pub fn hoist_virtual_store_packages(
    config: &Npmrc,
    packages: &Vec<FoundPackage>,
    on_windows: bool,
) -> (steps: (
    Option<HoistStep>,
    Option<HoistStep>,
))
    ensures
        are_hoist_steps(steps, *config, packages@, on_windows),
{
    let no_patterns: Vec<String> = Vec::new();
    assert(no_patterns.deep_view() =~= Seq::empty());
    let ghost everything = selected(packages@, Seq::empty(), true);
    let inner = if config.shamefully_hoist {
        let chosen = select_packages_by_patterns(packages, &no_patterns, true);
        let root_dir = paths::join_paths(
            config.virtual_store_dir.as_str(),
            "node_modules",
            on_windows,
        );
        Some(make_step(root_dir, packages, &chosen, Ghost(everything)))
    } else {
        None
    };
    let outer = match config.node_linker {
        NodeLinker::Hoisted => {
            let chosen = select_packages_by_patterns(packages, &no_patterns, true);
            let root_dir = match paths::parent_path(config.virtual_store_dir.as_str(), on_windows) {
                Some(dir) => dir,
                None => config.modules_dir.clone(),
            };
            Some(make_step(root_dir, packages, &chosen, Ghost(everything)))
        },
        NodeLinker::Pnp => None,
        NodeLinker::Isolated => {
            let ghost map = selected(
                packages@,
                config.public_hoist_pattern.deep_view(),
                config.shamefully_hoist,
            );
            let chosen = select_packages_by_patterns(
                packages,
                &config.public_hoist_pattern,
                config.shamefully_hoist,
            );
            let empty = chosen.names.len() == 0;
            proof {
                if empty {
                    assert(chosen.names.deep_view().to_set() =~= Set::<Seq<char>>::empty());
                } else {
                    assert(chosen.names.deep_view().to_set().contains(
                        chosen.names.deep_view()[0],
                    ));
                }
            }
            if (config.hoist || config.shamefully_hoist) && !empty {
                Some(make_step(config.modules_dir.clone(), packages, &chosen, Ghost(map)))
            } else {
                None
            }
        },
    };
    (inner, outer)
}

/// No package that was found has a higher version than the one hoisted under
/// its name.
pub proof fn law_selected_is_highest(
    packages: Seq<FoundPackage>,
    patterns: Seq<Seq<char>>,
    all: bool,
    name: Seq<char>,
    i: int,
)
    requires
        0 <= i < packages.len(),
        may_hoist(packages[i], patterns, all, name),
    ensures
        selected(packages, patterns, all).dom().contains(name),
        !semver::version_less(
            found_version(packages[selected(packages, patterns, all)[name]])->0,
            found_version(packages[i])->0,
        ),
{
    lemma_selected_is_highest(packages, patterns, all, name, packages.len() as int, i);
}

proof fn lemma_selected_is_highest(
    packages: Seq<FoundPackage>,
    patterns: Seq<Seq<char>>,
    all: bool,
    name: Seq<char>,
    n: int,
    i: int,
)
    requires
        0 <= i < n <= packages.len(),
        may_hoist(packages[i], patterns, all, name),
    ensures
        selected_index(packages, patterns, all, name, n) is Some,
        !semver::version_less(
            found_version(packages[selected_index(packages, patterns, all, name, n)->0])->0,
            found_version(packages[i])->0,
        ),
    decreases n,
{
    let mine = found_version(packages[i])->0;
    semver::law_version_precedence(mine, mine, mine);
    if i < n - 1 {
        lemma_selected_is_highest(packages, patterns, all, name, n - 1, i);
        let before = selected_index(packages, patterns, all, name, n - 1)->0;
        let chosen = selected_index(packages, patterns, all, name, n)->0;
        semver::law_version_precedence(
            found_version(packages[before])->0,
            found_version(packages[chosen])->0,
            mine,
        );
    }
}

/// A package that was found has a name and a version that can be read.
pub open spec fn has_name_and_version(package: FoundPackage, name: Seq<char>) -> bool {
    &&& json::field(package.manifest.deep_view(), "name"@) == Some(json::JsonModel::Text(name))
    &&& json::field(package.manifest.deep_view(), "version"@) matches Some(
        json::JsonModel::Text(version),
    ) && semver::parsed_version(version) is Some
}

/// A step puts a package under a name.
pub open spec fn puts(step: HoistStep, name: Seq<char>, dir: Seq<char>) -> bool {
    exists|k: int|
        0 <= k < step.links@.len() && (#[trigger] step.links@[k]).0@ == name && step.links@[k].1@
            == dir
}

proof fn lemma_names_finite(
    packages: Seq<FoundPackage>,
    patterns: Seq<Seq<char>>,
    all: bool,
    n: int,
)
    requires
        0 <= n <= packages.len(),
    ensures
        Set::new(
            |name: Seq<char>| selected_index(packages, patterns, all, name, n) is Some,
        ).finite(),
    decreases n,
{
    let now = Set::new(|name: Seq<char>| selected_index(packages, patterns, all, name, n) is Some);
    if n <= 0 {
        assert(now =~= Set::empty());
    } else {
        lemma_names_finite(packages, patterns, all, n - 1);
        let before = Set::new(
            |name: Seq<char>| selected_index(packages, patterns, all, name, n - 1) is Some,
        );
        let more = match found_name(packages[n - 1]) {
            Some(name) => before.insert(name),
            None => before,
        };
        assert(now.subset_of(more));
        vstd::set_lib::lemma_len_subset(now, more);
    }
}

proof fn lemma_selected_fits(
    packages: Seq<FoundPackage>,
    patterns: Seq<Seq<char>>,
    all: bool,
    name: Seq<char>,
    n: int,
)
    requires
        0 <= n <= packages.len(),
        selected_index(packages, patterns, all, name, n) is Some,
    ensures
        0 <= selected_index(packages, patterns, all, name, n)->0 < n,
        may_hoist(
            packages[selected_index(packages, patterns, all, name, n)->0],
            patterns,
            all,
            name,
        ),
    decreases n,
{
    let before = selected_index(packages, patterns, all, name, n - 1);
    if before is Some {
        lemma_selected_fits(packages, patterns, all, name, n - 1);
    }
}

/// A step that hoists what was selected puts a package that may be hoisted, or a
/// higher version of it, under its name.
proof fn lemma_step_has(
    step: HoistStep,
    root_dir: Seq<char>,
    packages: Seq<FoundPackage>,
    patterns: Seq<Seq<char>>,
    all: bool,
    i: int,
    name: Seq<char>,
) -> (j: int)
    requires
        is_step(step, root_dir, packages, selected(packages, patterns, all)),
        0 <= i < packages.len(),
        may_hoist(packages[i], patterns, all, name),
    ensures
        0 <= j < packages.len(),
        may_hoist(packages[j], patterns, all, name),
        puts(step, name, packages[j].dir@),
        !semver::version_less(found_version(packages[j])->0, found_version(packages[i])->0),
{
    let map = selected(packages, patterns, all);
    let names = sorted::in_order(map.dom());
    let n = packages.len() as int;
    lemma_listed_names(packages, patterns, all);
    law_selected_is_highest(packages, patterns, all, name, i);
    lemma_selected_fits(packages, patterns, all, name, n);
    assert(names.to_set().contains(name));
    let k = names.index_of(name);
    assert(step.links@[k].0@ == name);
    map[name]
}

proof fn lemma_listed_names(
    packages: Seq<FoundPackage>,
    patterns: Seq<Seq<char>>,
    all: bool,
)
    ensures
        ({
            let map = selected(packages, patterns, all);
            sorted::lists_in_order(sorted::in_order(map.dom()), map.dom())
        }),
{
    let map = selected(packages, patterns, all);
    let n = packages.len() as int;
    lemma_names_finite(packages, patterns, all, n);
    assert(map.dom() =~= Set::new(
        |name: Seq<char>| selected_index(packages, patterns, all, name, n) is Some,
    ));
    sorted::lemma_listed(map.dom());
}

/// What a step puts under a name is a package that may be hoisted.
proof fn lemma_step_has_only(
    step: HoistStep,
    root_dir: Seq<char>,
    packages: Seq<FoundPackage>,
    patterns: Seq<Seq<char>>,
    all: bool,
    k: int,
) -> (j: int)
    requires
        is_step(step, root_dir, packages, selected(packages, patterns, all)),
        0 <= k < step.links@.len(),
    ensures
        0 <= j < packages.len(),
        may_hoist(packages[j], patterns, all, step.links@[k].0@),
        step.links@[k].1@ == packages[j].dir@,
{
    let map = selected(packages, patterns, all);
    let names = sorted::in_order(map.dom());
    let name = names[k];
    lemma_listed_names(packages, patterns, all);
    assert(step.links@[k].0@ == name);
    assert(names.to_set().contains(name));
    lemma_selected_fits(packages, patterns, all, name, packages.len() as int);
    map[name]
}

/// A package, or a higher version of it, is put under its name.
pub open spec fn is_put(
    step: HoistStep,
    packages: Seq<FoundPackage>,
    i: int,
    name: Seq<char>,
) -> bool {
    exists|j: int|
        0 <= j < packages.len() && has_name_and_version(packages[j], name) && #[trigger] puts(
            step,
            name,
            packages[j].dir@,
        ) && !semver::version_less(
            found_version(packages[j])->0,
            found_version(packages[i])->0,
        )
}

/// With packages isolated from each other, every package that has a name and a
/// version gets into `node_modules` by its name where everything is to be hoisted,
/// whatever the patterns are, and where its name passes the patterns and hoisting is
/// on. Nothing else does, and without hoisting nothing at all.
pub proof fn law_isolated_packages_are_hoisted_to_the_root(
    steps: (Option<HoistStep>, Option<HoistStep>),
    config: Npmrc,
    packages: Seq<FoundPackage>,
    on_windows: bool,
    i: int,
    name: Seq<char>,
)
    requires
        are_hoist_steps(steps, config, packages, on_windows),
        config.node_linker is Isolated,
        0 <= i < packages.len(),
    ensures
        has_name_and_version(packages[i], name) && (config.shamefully_hoist || config.hoist
            && patterns::matches_any(name, config.public_hoist_pattern.deep_view()))
            ==> steps.1 is Some && steps.1->0.root_dir@ == config.modules_dir@ && is_put(
            steps.1->0,
            packages,
            i,
            name,
        ),
        !config.hoist && !config.shamefully_hoist ==> steps.1 is None,
        steps.1 is Some ==> steps.1->0.root_dir@ == config.modules_dir@ && forall|k: int|
            0 <= k < steps.1->0.links@.len() ==> config.shamefully_hoist || patterns::matches_any(
                (#[trigger] steps.1->0.links@[k]).0@,
                config.public_hoist_pattern.deep_view(),
            ),
{
    let globs = config.public_hoist_pattern.deep_view();
    let all = config.shamefully_hoist;
    let chosen = selected(packages, globs, all);
    if has_name_and_version(packages[i], name) && (all || config.hoist && patterns::matches_any(
        name,
        globs,
    )) {
        assert(may_hoist(packages[i], globs, all, name));
        law_selected_is_highest(packages, globs, all, name, i);
        assert(chosen.dom().contains(name));
        let j = lemma_step_has(steps.1->0, config.modules_dir@, packages, globs, all, i, name);
        assert(has_name_and_version(packages[j], name));
    }
    if steps.1 is Some {
        let step = steps.1->0;
        assert forall|k: int| 0 <= k < step.links@.len() implies all || patterns::matches_any(
            (#[trigger] step.links@[k]).0@,
            globs,
        ) by {
            let j = lemma_step_has_only(step, config.modules_dir@, packages, globs, all, k);
        }
    }
}

/// With a `node_modules` that all packages share, every package that has a name and a
/// version gets into the directory of the virtual store by its name, whatever the
/// settings for hoisting are; with Plug'n'Play nothing is hoisted to where programs
/// look.
pub proof fn law_hoisted_packages_share_a_directory(
    steps: (Option<HoistStep>, Option<HoistStep>),
    config: Npmrc,
    packages: Seq<FoundPackage>,
    on_windows: bool,
    i: int,
    name: Seq<char>,
)
    requires
        are_hoist_steps(steps, config, packages, on_windows),
        0 <= i < packages.len(),
    ensures
        config.node_linker is Pnp ==> steps.1 is None,
        config.node_linker is Hoisted ==> steps.1 is Some && steps.1->0.root_dir@ == (
        match paths::parent(config.virtual_store_dir@, on_windows) {
            Some(dir) => dir,
            None => config.modules_dir@,
        }),
        config.node_linker is Hoisted && has_name_and_version(packages[i], name) ==> is_put(
            steps.1->0,
            packages,
            i,
            name,
        ),
{
    if config.node_linker is Hoisted && has_name_and_version(packages[i], name) {
        assert(may_hoist(packages[i], Seq::empty(), true, name));
        let j = lemma_step_has(
            steps.1->0,
            shared_modules_dir(config, on_windows),
            packages,
            Seq::empty(),
            true,
            i,
            name,
        );
        assert(has_name_and_version(packages[j], name));
    }
}

/// Where everything is to be hoisted, every package that has a name and a version
/// gets into the `node_modules` of the virtual store by its name, whatever links
/// packages; else nothing does.
pub proof fn law_shamefully_hoisted_packages_get_into_the_store(
    steps: (Option<HoistStep>, Option<HoistStep>),
    config: Npmrc,
    packages: Seq<FoundPackage>,
    on_windows: bool,
    i: int,
    name: Seq<char>,
)
    requires
        are_hoist_steps(steps, config, packages, on_windows),
        0 <= i < packages.len(),
    ensures
        steps.0 is Some <==> config.shamefully_hoist,
        config.shamefully_hoist ==> steps.0->0.root_dir@ == paths::joined(
            config.virtual_store_dir@,
            "node_modules"@,
            on_windows,
        ),
        config.shamefully_hoist && has_name_and_version(packages[i], name) ==> is_put(
            steps.0->0,
            packages,
            i,
            name,
        ),
{
    if config.shamefully_hoist && has_name_and_version(packages[i], name) {
        assert(may_hoist(packages[i], Seq::empty(), true, name));
        let j = lemma_step_has(
            steps.0->0,
            paths::joined(config.virtual_store_dir@, "node_modules"@, on_windows),
            packages,
            Seq::empty(),
            true,
            i,
            name,
        );
        assert(has_name_and_version(packages[j], name));
    }
}

/// What is hoisted lies where it was found, and is hoisted by the name in its
/// manifest, once.
pub proof fn law_hoisted_packages_were_found(
    step: HoistStep,
    root_dir: Seq<char>,
    packages: Seq<FoundPackage>,
    patterns: Seq<Seq<char>>,
    all: bool,
    k: int,
    l: int,
)
    requires
        is_step(step, root_dir, packages, selected(packages, patterns, all)),
        0 <= k < step.links@.len(),
    ensures
        exists|j: int|
            0 <= j < packages.len() && (#[trigger] packages[j]).dir@ == step.links@[k].1@
                && has_name_and_version(packages[j], step.links@[k].0@),
        0 <= l < step.links@.len() && step.links@[l].0@ == step.links@[k].0@ ==> l == k,
{
    let j = lemma_step_has_only(step, root_dir, packages, patterns, all, k);
    assert(has_name_and_version(packages[j], step.links@[k].0@));
    assert(packages[j].dir@ == step.links@[k].1@);
    let names = sorted::in_order(selected(packages, patterns, all).dom());
    lemma_listed_names(packages, patterns, all);
    sorted::lemma_sorted_distinct(names);
    if 0 <= l < step.links@.len() && step.links@[l].0@ == step.links@[k].0@ {
        assert(names[l] == names[k]);
    }
}

proof fn lemma_scoped_packages(entries: Seq<ScopedEntry>, path: Seq<char>)
    ensures
        scoped_packages(entries).contains(path) <==> exists|i: int|
            0 <= i < entries.len() && (#[trigger] entries[i]).has_manifest && entries[i].path@
                == path,
    decreases entries.len(),
{
    if entries.len() > 0 {
        let rest = entries.drop_last();
        lemma_scoped_packages(rest, path);
        let n = entries.len() - 1;
        assert(entries[n] == entries.last());
        assert forall|i: int| 0 <= i < n implies #[trigger] rest[i] == entries[i] by {}
        crate::reach::lemma_push_contains(scoped_packages(rest), entries.last().path@);
        if exists|i: int|
            0 <= i < rest.len() && (#[trigger] rest[i]).has_manifest && rest[i].path@ == path {
            let i = choose|i: int|
                0 <= i < rest.len() && (#[trigger] rest[i]).has_manifest && rest[i].path@ == path;
            assert(entries[i] == rest[i]);
        }
        if exists|i: int|
            0 <= i < entries.len() && (#[trigger] entries[i]).has_manifest && entries[i].path@
                == path {
            let i = choose|i: int|
                0 <= i < entries.len() && (#[trigger] entries[i]).has_manifest && entries[i].path@
                    == path;
            if i < n {
                assert(rest[i] == entries[i]);
            }
        }
        assert(scoped_packages(rest).push(entries.last().path@).contains(path)
            <==> scoped_packages(rest).contains(path) || path == entries.last().path@);
    }
}

proof fn lemma_entries_hold(entries: Seq<StoreEntry>, i: int, path: Seq<char>)
    requires
        0 <= i < entries.len(),
        entry_packages(entries[i]).contains(path),
    ensures
        entries_packages(entries).contains(path),
    decreases entries.len(),
{
    let rest = entries.drop_last();
    let before = entries_packages(rest);
    let own = entry_packages(entries.last());
    if i < rest.len() {
        assert(rest[i] == entries[i]);
        lemma_entries_hold(rest, i, path);
        assert((before + own)[before.index_of(path)] == path);
    } else {
        assert((before + own)[before.len() + own.index_of(path)] == path);
    }
}

/// Every package that lies in the virtual store is found: one with a manifest in the
/// `node_modules` of a directory, by itself or in the directory of a scope. The directory
/// for hoisted packages is not looked into.
pub proof fn law_packages_of_the_store_are_found(
    found: Seq<Seq<char>>,
    dirs: Seq<StoreDir>,
    d: int,
    i: int,
    k: int,
)
    requires
        found == store_packages(dirs),
        0 <= d < dirs.len(),
        dirs[d].is_dir,
        dirs[d].name@ != "node_modules"@,
        dirs[d].entries is Some,
        0 <= i < dirs[d].entries->0@.len(),
    ensures
        ({
            let entry = dirs[d].entries->0@[i];
            let scope = entry.name@.len() > 0 && entry.name@[0] == '@';
            &&& !scope && entry.has_manifest ==> found.contains(entry.path@)
            &&& scope && entry.scoped is Some && 0 <= k < entry.scoped->0@.len()
                && entry.scoped->0@[k].has_manifest ==> found.contains(entry.scoped->0@[k].path@)
        }),
{
    let entry = dirs[d].entries->0@[i];
    let scope = entry.name@.len() > 0 && entry.name@[0] == '@';
    if !scope && entry.has_manifest {
        assert(entry_packages(entry)[0] == entry.path@);
        lemma_entries_hold(dirs[d].entries->0@, i, entry.path@);
        lemma_store_holds(dirs, d, entry.path@);
    }
    if scope && entry.scoped is Some && 0 <= k < entry.scoped->0@.len()
        && entry.scoped->0@[k].has_manifest {
        let path = entry.scoped->0@[k].path@;
        lemma_scoped_packages(entry.scoped->0@, path);
        lemma_entries_hold(dirs[d].entries->0@, i, path);
        lemma_store_holds(dirs, d, path);
    }
}

proof fn lemma_store_holds(dirs: Seq<StoreDir>, d: int, path: Seq<char>)
    requires
        0 <= d < dirs.len(),
        dir_packages(dirs[d]).contains(path),
    ensures
        store_packages(dirs).contains(path),
    decreases dirs.len(),
{
    let rest = dirs.drop_last();
    let before = store_packages(rest);
    let own = dir_packages(dirs.last());
    if d < rest.len() {
        assert(rest[d] == dirs[d]);
        lemma_store_holds(rest, d, path);
        assert((before + own)[before.index_of(path)] == path);
    } else {
        assert((before + own)[before.len() + own.index_of(path)] == path);
    }
}

} // verus!
