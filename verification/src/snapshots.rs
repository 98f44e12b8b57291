//! Finding packages in a lockfile, and preferring among variants of one package
//! the one that serves the most dependents.
use crate::lockfile;
use crate::lockfile::{
    DependencyPath, NameVerPeerId, NameVerPeerModel, PackageMap, PackageModel, PackageSnapshot,
    PackageSnapshotDependency, PackageSpecifier, PathId, PathModel, PkgNameVerPeer, PkgVerPeer,
    ProjectModel, ProjectSnapshot, ResolvedDependencyMap, ResolvedDependencySpec,
    ResolvedDependencyVersion, ResolvedSpecModel, ResolvedVersionModel, SnapshotDependencyModel,
    SpecifierId, SpecifierModel,
};
use crate::table;
use crate::table::{Table, TextMap};
use crate::text;
use crate::value::{Compared, Key, Value};
use vstd::prelude::*;
use vstd::string::*;

verus! {

/// The first position at or behind `from` whose key has this specifier, or the
/// length if there is none.
pub open spec fn specifier_index(
    pairs: Seq<(PathId, PackageModel)>,
    specifier: SpecifierId,
    from: int,
) -> int
    decreases pairs.len() - from,
{
    if 0 <= from < pairs.len() && pairs[from].0.specifier != specifier {
        specifier_index(pairs, specifier, from + 1)
    } else {
        from
    }
}

/// The entry that a key stands for: the one with that key or, failing that, the
/// first one with its specifier.
pub open spec fn resolved_index(
    pairs: Seq<(PathId, PackageModel)>,
    candidate: PathId,
) -> Option<int> {
    if table::keys(pairs).contains(candidate) {
        Some(table::keys(pairs).index_of(candidate))
    } else {
        let i = specifier_index(pairs, candidate.specifier, 0);
        if i < pairs.len() {
            Some(i)
        } else {
            None
        }
    }
}

/// Whether two keys name one version of one package, whatever its peers.
pub open spec fn same_base(left: PathId, right: PathId) -> bool {
    match (left.specifier, right.specifier) {
        (SpecifierId::Registry(l), SpecifierId::Registry(r)) => {
            &&& left.custom_registry == right.custom_registry
            &&& l.name == r.name
            &&& l.suffix.version == r.suffix.version
        },
        _ => left == right,
    }
}

/// How many dependencies and transitive peers a package has.
pub open spec fn score(package: PackageModel) -> nat {
    (match package.dependencies {
        Some(dependencies) => dependencies.dom().len(),
        None => 0,
    }) + (match package.transitive_peer_dependencies {
        Some(peers) => peers.len(),
        None => 0,
    })
}

/// Whether a package is among the transitive peers of another.
pub open spec fn has_peer(package: PackageModel, peer: Seq<char>) -> bool {
    match package.transitive_peer_dependencies {
        Some(peers) => peers.contains(peer),
        None => false,
    }
}

/// The part of dependencies that counts when they are compared.
pub open spec fn bare_dependencies(dependencies: Map<Seq<char>, SnapshotDependencyModel>) -> Map<
    Seq<char>,
    SnapshotDependencyModel,
> {
    table::bare_values::<Seq<char>, PackageSnapshotDependency>(dependencies)
}

/// Whether `candidate` can stand for `current`: it has all its dependencies and
/// transitive peers, and no lower score.
pub open spec fn is_compatible(candidate: PackageModel, current: PackageModel) -> bool {
    &&& score(candidate) >= score(current)
    &&& match (current.dependencies, candidate.dependencies) {
        (None, _) => true,
        (Some(_), None) => false,
        (Some(mine), Some(theirs)) => bare_dependencies(mine).submap_of(bare_dependencies(theirs)),
    }
    &&& forall|peer: Seq<char>| has_peer(current, peer) ==> #[trigger] has_peer(candidate, peer)
}

/// Whether the entry at `e` is to be preferred to the one at `b`: it can stand
/// for it and has a higher score or, with the same score, a smaller key. `texts`
/// tells how the keys are written.
pub open spec fn improves(packages: PackageMap, texts: Seq<Seq<char>>, e: int, b: int) -> bool {
    let candidate = packages.pairs()[e].1;
    let current = packages.pairs()[b].1;
    &&& is_compatible(candidate, current)
    &&& (score(candidate) > score(current) || score(candidate) == score(current)
        && text::text_less(texts[e], texts[b]))
}

/// Whether the entry at `e` is a variant of the one at `r`.
pub open spec fn is_variant(packages: PackageMap, e: int, r: int) -> bool {
    &&& 0 <= e < packages.pairs().len()
    &&& packages.pairs()[e].0 != packages.pairs()[r].0
    &&& same_base(packages.pairs()[r].0, packages.pairs()[e].0)
}

/// The preferred variant of the entry at `r` among the first `n` entries.
pub open spec fn best_variant(
    packages: PackageMap,
    texts: Seq<Seq<char>>,
    r: int,
    n: int,
) -> int
    decreases n,
{
    if n <= 0 {
        r
    } else {
        let best = best_variant(packages, texts, r, n - 1);
        if is_variant(packages, n - 1, r) && improves(packages, texts, n - 1, best) {
            n - 1
        } else {
            best
        }
    }
}

/// The key that a lookup goes on with: the one that was looked for, as it was
/// written there, where an entry has it, and else the key of the entry that was
/// found. The directory of a local package is known from its entry.
pub open spec fn resolved_as(packages: PackageMap, candidate: PathModel) -> PathModel {
    let id = lockfile::path_id(candidate);
    if candidate.specifier is Registry && table::keys(packages.pairs()).contains(id) {
        candidate
    } else {
        packages.key(resolved_index(packages.pairs(), id)->0).deep_view()
    }
}

/// How the keys are written when a key is looked for: those of other entries than
/// the one that it stands for as they are.
pub open spec fn variant_texts(packages: PackageMap, candidate: PathModel) -> Seq<Seq<char>> {
    Seq::new(
        packages.pairs().len(),
        |e: int|
            if resolved_index(packages.pairs(), lockfile::path_id(candidate)) == Some(e) {
                lockfile::written_path(resolved_as(packages, candidate))
            } else {
                lockfile::path_text(packages.key(e))
            },
    )
}

/// The entry to be used for a key: the preferred variant of what it stands for.
pub open spec fn deduped_index(packages: PackageMap, candidate: PathModel) -> Option<int> {
    match resolved_index(packages.pairs(), lockfile::path_id(candidate)) {
        Some(r) => Some(
            best_variant(
                packages,
                variant_texts(packages, candidate),
                r,
                packages.pairs().len() as int,
            ),
        ),
        None => None,
    }
}

/// The key that is used for a key: the one that a lookup goes on with, or that of
/// the preferred variant.
pub open spec fn deduped_as(packages: PackageMap, candidate: PathModel) -> PathModel {
    let used = deduped_index(packages, candidate);
    if used == resolved_index(packages.pairs(), lockfile::path_id(candidate)) {
        resolved_as(packages, candidate)
    } else {
        packages.key(used->0).deep_view()
    }
}

/// The position of the entry that a key stands for.
pub fn resolve_package_snapshot(packages: &PackageMap, candidate_path: &DependencyPath) -> (found:
    Option<usize>)
    ensures
        table::keys(packages.pairs()).no_duplicates(),
        match found {
            Some(i) => resolved_index(packages.pairs(), candidate_path.ident()) == Some(
                i as int,
            ) && i < packages.pairs().len(),
            None => resolved_index(packages.pairs(), candidate_path.ident()) is None,
        },
{
    if let Some(i) = packages.position(candidate_path) {
        return Some(i);
    }
    let ghost pairs = packages.pairs();
    let ghost wanted = candidate_path.ident().specifier;
    let n: usize = packages.len();
    let mut i: usize = 0;
    while i < n
        invariant
            n == pairs.len(),
            pairs == packages.pairs(),
            wanted == candidate_path.ident().specifier,
            i <= n,
            specifier_index(pairs, wanted, 0) == specifier_index(pairs, wanted, i as int),
            !table::keys(pairs).contains(candidate_path.ident()),
            table::keys(pairs).no_duplicates(),
        decreases n - i,
    {
        if packages.key_at(i).package_specifier.names_the_same(
            &candidate_path.package_specifier,
        ) {
            return Some(i);
        }
        i = i + 1;
    }
    None
}

/// Whether two keys name one version of one package, whatever its peers.
pub fn same_base_package(left: &DependencyPath, right: &DependencyPath) -> (same: bool)
    ensures
        same == same_base(left.ident(), right.ident()),
{
    match (&left.package_specifier, &right.package_specifier) {
        (PackageSpecifier::Registry(l), PackageSpecifier::Registry(r)) => {
            left.custom_registry.same(&right.custom_registry) && l.name.same(&r.name)
                && l.suffix.version.is_same(&r.suffix.version)
        },
        _ => left.is_key(right),
    }
}

/// How many dependencies and transitive peers a package has.
pub fn dependency_score(snapshot: &PackageSnapshot) -> (n: u128)
    ensures
        n == score(snapshot.deep_view()),
{
    let dependency_count: usize = match &snapshot.dependencies {
        Some(dependencies) => {
            let n = dependencies.len();
            proof {
                table::lemma_map_len(dependencies.pairs());
            }
            n
        },
        None => 0,
    };
    let transitive_peer_count: usize = match &snapshot.transitive_peer_dependencies {
        Some(peers) => peers.len(),
        None => 0,
    };
    dependency_count as u128 + transitive_peer_count as u128
}

/// Whether every text of `list` is one of `others`.
fn texts_are_among(list: &Vec<String>, others: &Vec<String>) -> (yes: bool)
    ensures
        yes == (forall|s: Seq<char>|
            list.deep_view().contains(s) ==> #[trigger] others.deep_view().contains(s)),
{
    let ghost mine = list.deep_view();
    let ghost theirs = others.deep_view();
    let mut i: usize = 0;
    while i < list.len()
        invariant
            mine == list.deep_view(),
            theirs == others.deep_view(),
            i <= list@.len(),
            forall|j: int| 0 <= j < i ==> theirs.contains(#[trigger] mine[j]),
        decreases list@.len() - i,
    {
        if !crate::value::list_contains(others, list[i].as_str()) {
            assert(mine[i as int] == list@[i as int]@);
            assert(mine.contains(mine[i as int]));
            assert(!theirs.contains(mine[i as int]));
            return false;
        }
        i = i + 1;
    }
    true
}

/// Whether `candidate` can stand for `current`.
pub fn is_compatible_and_has_more_deps(
    candidate: &PackageSnapshot,
    current: &PackageSnapshot,
) -> (compatible: bool)
    ensures
        compatible == is_compatible(candidate.deep_view(), current.deep_view()),
{
    if dependency_score(candidate) < dependency_score(current) {
        return false;
    }
    if let Some(current_deps) = &current.dependencies {
        match &candidate.dependencies {
            None => {
                return false;
            },
            Some(candidate_deps) => {
                if !current_deps.with_bare_values().is_part_of(&candidate_deps.with_bare_values()) {
                    return false;
                }
            },
        }
    }
    let ghost mine = current.deep_view();
    let ghost theirs = candidate.deep_view();
    match (&current.transitive_peer_dependencies, &candidate.transitive_peer_dependencies) {
        (None, _) => true,
        (Some(current_peers), None) => {
            let empty = current_peers.len() == 0;
            proof {
                let peers = current_peers.deep_view();
                if !empty {
                    assert(peers.contains(peers[0]));
                    assert(has_peer(mine, peers[0]) && !has_peer(theirs, peers[0]));
                }
            }
            empty
        },
        (Some(current_peers), Some(candidate_peers)) => {
            let among = texts_are_among(current_peers, candidate_peers);
            proof {
                if !among {
                    let peer = choose|s: Seq<char>|
                        current_peers.deep_view().contains(s)
                            && !#[trigger] candidate_peers.deep_view().contains(s);
                    assert(has_peer(mine, peer) && !has_peer(theirs, peer));
                }
            }
            among
        },
    }
}

/// The directory in the virtual store of the package that a lookup goes on with,
/// with the position of its entry.
pub fn resolved_store_name<'a>(
    packages: &'a PackageMap,
    candidate_path: &'a DependencyPath,
) -> (found: Option<(usize, &'a str)>)
    ensures
        match found {
            Some((i, store_name)) => {
                &&& resolved_index(packages.pairs(), candidate_path.ident()) == Some(i as int)
                &&& i < packages.pairs().len()
                &&& store_name@ == lockfile::store_name_of(
                    resolved_as(*packages, candidate_path.deep_view()).specifier,
                )
            },
            None => resolved_index(packages.pairs(), candidate_path.ident()) is None,
        },
{
    match resolve_package_snapshot(packages, candidate_path) {
        Some(i) => if is_kept_as_written(packages, candidate_path) {
            Some((i, candidate_path.package_specifier.to_virtual_store_name()))
        } else {
            Some((i, packages.key_at(i).package_specifier.to_virtual_store_name()))
        },
        None => None,
    }
}

/// Whether a key names a package of a registry that an entry has.
fn is_kept_as_written(packages: &PackageMap, candidate_path: &DependencyPath) -> (yes: bool)
    ensures
        yes == (candidate_path.deep_view().specifier is Registry && table::keys(
            packages.pairs(),
        ).contains(candidate_path.ident())),
{
    match &candidate_path.package_specifier {
        PackageSpecifier::Registry(_) => packages.position(candidate_path).is_some(),
        _ => false,
    }
}

/// The position of the entry to be used for a key: the preferred variant of
/// what it stands for.
pub fn resolve_package_snapshot_deduped(
    packages: &PackageMap,
    candidate_path: &DependencyPath,
) -> (found: Option<usize>)
    ensures
        match found {
            Some(i) => deduped_index(*packages, candidate_path.deep_view()) == Some(i as int) && i
                < packages.pairs().len(),
            None => deduped_index(*packages, candidate_path.deep_view()) is None,
        },
{
    let resolved: usize = match resolve_package_snapshot(packages, candidate_path) {
        Some(i) => i,
        None => {
            return None;
        },
    };
    let ghost texts = variant_texts(*packages, candidate_path.deep_view());
    let resolved_text = if is_kept_as_written(packages, candidate_path) {
        candidate_path.text()
    } else {
        packages.key_at(resolved).text()
    };
    assert(resolved_text@ == texts[resolved as int]);
    let mut best: usize = resolved;
    let n: usize = packages.len();
    let mut i: usize = 0;
    while i < n
        invariant
            n == packages.pairs().len(),
            resolved < n,
            best < n,
            i <= n,
            texts == variant_texts(*packages, candidate_path.deep_view()),
            resolved_index(packages.pairs(), candidate_path.ident()) == Some(resolved as int),
            resolved_text@ == texts[resolved as int],
            best == best_variant(*packages, texts, resolved as int, i as int),
        decreases n - i,
    {
        let resolved_path = packages.key_at(resolved);
        let other_path = packages.key_at(i);
        if !other_path.is_key(resolved_path) && same_base_package(resolved_path, other_path) {
            let other = packages.value_at(i);
            let current = packages.value_at(best);
            if is_compatible_and_has_more_deps(other, current) {
                let mine = dependency_score(other);
                let theirs = dependency_score(current);
                let before = if best == resolved {
                    text::copy(resolved_text.as_str())
                } else {
                    packages.key_at(best).text()
                };
                assert(i != resolved);
                assert(texts[i as int] == lockfile::path_text(packages.key(i as int)));
                assert(before@ == texts[best as int]);
                if mine > theirs || (mine == theirs && text::is_less(
                    other_path.text().as_str(),
                    before.as_str(),
                )) {
                    best = i;
                }
            }
        }
        i = i + 1;
    }
    Some(best)
}

/// The key that is used for a key, where an entry is.
pub fn deduped_path(packages: &PackageMap, candidate_path: &DependencyPath) -> (found: Option<
    DependencyPath,
>)
    ensures
        found.deep_view() == (if deduped_index(*packages, candidate_path.deep_view()) is Some {
            Some(deduped_as(*packages, candidate_path.deep_view()))
        } else {
            None
        }),
{
    let used: usize = match resolve_package_snapshot_deduped(packages, candidate_path) {
        Some(i) => i,
        None => {
            return None;
        },
    };
    match resolve_package_snapshot(packages, candidate_path) {
        Some(resolved) if resolved == used && is_kept_as_written(packages, candidate_path) => Some(
            candidate_path.duplicate(),
        ),
        _ => Some(packages.key_at(used).duplicate()),
    }
}

proof fn lemma_improves_transitive(
    packages: PackageMap,
    texts: Seq<Seq<char>>,
    a: int,
    b: int,
    c: int,
)
    requires
        improves(packages, texts, a, b),
        improves(packages, texts, b, c),
    ensures
        improves(packages, texts, a, c),
{
    let x = packages.pairs()[a].1;
    let y = packages.pairs()[b].1;
    let z = packages.pairs()[c].1;
    assert forall|peer: Seq<char>| has_peer(z, peer) implies #[trigger] has_peer(x, peer) by {
        assert(has_peer(y, peer));
    }
    if z.dependencies is Some {
        vstd::map_lib::lemma_submap_of_trans(
            bare_dependencies(z.dependencies->0),
            bare_dependencies(y.dependencies->0),
            bare_dependencies(x.dependencies->0),
        );
    }
    text::lemma_text_less_order(texts[a], texts[b], texts[c]);
}

proof fn lemma_best_variant(packages: PackageMap, texts: Seq<Seq<char>>, r: int, n: int)
    requires
        0 <= n <= packages.pairs().len(),
    ensures
        ({
            let b = best_variant(packages, texts, r, n);
            &&& b == r || 0 <= b < n && is_variant(
                packages,
                b,
                r,
            ) && improves(packages, texts, b, r)
            &&& forall|e: int| 0 <= e < n && is_variant(
                packages,
                e,
                r,
            ) ==> !improves(packages, texts, e, b)
        }),
    decreases n,
{
    if n > 0 {
        lemma_best_variant(packages, texts, r, n - 1);
        let before = best_variant(packages, texts, r, n - 1);
        let b = best_variant(packages, texts, r, n);
        let key = texts[b];
        text::lemma_text_less_order(key, key, key);
        if b != before {
            if before != r {
                lemma_improves_transitive(packages, texts, b, before, r);
            }
            assert forall|e: int| 0 <= e < n && is_variant(packages, e, r) implies !improves(
                packages,
                texts,
                e,
                b,
            ) by {
                if improves(packages, texts, e, b) {
                    lemma_improves_transitive(packages, texts, e, b, before);
                }
            }
        }
    }
}

/// The entry used for a key is the one that the key stands for or an improvement
/// on it, and no variant improves on the entry used.
pub proof fn law_deduped_is_maximal(packages: PackageMap, candidate: PathModel)
    requires
        deduped_index(packages, candidate) is Some,
    ensures
        ({
            let texts = variant_texts(packages, candidate);
            let r = resolved_index(packages.pairs(), lockfile::path_id(candidate))->0;
            let b = deduped_index(packages, candidate)->0;
            &&& b == r || is_variant(packages, b, r) && improves(packages, texts, b, r)
            &&& forall|e: int| is_variant(packages, e, r) ==> !improves(packages, texts, e, b)
        }),
{
    let texts = variant_texts(packages, candidate);
            let r = resolved_index(packages.pairs(), lockfile::path_id(candidate))->0;
    lemma_best_variant(packages, texts, r, packages.pairs().len() as int);
}

/// The entry used for a key names the same version of the same package as the
/// entry that the key stands for, and has all its dependencies.
pub proof fn law_deduped_keeps_base(packages: PackageMap, candidate: PathModel)
    requires
        deduped_index(packages, candidate) is Some,
    ensures
        ({
            let texts = variant_texts(packages, candidate);
            let r = resolved_index(packages.pairs(), lockfile::path_id(candidate))->0;
            let b = deduped_index(packages, candidate)->0;
            &&& same_base(packages.pairs()[r].0, packages.pairs()[b].0)
            &&& is_compatible(packages.pairs()[b].1, packages.pairs()[r].1)
        }),
{
    law_deduped_is_maximal(packages, candidate);
    let texts = variant_texts(packages, candidate);
            let r = resolved_index(packages.pairs(), lockfile::path_id(candidate))->0;
    let package = packages.pairs()[r].1;
    if package.dependencies is Some {
        assert(package.dependencies->0.submap_of(package.dependencies->0));
    }
}

proof fn lemma_best_stays(packages: PackageMap, texts: Seq<Seq<char>>, r: int, n: int)
    requires
        0 <= n <= packages.pairs().len(),
        forall|e: int| is_variant(packages, e, r) ==> !improves(packages, texts, e, r),
    ensures
        best_variant(packages, texts, r, n) == r,
    decreases n,
{
    if n > 0 {
        lemma_best_stays(packages, texts, r, n - 1);
    }
}

/// The key that is used stands for the entry that is used: to look it up again
/// changes nothing. The key that was looked for is written as that of its entry.
pub proof fn law_deduped_is_stable(packages: PackageMap, candidate: PathModel)
    requires
        table::keys(packages.pairs()).no_duplicates(),
        deduped_index(packages, candidate) is Some,
        lockfile::written_path(resolved_as(packages, candidate)) == lockfile::path_text(
            packages.key(resolved_index(packages.pairs(), lockfile::path_id(candidate))->0),
        ),
    ensures
        deduped_index(packages, deduped_as(packages, candidate)) == deduped_index(
            packages,
            candidate,
        ),
{
    let pairs = packages.pairs();
    let id = lockfile::path_id(candidate);
    let r = resolved_index(pairs, id)->0;
    let b = deduped_index(packages, candidate)->0;
    let texts = variant_texts(packages, candidate);
    lemma_resolved_index(pairs, id);
    law_deduped_is_maximal(packages, candidate);
    law_deduped_keeps_base(packages, candidate);
    table::lemma_map_entry(pairs, b);
    table::lemma_map_entry(pairs, r);
    packages.lemma_entry(b);
    let again = deduped_as(packages, candidate);
    if again != candidate {
        assert(table::keys(pairs)[b] == pairs[b].0);
        assert(lockfile::path_id(again) == pairs[b].0);
        assert(resolved_index(pairs, pairs[b].0) == Some(b));
        assert(resolved_as(packages, again) == again);
        assert(variant_texts(packages, again) =~= texts);
        assert forall|e: int| is_variant(
            packages,
            e,
            b,
        ) implies !improves(packages, texts, e, b) by {
            if pairs[e].0 != pairs[r].0 {
                assert(is_variant(packages, e, r));
            } else {
                table::lemma_map_entry(pairs, e);
                assert(e == r);
                if improves(packages, texts, r, b) {
                    lemma_improves_transitive(packages, texts, b, r, b);
                    let key = texts[b];
                    text::lemma_text_less_order(key, key, key);
                }
            }
        }
        lemma_best_stays(packages, texts, b, pairs.len() as int);
    }
}

pub proof fn lemma_resolved_index(pairs: Seq<(PathId, PackageModel)>, candidate: PathId)
    requires
        resolved_index(pairs, candidate) is Some,
    ensures
        0 <= resolved_index(pairs, candidate)->0 < pairs.len(),
        pairs[resolved_index(pairs, candidate)->0].0.specifier == candidate.specifier,
{
    if table::keys(pairs).contains(candidate) {
        let i = table::keys(pairs).index_of(candidate);
        assert(table::keys(pairs)[i] == candidate);
    } else {
        lemma_specifier_index(pairs, candidate.specifier, 0);
    }
}

proof fn lemma_specifier_index(
    pairs: Seq<(PathId, PackageModel)>,
    specifier: SpecifierId,
    from: int,
)
    requires
        0 <= from <= pairs.len(),
    ensures
        from <= specifier_index(pairs, specifier, from) <= pairs.len(),
        specifier_index(pairs, specifier, from) < pairs.len() ==> pairs[specifier_index(
            pairs,
            specifier,
            from,
        )].0.specifier == specifier,
    decreases pairs.len() - from,
{
    if from < pairs.len() && pairs[from].0.specifier != specifier {
        lemma_specifier_index(pairs, specifier, from + 1);
    }
}

/// Where some entry has the specifier, one is found.
pub proof fn lemma_specifier_found(
    pairs: Seq<(PathId, PackageModel)>,
    specifier: SpecifierId,
    from: int,
    i: int,
)
    requires
        0 <= from <= i < pairs.len(),
        pairs[i].0.specifier == specifier,
    ensures
        specifier_index(pairs, specifier, from) <= i,
    decreases i - from,
{
    if pairs[from].0.specifier != specifier {
        lemma_specifier_found(pairs, specifier, from + 1, i);
    }
}

/// For a key of a registry package, the key used is one of a registry package.
proof fn lemma_deduped_registry(packages: PackageMap, candidate: PathModel)
    requires
        deduped_index(packages, candidate) is Some,
        candidate.specifier is Registry,
    ensures
        deduped_as(packages, candidate).specifier is Registry,
{
    let i = deduped_index(packages, candidate)->0;
    lemma_resolved_index(packages.pairs(), lockfile::path_id(candidate));
    law_deduped_is_maximal(packages, candidate);
    law_deduped_keeps_base(packages, candidate);
    packages.lemma_entry(i);
}

/// All dependencies of a package: the regular ones, and the optional ones whose
/// reference can be read and whose name is not taken.
pub open spec fn all_dependencies(package: PackageModel) -> Map<
    Seq<char>,
    SnapshotDependencyModel,
> {
    let regular = match package.dependencies {
        Some(dependencies) => dependencies,
        None => Map::empty(),
    };
    match package.optional_dependencies {
        None => regular,
        Some(optional) => Map::new(
            |name: Seq<char>|
                regular.dom().contains(name) || optional.dom().contains(name)
                    && optional[name].dependency is Some,
            |name: Seq<char>|
                if regular.dom().contains(name) {
                    regular[name]
                } else {
                    optional[name].dependency->0
                },
        ),
    }
}

/// A package has finitely many dependencies.
pub proof fn lemma_dependencies_finite(package: PackageSnapshot)
    ensures
        all_dependencies(package.deep_view()).dom().finite(),
{
    let all = all_dependencies(package.deep_view());
    let regular = match package.dependencies {
        Some(dependencies) => table::keys(dependencies.pairs()),
        None => Seq::empty(),
    };
    let optional = match package.optional_dependencies {
        Some(dependencies) => table::keys(dependencies.pairs()),
        None => Seq::empty(),
    };
    let names = regular + optional;
    vstd::seq_lib::seq_to_set_is_finite(names);
    assert forall|name: Seq<char>| all.dom().contains(name) implies names.to_set().contains(
        name,
    ) by {
        if regular.contains(name) {
            assert(names[regular.index_of(name)] == name);
        } else {
            assert(optional.contains(name));
            assert(names[regular.len() + optional.index_of(name)] == name);
        }
    }
    assert(all.dom().subset_of(names.to_set()));
    vstd::set_lib::lemma_len_subset(all.dom(), names.to_set());
}

/// All dependencies of a package.
pub fn package_dependency_map(package_snapshot: &PackageSnapshot) -> (all: TextMap<
    PackageSnapshotDependency,
>)
    ensures
        all.deep_view() == all_dependencies(package_snapshot.deep_view()),
{
    let mut all: TextMap<PackageSnapshotDependency> = match &package_snapshot.dependencies {
        Some(dependencies) => dependencies.duplicate(),
        None => TextMap::new(),
    };
    let ghost regular = all.deep_view();
    if let Some(optional) = &package_snapshot.optional_dependencies {
        let n: usize = optional.len();
        let ghost pairs = optional.pairs();
        let ghost target = all_dependencies(package_snapshot.deep_view());
        let ghost readable = optional.deep_view();
        let mut i: usize = 0;
        while i < n
            invariant
                n == pairs.len(),
                pairs == optional.pairs(),
                table::keys(pairs).no_duplicates(),
                readable == optional.deep_view(),
                forall|name: Seq<char>|
                    target.dom().contains(name) <==> regular.dom().contains(name)
                        || readable.dom().contains(name) && readable[name].dependency is Some,
                forall|name: Seq<char>|
                    #[trigger] target.dom().contains(name) ==> target[name] == (
                    if regular.dom().contains(name) {
                        regular[name]
                    } else {
                        readable[name].dependency->0
                    }),
                i <= n,
                all.deep_view().submap_of(target),
                regular.submap_of(all.deep_view()),
                forall|j: int|
                    0 <= j < i && (#[trigger] pairs[j]).1.dependency is Some
                        ==> all.deep_view().dom().contains(pairs[j].0),
            decreases n - i,
        {
            proof {
                table::lemma_map_entry(pairs, i as int);
            }
            let name = optional.key_at(i);
            if let Some(dependency) = &optional.value_at(i).dependency {
                if !all.contains_key(name) {
                    all.insert(name.clone(), dependency.duplicate());
                }
            }
            i = i + 1;
        }
        proof {
            assert forall|name: Seq<char>| target.dom().contains(name) implies all.deep_view().dom().contains(
                name,
            ) by {
                if !regular.dom().contains(name) {
                    let j = table::lemma_map_index(pairs, name);
                }
            }
            assert(all.deep_view() =~= target);
        }
    }
    all
}

/// Where the text of a link to a local package begins.
pub open spec fn file_protocol() -> Seq<char> {
    "file:"@
}

/// The key that a dependency of a package refers to; a link to another importer
/// refers to none.
pub open spec fn dependency_path_of(alias: Seq<char>, dependency: SnapshotDependencyModel) -> Option<
    PathId,
> {
    match dependency {
        SnapshotDependencyModel::PkgVerPeer(suffix) => Some(
            lockfile::registry_path(
                NameVerPeerId { name: alias, suffix: lockfile::ver_peer_id(suffix) },
            ),
        ),
        SnapshotDependencyModel::PkgNameVerPeer(specifier) => Some(
            lockfile::registry_path(lockfile::name_ver_peer_id(specifier)),
        ),
        SnapshotDependencyModel::DependencyPath(path) => Some(lockfile::path_id(path)),
        SnapshotDependencyModel::Link(link) => if text::starts_with(link, file_protocol()) {
            Some(lockfile::local_path(alias, link))
        } else {
            None
        },
    }
}

/// The key that a direct dependency refers to; a link to another importer
/// refers to none.
pub open spec fn resolved_path_of(alias: Seq<char>, version: ResolvedVersionModel) -> Option<
    PathId,
> {
    match version {
        ResolvedVersionModel::PkgVerPeer(suffix) => Some(
            lockfile::registry_path(
                NameVerPeerId { name: alias, suffix: lockfile::ver_peer_id(suffix) },
            ),
        ),
        ResolvedVersionModel::PkgNameVerPeer(specifier) => Some(
            lockfile::registry_path(lockfile::name_ver_peer_id(specifier)),
        ),
        ResolvedVersionModel::Link(link) => if text::starts_with(link, file_protocol()) {
            Some(lockfile::local_path(alias, link))
        } else {
            None
        },
    }
}

/// The key that a dependency of a package is written as. The directory of a
/// local package is known from the entry that the key leads to, and left empty.
pub open spec fn dependency_key(alias: Seq<char>, dependency: SnapshotDependencyModel) -> Option<
    PathModel,
> {
    match dependency {
        SnapshotDependencyModel::PkgVerPeer(suffix) => Some(
            registry_key(NameVerPeerModel { name: alias, suffix }),
        ),
        SnapshotDependencyModel::PkgNameVerPeer(specifier) => Some(registry_key(specifier)),
        SnapshotDependencyModel::DependencyPath(path) => Some(path),
        SnapshotDependencyModel::Link(link) => link_key(alias, link),
    }
}

/// The key that a direct dependency is written as. The directory of a local
/// package is known from the entry that the key leads to, and left empty.
pub open spec fn resolved_key(alias: Seq<char>, version: ResolvedVersionModel) -> Option<
    PathModel,
> {
    match version {
        ResolvedVersionModel::PkgVerPeer(suffix) => Some(
            registry_key(NameVerPeerModel { name: alias, suffix }),
        ),
        ResolvedVersionModel::PkgNameVerPeer(specifier) => Some(registry_key(specifier)),
        ResolvedVersionModel::Link(link) => link_key(alias, link),
    }
}

/// The key of a package of the default registry.
pub open spec fn registry_key(specifier: NameVerPeerModel) -> PathModel {
    PathModel { custom_registry: None, specifier: SpecifierModel::Registry(specifier) }
}

/// The key that a link to a local package is written as.
pub open spec fn link_key(alias: Seq<char>, link: Seq<char>) -> Option<PathModel> {
    if text::starts_with(link, file_protocol()) {
        Some(
            PathModel {
                custom_registry: None,
                specifier: SpecifierModel::LocalFile {
                    name: alias,
                    reference: link,
                    store_name: Seq::empty(),
                },
            },
        )
    } else {
        None
    }
}

/// The key of a package of the default registry.
fn path_of_suffix(alias: &str, suffix: &PkgVerPeer) -> (path: DependencyPath)
    ensures
        path.deep_view() == registry_key(
            NameVerPeerModel { name: alias@, suffix: suffix.deep_view() },
        ),
{
    DependencyPath::registry(
        None,
        PkgNameVerPeer { name: String::from_str(alias), suffix: suffix.duplicate() },
    )
}

/// The key that a dependency of a package refers to.
pub fn dependency_path_from_snapshot_dependency(
    alias: &str,
    dependency: &PackageSnapshotDependency,
) -> (path: Option<DependencyPath>)
    ensures
        path.deep_view() == dependency_key(alias@, dependency.deep_view()),
        lockfile::path_ident(path) == dependency_path_of(alias@, dependency.deep_view()),
{
    match dependency {
        PackageSnapshotDependency::PkgVerPeer(suffix) => Some(path_of_suffix(alias, suffix)),
        PackageSnapshotDependency::PkgNameVerPeer(specifier) => Some(
            DependencyPath::registry(None, specifier.duplicate()),
        ),
        PackageSnapshotDependency::DependencyPath(path) => Some(path.duplicate()),
        PackageSnapshotDependency::Link(link) => {
            if text::has_prefix(link.as_str(), "file:") {
                Some(
                    DependencyPath::local_file(
                        String::from_str(alias),
                        link.clone(),
                        String::new(),
                    ),
                )
            } else {
                None
            }
        },
    }
}

/// The key that a direct dependency refers to.
pub fn dependency_path_from_resolved_version(
    alias: &str,
    version: &ResolvedDependencyVersion,
) -> (path: Option<DependencyPath>)
    ensures
        path.deep_view() == resolved_key(alias@, version.deep_view()),
        lockfile::path_ident(path) == resolved_path_of(alias@, version.deep_view()),
{
    match version {
        ResolvedDependencyVersion::PkgVerPeer(suffix) => Some(path_of_suffix(alias, suffix)),
        ResolvedDependencyVersion::PkgNameVerPeer(specifier) => Some(
            DependencyPath::registry(None, specifier.duplicate()),
        ),
        ResolvedDependencyVersion::Link(link) => {
            if text::has_prefix(link.as_str(), "file:") {
                Some(
                    DependencyPath::local_file(
                        String::from_str(alias),
                        link.clone(),
                        String::new(),
                    ),
                )
            } else {
                None
            }
        },
    }
}

/// The entry that a direct dependency stands for.
pub open spec fn direct_index(
    pairs: Seq<(PathId, PackageModel)>,
    alias: Seq<char>,
    version: ResolvedVersionModel,
) -> Option<int> {
    match resolved_path_of(alias, version) {
        Some(path) => resolved_index(pairs, path),
        None => None,
    }
}

/// The position of the entry that a direct dependency stands for.
pub fn direct_dependency_path(
    alias: &str,
    version: &ResolvedDependencyVersion,
    packages: &PackageMap,
) -> (found: Option<usize>)
    ensures
        match found {
            Some(i) => direct_index(packages.pairs(), alias@, version.deep_view()) == Some(i as int)
                && i < packages.pairs().len(),
            None => direct_index(packages.pairs(), alias@, version.deep_view()) is None,
        },
{
    match dependency_path_from_resolved_version(alias, version) {
        Some(path) => resolve_package_snapshot(packages, &path),
        None => None,
    }
}


/// How an importer refers to a package: by version alone where the alias is the
/// package's name.
pub open spec fn version_of_path(alias: Seq<char>, path: PathModel) -> ResolvedVersionModel {
    match path.specifier {
        SpecifierModel::Registry(specifier) => if specifier.name == alias {
            ResolvedVersionModel::PkgVerPeer(specifier.suffix)
        } else {
            ResolvedVersionModel::PkgNameVerPeer(specifier)
        },
        SpecifierModel::LocalFile { name, reference, store_name } => {
            ResolvedVersionModel::Link(reference)
        },
    }
}

/// The version of a direct dependency after the preferred variant took its place.
pub open spec fn deduped_version(
    packages: PackageMap,
    alias: Seq<char>,
    version: ResolvedVersionModel,
) -> ResolvedVersionModel {
    if version is Link {
        version
    } else {
        match deduped_index(packages, resolved_key(alias, version)->0) {
            Some(_) => version_of_path(
                alias,
                deduped_as(packages, resolved_key(alias, version)->0),
            ),
            None => version,
        }
    }
}

/// A direct dependency after the preferred variant took its place.
pub open spec fn deduped_spec(
    packages: PackageMap,
    alias: Seq<char>,
    spec: ResolvedSpecModel,
) -> ResolvedSpecModel {
    ResolvedSpecModel {
        specifier: spec.specifier,
        version: deduped_version(packages, alias, spec.version),
    }
}

/// The direct dependencies of a group after preferred variants took their place.
pub open spec fn deduped_map(
    packages: PackageMap,
    map: Option<Map<Seq<char>, ResolvedSpecModel>>,
) -> Option<Map<Seq<char>, ResolvedSpecModel>> {
    match map {
        Some(map) => Some(
            Map::new(
                |alias: Seq<char>| map.dom().contains(alias),
                |alias: Seq<char>| deduped_spec(packages, alias, map[alias]),
            ),
        ),
        None => None,
    }
}

/// The importer after preferred variants took the place of its dependencies.
pub open spec fn deduped_project(packages: PackageMap, project: ProjectModel) -> ProjectModel {
    ProjectModel {
        dependencies: deduped_map(packages, project.dependencies),
        optional_dependencies: deduped_map(packages, project.optional_dependencies),
        dev_dependencies: deduped_map(packages, project.dev_dependencies),
        ..project
    }
}

/// How an importer refers to a registry package.
pub fn resolved_path_to_version(alias: &str, path: &DependencyPath) -> (version:
    ResolvedDependencyVersion)
    requires
        path.deep_view().specifier is Registry,
    ensures
        version.deep_view() == version_of_path(alias@, path.deep_view()),
{
    match &path.package_specifier {
        PackageSpecifier::Registry(specifier) => {
            if text::same_text(specifier.name.as_str(), alias) {
                ResolvedDependencyVersion::PkgVerPeer(specifier.suffix.duplicate())
            } else {
                ResolvedDependencyVersion::PkgNameVerPeer(specifier.duplicate())
            }
        },
        PackageSpecifier::LocalFile { name: _, reference, store_name: _ } => {
            ResolvedDependencyVersion::Link(reference.clone())
        },
    }
}

/// The version of a direct dependency after the preferred variant took its place.
fn dedupe_version(
    alias: &str,
    version: &ResolvedDependencyVersion,
    packages: &PackageMap,
) -> (deduped: ResolvedDependencyVersion)
    ensures
        deduped.deep_view() == deduped_version(*packages, alias@, version.deep_view()),
{
    if let ResolvedDependencyVersion::Link(_) = version {
        return version.duplicate();
    }
    match dependency_path_from_resolved_version(alias, version) {
        Some(path) => match deduped_path(packages, &path) {
            Some(used) => {
                proof {
                    lemma_deduped_registry(*packages, path.deep_view());
                }
                resolved_path_to_version(alias, &used)
            },
            None => version.duplicate(),
        },
        None => version.duplicate(),
    }
}

/// The direct dependencies of a group after preferred variants took their place.
pub fn dedupe_resolved_dependency_map(
    map: &ResolvedDependencyMap,
    packages: &PackageMap,
) -> (deduped: ResolvedDependencyMap)
    ensures
        Some(deduped.deep_view()) == deduped_map(*packages, Some(map.deep_view())),
        table::keys(deduped.pairs()) == table::keys(map.pairs()),
{
    let mut deduped: ResolvedDependencyMap = Table::new();
    let n: usize = map.len();
    let ghost pairs = map.pairs();
    let ghost f = |alias: Seq<char>, spec: ResolvedSpecModel| deduped_spec(*packages, alias, spec);
    let mut i: usize = 0;
    while i < n
        invariant
            n == pairs.len(),
            pairs == map.pairs(),
            table::keys(pairs).no_duplicates(),
            i <= n,
            deduped.pairs().len() == i,
            forall|j: int|
                0 <= j < i ==> #[trigger] deduped.pairs()[j] == (
                    pairs[j].0,
                    deduped_spec(*packages, pairs[j].0, pairs[j].1),
                ),
        decreases n - i,
    {
        let alias = map.key_at(i);
        let spec = map.value_at(i);
        let version = dedupe_version(alias.as_str(), &spec.version, packages);
        let updated = ResolvedDependencySpec { specifier: spec.specifier.clone(), version };
        proof {
            table::lemma_put_next(pairs, deduped.pairs(), i as int, updated.deep_view());
        }
        deduped.insert(alias.clone(), updated);
        i = i + 1;
    }
    proof {
        table::lemma_mapped_values(pairs, deduped.pairs(), f);
        assert(deduped.deep_view() =~= deduped_map(*packages, Some(map.deep_view()))->0);
    }
    deduped
}

fn dedupe_group(map: &Option<ResolvedDependencyMap>, packages: &PackageMap) -> (deduped: Option<
    ResolvedDependencyMap,
>)
    ensures
        deduped.deep_view() == deduped_map(*packages, map.deep_view()),
{
    match map {
        Some(map) => Some(dedupe_resolved_dependency_map(map, packages)),
        None => None,
    }
}

/// The importer after preferred variants took the place of its dependencies,
/// where that is asked for and packages are known.
pub fn dedupe_project_snapshot(
    project_snapshot: &ProjectSnapshot,
    packages: Option<&PackageMap>,
    dedupe_peer_dependents: bool,
) -> (deduped: ProjectSnapshot)
    ensures
        deduped.deep_view() == (if dedupe_peer_dependents && packages is Some {
            deduped_project(*packages->0, project_snapshot.deep_view())
        } else {
            project_snapshot.deep_view()
        }),
{
    match packages {
        Some(packages) if dedupe_peer_dependents => ProjectSnapshot {
            specifiers: project_snapshot.specifiers.duplicate(),
            dependencies: dedupe_group(&project_snapshot.dependencies, packages),
            optional_dependencies: dedupe_group(&project_snapshot.optional_dependencies, packages),
            dev_dependencies: dedupe_group(&project_snapshot.dev_dependencies, packages),
            dependencies_meta: project_snapshot.dependencies_meta.duplicate(),
            publish_directory: project_snapshot.publish_directory.duplicate(),
        },
        _ => project_snapshot.duplicate(),
    }
}

/// Where a direct dependency lies in the virtual store: its alias, the directory
/// and the package's name.
pub open spec fn store_location(
    alias: Seq<char>,
    version: ResolvedDependencyVersion,
    packages: Option<PackageMap>,
) -> Option<(Seq<char>, Seq<char>, Seq<char>)> {
    match version {
        ResolvedDependencyVersion::PkgVerPeer(suffix) => Some((alias, suffix.store_name@, alias)),
        ResolvedDependencyVersion::PkgNameVerPeer(specifier) => Some(
            (alias, specifier.suffix.store_name@, specifier.name@),
        ),
        ResolvedDependencyVersion::Link(link) => match packages {
            None => None,
            Some(packages) => match direct_index(packages.pairs(), alias, version.deep_view()) {
                None => None,
                Some(i) => Some(
                    (
                        alias,
                        lockfile::specifier_store_name(packages.key(i).package_specifier),
                        lockfile::specifier_name(packages.pairs()[i].0.specifier),
                    ),
                ),
            },
        },
    }
}

/// Where a direct dependency lies in the virtual store.
pub fn direct_dependency_virtual_store_location(
    alias: &str,
    version: &ResolvedDependencyVersion,
    packages: Option<&PackageMap>,
) -> (location: Option<(String, String, String)>)
    ensures
        location.deep_view() == store_location(
            alias@,
            *version,
            match packages {
                Some(packages) => Some(*packages),
                None => None,
            },
        ),
{
    match version {
        ResolvedDependencyVersion::PkgVerPeer(suffix) => Some(
            (String::from_str(alias), suffix.store_name.clone(), String::from_str(alias)),
        ),
        ResolvedDependencyVersion::PkgNameVerPeer(specifier) => Some(
            (String::from_str(alias), specifier.suffix.store_name.clone(), specifier.name.clone()),
        ),
        ResolvedDependencyVersion::Link(_) => match packages {
            None => None,
            Some(packages) => match direct_dependency_path(alias, version, packages) {
                None => None,
                Some(i) => {
                    let specifier = &packages.key_at(i).package_specifier;
                    Some(
                        (
                            String::from_str(alias),
                            String::from_str(specifier.to_virtual_store_name()),
                            String::from_str(specifier.name()),
                        ),
                    )
                },
            },
        },
    }
}

/// Where the preferred variant takes the place of a direct dependency, the
/// dependency leads to the directory of that variant.
pub proof fn law_deduped_leads_to_its_directory(
    packages: PackageMap,
    alias: Seq<char>,
    version: ResolvedVersionModel,
    deduped: ResolvedDependencyVersion,
)
    requires
        !(version is Link),
        deduped_index(packages, resolved_key(alias, version)->0) is Some,
        deduped.deep_view() == deduped_version(packages, alias, version),
    ensures
        ({
            let used = deduped_as(packages, resolved_key(alias, version)->0);
            store_location(alias, deduped, Some(packages)) == Some(
                (
                    alias,
                    lockfile::store_name_of(used.specifier),
                    lockfile::specifier_name(lockfile::path_id(used).specifier),
                ),
            )
        }),
{
    lemma_deduped_registry(packages, resolved_key(alias, version)->0);
}

/// All dependencies of a package are the needed ones, as they are, and the optional ones
/// that can be read and whose name is not taken; nothing else is.
pub proof fn law_all_dependencies_are_read(
    all: TextMap<PackageSnapshotDependency>,
    package: PackageSnapshot,
    name: Seq<char>,
)
    requires
        all.deep_view() == all_dependencies(package.deep_view()),
    ensures
        ({
            let needed = package.dependencies is Some
                && package.dependencies->0.deep_view().dom().contains(name);
            let optional = package.optional_dependencies is Some
                && package.optional_dependencies->0.deep_view().dom().contains(name)
                && package.optional_dependencies->0.deep_view()[name].dependency is Some;
            &&& all.deep_view().dom().contains(name) <==> needed || optional
            &&& needed ==> all.deep_view()[name] == package.dependencies->0.deep_view()[name]
            &&& !needed && optional ==> all.deep_view()[name]
                == package.optional_dependencies->0.deep_view()[name].dependency->0
        }),
{
}

/// A key is found under itself; where no entry has it, an entry is found that has its
/// specifier, and nothing is found only where none has.
pub proof fn law_lookup_finds_the_entry(
    pairs: Seq<(PathId, PackageModel)>,
    candidate: PathId,
    i: int,
)
    requires
        table::keys(pairs).no_duplicates(),
        0 <= i < pairs.len(),
    ensures
        pairs[i].0 == candidate ==> resolved_index(pairs, candidate) == Some(i),
        pairs[i].0.specifier == candidate.specifier ==> resolved_index(pairs, candidate) is Some,
        resolved_index(pairs, candidate) matches Some(found) ==> 0 <= found < pairs.len()
            && pairs[found].0.specifier == candidate.specifier,
{
    if pairs[i].0 == candidate {
        table::lemma_map_entry(pairs, i);
    }
    if pairs[i].0.specifier == candidate.specifier {
        lemma_specifier_found(pairs, candidate.specifier, 0, i);
    }
    if resolved_index(pairs, candidate) is Some {
        lemma_resolved_index(pairs, candidate);
    }
}

/// A dependency by version refers to the package of its own name in that version, one by
/// name and version to that package, one by key to that key, and a link to the package in
/// that directory, or to none where it leads to another importer.
pub proof fn law_dependencies_refer_to_packages(
    alias: Seq<char>,
    suffix: lockfile::VerPeerModel,
    specifier: NameVerPeerModel,
    path: PathModel,
    target: Seq<char>,
)
    ensures
        dependency_path_of(alias, SnapshotDependencyModel::PkgVerPeer(suffix)) == Some(
            PathId {
                custom_registry: None,
                specifier: SpecifierId::Registry(
                    NameVerPeerId { name: alias, suffix: lockfile::ver_peer_id(suffix) },
                ),
            },
        ),
        dependency_path_of(alias, SnapshotDependencyModel::PkgNameVerPeer(specifier)) == Some(
            PathId {
                custom_registry: None,
                specifier: SpecifierId::Registry(lockfile::name_ver_peer_id(specifier)),
            },
        ),
        dependency_path_of(alias, SnapshotDependencyModel::DependencyPath(path)) == Some(
            lockfile::path_id(path),
        ),
        dependency_path_of(alias, SnapshotDependencyModel::Link("file:"@ + target)) == Some(
            PathId {
                custom_registry: None,
                specifier: SpecifierId::LocalFile { name: alias, reference: "file:"@ + target },
            },
        ),
        dependency_path_of(alias, SnapshotDependencyModel::Link("link:"@ + target)) is None,
        resolved_path_of(alias, ResolvedVersionModel::PkgVerPeer(suffix)) == dependency_path_of(
            alias,
            SnapshotDependencyModel::PkgVerPeer(suffix),
        ),
        resolved_path_of(alias, ResolvedVersionModel::PkgNameVerPeer(specifier))
            == dependency_path_of(alias, SnapshotDependencyModel::PkgNameVerPeer(specifier)),
        resolved_path_of(alias, ResolvedVersionModel::Link("file:"@ + target))
            == dependency_path_of(alias, SnapshotDependencyModel::Link("file:"@ + target)),
        resolved_path_of(alias, ResolvedVersionModel::Link("link:"@ + target)) is None,
{
    reveal_strlit("file:");
    reveal_strlit("link:");
    assert(("file:"@ + target).subrange(0, 5) =~= "file:"@);
    assert(("link:"@ + target).subrange(0, 5) =~= "link:"@);
    assert("link:"@[0] == 'l' && "file:"@[0] == 'f');
}

/// Of two variants of one version of a package, where the one has every dependency of
/// the other and more, the other is not used in a lookup that stands for it.
pub proof fn law_richer_variant_is_used(packages: PackageMap, candidate: PathModel, e: int)
    requires
        resolved_index(packages.pairs(), lockfile::path_id(candidate)) is Some,
        0 <= e < packages.pairs().len(),
        ({
            let r = resolved_index(packages.pairs(), lockfile::path_id(candidate))->0;
            let mine = packages.pairs()[r];
            let theirs = packages.pairs()[e];
            &&& mine.0 != theirs.0
            &&& mine.0.custom_registry == theirs.0.custom_registry
            &&& mine.0.specifier is Registry && theirs.0.specifier is Registry
            &&& (mine.0.specifier->Registry_0).name == (theirs.0.specifier->Registry_0).name
            &&& (mine.0.specifier->Registry_0).suffix.version == (
            theirs.0.specifier->Registry_0).suffix.version
            &&& mine.1.dependencies is Some && theirs.1.dependencies is Some
            &&& bare_dependencies(mine.1.dependencies->0).submap_of(
                bare_dependencies(theirs.1.dependencies->0),
            )
            &&& mine.1.dependencies->0.dom().len() < theirs.1.dependencies->0.dom().len()
            &&& mine.1.transitive_peer_dependencies is None
            &&& theirs.1.transitive_peer_dependencies is None
        }),
    ensures
        deduped_index(packages, candidate) is Some,
        deduped_index(packages, candidate) != resolved_index(
            packages.pairs(),
            lockfile::path_id(candidate),
        ),
{
    let r = resolved_index(packages.pairs(), lockfile::path_id(candidate))->0;
    law_deduped_is_maximal(packages, candidate);
    assert(is_variant(packages, e, r));
    assert(improves(packages, variant_texts(packages, candidate), e, r));
}

/// Without another variant of the same version, a lookup uses the entry that it found.
pub proof fn law_only_variant_is_used(packages: PackageMap, candidate: PathModel)
    requires
        forall|e: int, r: int|
            0 <= e < packages.pairs().len() && 0 <= r < packages.pairs().len() && e != r
                ==> !same_base(#[trigger] packages.pairs()[r].0, #[trigger] packages.pairs()[e].0),
        resolved_index(packages.pairs(), lockfile::path_id(candidate)) is Some,
    ensures
        deduped_index(packages, candidate) == resolved_index(
            packages.pairs(),
            lockfile::path_id(candidate),
        ),
{
    lemma_resolved_index(packages.pairs(), lockfile::path_id(candidate));
    law_deduped_is_maximal(packages, candidate);
}

/// After preferred variants took the place of direct dependencies, every dependency is
/// still there under its name, with its specifier, and a link is as it was.
pub proof fn law_deduped_importer_keeps_its_dependencies(
    deduped: ProjectModel,
    packages: PackageMap,
    project: ProjectModel,
    alias: Seq<char>,
)
    requires
        deduped == deduped_project(packages, project),
    ensures
        deduped.specifiers == project.specifiers,
        forall|group: lockfile::DependencyGroup| #[trigger]
            lockfile::group_map(project, group) is Some ==> {
                let before = lockfile::group_map(project, group)->0;
                let after = lockfile::group_map(deduped, group)->0;
                &&& lockfile::group_map(deduped, group) is Some
                &&& after.dom().contains(alias) <==> before.dom().contains(alias)
                &&& before.dom().contains(alias) ==> after[alias].specifier
                    == before[alias].specifier && (before[alias].version is Link
                    ==> after[alias].version == before[alias].version)
            },
{
}

/// The entry that is used for a key has every dependency of the one that the key stands
/// for, on the same package, and every one of its transitive peers, and no fewer of both
/// together; and it is one of the same registry, package and version.
pub proof fn law_used_variant_lacks_nothing(
    packages: PackageMap,
    candidate: PathModel,
    alias: Seq<char>,
    peer: Seq<char>,
)
    requires
        deduped_index(packages, candidate) is Some,
    ensures
        ({
            let r = resolved_index(packages.pairs(), lockfile::path_id(candidate))->0;
            let b = deduped_index(packages, candidate)->0;
            let before = packages.pairs()[r].1;
            let used = packages.pairs()[b].1;
            &&& before.dependencies is Some && before.dependencies->0.dom().contains(alias) ==> {
                &&& used.dependencies is Some && used.dependencies->0.dom().contains(alias)
                &&& PackageSnapshotDependency::bare(used.dependencies->0[alias])
                    == PackageSnapshotDependency::bare(before.dependencies->0[alias])
            }
            &&& before.transitive_peer_dependencies is Some
                && before.transitive_peer_dependencies->0.contains(peer)
                ==> used.transitive_peer_dependencies is Some
                && used.transitive_peer_dependencies->0.contains(peer)
            &&& packages.pairs()[r].0.specifier is Registry ==> {
                let mine = packages.pairs()[r].0;
                let theirs = packages.pairs()[b].0;
                &&& theirs.specifier is Registry
                &&& theirs.custom_registry == mine.custom_registry
                &&& (theirs.specifier->Registry_0).name == (mine.specifier->Registry_0).name
                &&& (theirs.specifier->Registry_0).suffix.version == (
                mine.specifier->Registry_0).suffix.version
            }
            &&& !(packages.pairs()[r].0.specifier is Registry) ==> packages.pairs()[b].0
                == packages.pairs()[r].0
        }),
{
    law_deduped_keeps_base(packages, candidate);
    let r = resolved_index(packages.pairs(), lockfile::path_id(candidate))->0;
    let b = deduped_index(packages, candidate)->0;
    let before = packages.pairs()[r].1;
    let used = packages.pairs()[b].1;
    if before.dependencies is Some && before.dependencies->0.dom().contains(alias) {
        let mine = bare_dependencies(before.dependencies->0);
        let theirs = bare_dependencies(used.dependencies->0);
        assert(mine.dom().contains(alias));
        assert(is_compatible(used, before));
        assert(used.dependencies is Some);
        assert(mine.submap_of(theirs));
        assert(theirs.dom().contains(alias));
        assert(theirs[alias] == mine[alias]);
    }
    if has_peer(before, peer) {
        assert(has_peer(used, peer));
    }
}

} // verus!
