//! From a manifest to a lockfile: what is resolved, and what is written down.
use crate::config::Npmrc;
use crate::json;
use crate::json::{Json, JsonModel};
use crate::lockfile;
use crate::lockfile::{
    DependencyGroup, DependencyPath, LockfileResolution, OptionalReference, OptionalReferenceModel,
    PackageMap, PackageModel, PackageSnapshot, PackageSnapshotDependency, PathId, PathModel,
    PkgNameVerPeer, PkgVerPeer, ProjectModel, ProjectSnapshot, ResolutionModel,
    ResolvedDependencyMap, ResolvedDependencySpec, ResolvedDependencyVersion, ResolvedSpecModel,
    ResolvedVersionModel, SnapshotDependencyModel,
};
use crate::lockfile_check;
use crate::manifest_check;
use crate::package_import;
use crate::package_snapshots;
use crate::package_snapshots::{PackageSnapshots, ResolvedPackages};
use crate::paths;
use crate::pnpmfile;
use crate::pnpmfile::Wish;
use crate::registry;
use crate::registry::PackageVersion;
use crate::semver;
use crate::snapshots;
use crate::sorted;
use crate::table;
use crate::table::{Table, TextMap};
use crate::text;
use crate::value;
use crate::value::Value;
use crate::workspace;
use crate::workspace::LocalDependency;
use vstd::prelude::*;
use vstd::string::*;

verus! {

/// How a peer and what it was resolved to are written behind a reference.
pub open spec fn peer_text(name: Seq<char>, version: ResolvedDependencyVersion) -> Seq<char> {
    match version {
        ResolvedDependencyVersion::PkgVerPeer(suffix) => name + "@"@ + lockfile::ver_peer_text(
            suffix,
        ),
        ResolvedDependencyVersion::PkgNameVerPeer(specifier) => lockfile::name_ver_peer_text(
            specifier,
        ),
        ResolvedDependencyVersion::Link(link) => name + "@"@ + (match text::stripped_prefix(
            link@,
            "link:"@,
        ) {
            Some(rest) => rest,
            None => link@,
        }),
    }
}

fn write_peer(name: &str, version: &ResolvedDependencyVersion) -> (s: String)
    ensures
        s@ == peer_text(name@, *version),
{
    match version {
        ResolvedDependencyVersion::PkgVerPeer(suffix) => text::copy(name).concat("@").concat(
            suffix.text().as_str(),
        ),
        ResolvedDependencyVersion::PkgNameVerPeer(specifier) => specifier.text(),
        ResolvedDependencyVersion::Link(link) => {
            let rest = match text::strip_prefix(link.as_str(), "link:") {
                Some(rest) => rest,
                None => link.as_str(),
            };
            text::copy(name).concat("@").concat(rest)
        },
    }
}

/// The peers that a local package was resolved against, each as it is written.
#[derive(Debug)]
pub struct PeerSuffixes {
    pub written: TextMap<String>,
}

impl PeerSuffixes {
    /// The peers by their names.
    pub open spec fn map(self) -> Map<Seq<char>, Seq<char>> {
        self.written.deep_view()
    }

    /// No peers.
    pub fn new() -> (peers: PeerSuffixes)
        ensures
            peers.map() == Map::<Seq<char>, Seq<char>>::empty(),
    {
        PeerSuffixes { written: Table::new() }
    }

    /// Adds a peer, in place of the one that its name had.
    pub fn insert(&mut self, name: &str, version: &ResolvedDependencyVersion)
        ensures
            final(self).map() == old(self).map().insert(name@, peer_text(name@, *version)),
    {
        self.written.insert(text::copy(name), write_peer(name, version));
    }
}

/// Adds peers whose names have none yet.
pub fn merge_resolved_peer_suffixes(target: &mut PeerSuffixes, source: &PeerSuffixes)
    ensures
        final(target).map() == source.map().union_prefer_right(old(target).map()),
{
    target.written.fill(&source.written);
}

/// Peers in brackets, one behind the other.
pub open spec fn bracketed(names: Seq<Seq<char>>, peers: Map<Seq<char>, Seq<char>>) -> Seq<char>
    decreases names.len(),
{
    if names.len() == 0 {
        Seq::empty()
    } else {
        bracketed(names.drop_last(), peers) + "("@ + peers[names.last()] + ")"@
    }
}

/// A reference with peers behind it, in the order of their names.
pub open spec fn with_peers(reference: Seq<char>, peers: Map<Seq<char>, Seq<char>>) -> Seq<char> {
    reference + bracketed(sorted::in_order(peers.dom()), peers)
}

/// A reference with peers behind it, in the order of their names.
pub fn append_peer_suffix_to_local_reference(reference: &str, resolved_peers: &PeerSuffixes) -> (s:
    String)
    ensures
        s@ == with_peers(reference@, resolved_peers.map()),
{
    let names = sorted::sorted_keys(&resolved_peers.written);
    let ghost all = names.deep_view();
    let ghost peers = resolved_peers.map();
    let mut s = text::copy(reference);
    let mut i: usize = 0;
    assert(s@ =~= reference@ + bracketed(all.take(0), peers));
    while i < names.len()
        invariant
            i <= names@.len(),
            all == names.deep_view(),
            peers == resolved_peers.map(),
            all.to_set() == peers.dom(),
            s@ == reference@ + bracketed(all.take(i as int), peers),
        decreases names@.len() - i,
    {
        let ghost before = s@;
        proof {
            assert(all.take(i + 1).drop_last() =~= all.take(i as int));
            assert(all[i as int] == names@[i as int]@);
            assert(all.to_set().contains(all[i as int]));
        }
        if let Some(peer) = resolved_peers.written.get_text(names[i].as_str()) {
            s = s.concat("(").concat(peer.as_str()).concat(")");
            assert(s@ =~= reference@ + (bracketed(all.take(i as int), peers) + "("@
                + peers[all[i as int]] + ")"@));
        }
        i = i + 1;
    }
    assert(all.take(i as int) =~= all);
    s
}

/// What a dependency was resolved to, and for a local package the peers that it
/// was resolved against.
#[derive(Debug)]
pub struct ResolvedPackage {
    pub version: ResolvedDependencyVersion,
    pub peer_suffixes: PeerSuffixes,
}

/// The mathematical value of a [`ResolvedPackage`].
pub struct ResolvedPackageModel {
    pub version: ResolvedVersionModel,
    pub peer_suffixes: Map<Seq<char>, Seq<char>>,
}

impl DeepView for ResolvedPackage {
    type V = ResolvedPackageModel;

    open spec fn deep_view(&self) -> ResolvedPackageModel {
        ResolvedPackageModel {
            version: self.version.deep_view(),
            peer_suffixes: self.peer_suffixes.map(),
        }
    }
}

impl Value for ResolvedPackage {
    fn duplicate(&self) -> ResolvedPackage {
        ResolvedPackage {
            version: self.version.duplicate(),
            peer_suffixes: PeerSuffixes { written: self.peer_suffixes.written.duplicate() },
        }
    }

    fn same(&self, other: &ResolvedPackage) -> bool {
        self.version.same(&other.version) && self.peer_suffixes.written.same(
            &other.peer_suffixes.written,
        )
    }
}

/// What a dependency without such peers was resolved to.
pub open spec fn plain_package(version: ResolvedVersionModel) -> ResolvedPackageModel {
    ResolvedPackageModel { version, peer_suffixes: Map::empty() }
}

impl ResolvedPackage {
    /// What a dependency without such peers was resolved to.
    pub fn new(version: ResolvedDependencyVersion) -> (package: ResolvedPackage)
        ensures
            package.deep_view() == plain_package(version.deep_view()),
            package.version == version,
    {
        ResolvedPackage { version, peer_suffixes: PeerSuffixes::new() }
    }
}

/// The direct dependencies of a project: name and specifier, and what they were
/// resolved to.
pub type ResolvedDirectDependencies = Table<(String, String), ResolvedPackage>;

/// A name and a specifier were asked for before.
pub open spec fn asked_before(all: Seq<Wish>, wish: Wish) -> bool {
    exists|i: int|
        0 <= i < all.len() && (#[trigger] all[i]).1 == wish.1 && all[i].2 == wish.2
}

/// What is asked for, without repetitions.
pub open spec fn distinct(all: Seq<Wish>) -> Seq<Wish>
    decreases all.len(),
{
    if all.len() == 0 {
        all
    } else if asked_before(all.drop_last(), all.last()) {
        distinct(all.drop_last())
    } else {
        distinct(all.drop_last()).push(all.last())
    }
}

/// What a manifest asks for, name and specifier once each.
pub fn unique_direct_dependencies(manifest_value: &Json, dependency_groups: &Vec<DependencyGroup>) -> (
all: Vec<(DependencyGroup, String, String)>)
    ensures
        pnpmfile::wishes_of(all@) == distinct(
            pnpmfile::wishes(manifest_value, dependency_groups@),
        ),
{
    let listed = pnpmfile::dependencies_from_manifest_value_grouped(
        manifest_value,
        dependency_groups,
    );
    let ghost wishes = pnpmfile::wishes_of(listed@);
    let mut all: Vec<(DependencyGroup, String, String)> = Vec::new();
    let mut i: usize = 0;
    assert(pnpmfile::wishes_of(all@) =~= distinct(wishes.take(0)));
    while i < listed.len()
        invariant
            i <= listed@.len(),
            wishes == pnpmfile::wishes_of(listed@),
            pnpmfile::wishes_of(all@) == distinct(wishes.take(i as int)),
        decreases listed@.len() - i,
    {
        let mut seen = false;
        let mut k: usize = 0;
        let ghost before = wishes.take(i as int);
        let ghost wish = wishes[i as int];
        assert(wish == pnpmfile::wish_of(listed@[i as int]));
        while k < i
            invariant
                k <= i < listed@.len(),
                wishes == pnpmfile::wishes_of(listed@),
                wish == pnpmfile::wish_of(listed@[i as int]),
                seen == asked_before(wishes.take(k as int), wish),
            decreases i - k,
        {
            let ghost shorter = wishes.take(k as int);
            let ghost longer = wishes.take(k + 1);
            let same = text::same_text(listed[k].1.as_str(), listed[i].1.as_str())
                && text::same_text(listed[k].2.as_str(), listed[i].2.as_str());
            proof {
                assert(wishes[k as int] == pnpmfile::wish_of(listed@[k as int]));
                assert(longer[k as int] == wishes[k as int]);
                if asked_before(shorter, wish) {
                    let j = choose|j: int|
                        0 <= j < shorter.len() && (#[trigger] shorter[j]).1 == wish.1
                            && shorter[j].2 == wish.2;
                    assert(longer[j] == shorter[j]);
                }
                if asked_before(longer, wish) {
                    let j = choose|j: int|
                        0 <= j < longer.len() && (#[trigger] longer[j]).1 == wish.1 && longer[j].2
                            == wish.2;
                    if j < k {
                        assert(shorter[j] == longer[j]);
                    }
                }
            }
            if same {
                seen = true;
            }
            k = k + 1;
        }
        assert(wishes.take(i + 1).drop_last() =~= before);
        if !seen {
            let ghost held = all@;
            all.push((listed[i].0, listed[i].1.clone(), listed[i].2.clone()));
            assert(pnpmfile::wishes_of(all@) =~= pnpmfile::wishes_of(held).push(wish));
        }
        i = i + 1;
    }
    assert(wishes.take(i as int) =~= wishes);
    all
}

/// A dependency of a package: whether it is optional, its name, and what is
/// asked for.
pub type Need = (bool, Seq<char>, Seq<char>);

/// The entries of a table as dependencies.
pub open spec fn needs(pairs: Seq<(Seq<char>, Seq<char>)>, optional: bool) -> Seq<Need> {
    pairs.map_values(|pair: (Seq<char>, Seq<char>)| (optional, pair.0, pair.1))
}

/// Dependencies as mathematical values.
pub open spec fn needs_of(entries: Seq<(bool, String, String)>) -> Seq<Need> {
    entries.map_values(|entry: (bool, String, String)| (entry.0, entry.1@, entry.2@))
}

/// The dependencies of a package: the regular ones, the optional ones, and the
/// peers where they are installed as well.
pub open spec fn package_needs(package: PackageVersion, auto_install_peers: bool) -> Seq<Need> {
    needs(package.regular_dependencies.pairs(), false) + needs(
        package.optional_dependencies.pairs(),
        true,
    ) + (if auto_install_peers && package.peer_dependencies is Some {
        needs(package.peer_dependencies->0.pairs(), false)
    } else {
        Seq::empty()
    })
}

fn push_needs(entries: &mut Vec<(bool, String, String)>, from: &TextMap<String>, optional: bool)
    ensures
        needs_of(final(entries)@) == needs_of(old(entries)@) + needs(from.pairs(), optional),
{
    let ghost first = needs_of(entries@);
    let ghost all = needs(from.pairs(), optional);
    let n: usize = from.len();
    let mut i: usize = 0;
    assert(needs_of(entries@) =~= first + all.take(0));
    while i < n
        invariant
            i <= n,
            n == from.pairs().len(),
            all == needs(from.pairs(), optional),
            needs_of(entries@) == first + all.take(i as int),
        decreases n - i,
    {
        let ghost held = entries@;
        entries.push((optional, from.key_at(i).clone(), from.value_at(i).clone()));
        proof {
            assert(needs_of(entries@) =~= needs_of(held).push(all[i as int]));
            assert(all.take(i + 1) =~= all.take(i as int).push(all[i as int]));
            assert(needs_of(entries@) =~= first + all.take(i + 1));
        }
        i = i + 1;
    }
    assert(all.take(i as int) =~= all);
}

/// The dependencies of a package.
pub fn package_dependency_entries(package_version: &PackageVersion, auto_install_peers: bool) -> (entries:
    Vec<(bool, String, String)>)
    ensures
        needs_of(entries@) == package_needs(*package_version, auto_install_peers),
{
    let mut entries: Vec<(bool, String, String)> = Vec::new();
    assert(needs_of(entries@) =~= Seq::empty());
    push_needs(&mut entries, &package_version.regular_dependencies, false);
    push_needs(&mut entries, &package_version.optional_dependencies, true);
    if auto_install_peers {
        if let Some(peers) = &package_version.peer_dependencies {
            push_needs(&mut entries, peers, false);
        }
    }
    assert(needs_of(entries@) =~= package_needs(*package_version, auto_install_peers));
    entries
}

/// How a package refers to what a dependency was resolved to.
pub open spec fn snapshot_dependency_of(version: ResolvedVersionModel) -> SnapshotDependencyModel {
    match version {
        ResolvedVersionModel::PkgVerPeer(suffix) => SnapshotDependencyModel::PkgVerPeer(suffix),
        ResolvedVersionModel::PkgNameVerPeer(specifier) => SnapshotDependencyModel::PkgNameVerPeer(
            specifier,
        ),
        ResolvedVersionModel::Link(link) => SnapshotDependencyModel::Link(link),
    }
}

/// How a package refers to what a dependency was resolved to.
pub fn resolved_version_to_snapshot_dependency(resolved_version: &ResolvedDependencyVersion) -> (dependency:
    PackageSnapshotDependency)
    ensures
        dependency.deep_view() == snapshot_dependency_of(resolved_version.deep_view()),
{
    match resolved_version {
        ResolvedDependencyVersion::PkgVerPeer(suffix) => PackageSnapshotDependency::PkgVerPeer(
            suffix.duplicate(),
        ),
        ResolvedDependencyVersion::PkgNameVerPeer(specifier) => {
            PackageSnapshotDependency::PkgNameVerPeer(specifier.duplicate())
        },
        ResolvedDependencyVersion::Link(link) => PackageSnapshotDependency::Link(link.clone()),
    }
}

/// How a package refers to an optional dependency. What a link says is no
/// reference that is read back as a package.
pub open spec fn optional_reference_of(version: ResolvedDependencyVersion) -> OptionalReferenceModel {
    OptionalReferenceModel {
        text: lockfile::resolved_version_text(version),
        dependency: if version is Link {
            None
        } else {
            Some(snapshot_dependency_of(version.deep_view()))
        },
    }
}

/// Adds a dependency of a package to those that it needs, or to the optional
/// ones.
pub fn insert_snapshot_dependency(
    dependencies: &mut TextMap<PackageSnapshotDependency>,
    optional_dependencies: &mut TextMap<OptionalReference>,
    dependency_name: &str,
    resolved_version: &ResolvedDependencyVersion,
    optional: bool,
)
    ensures
        final(dependencies).deep_view() == (if optional {
            old(dependencies).deep_view()
        } else {
            old(dependencies).deep_view().insert(
                dependency_name@,
                snapshot_dependency_of(resolved_version.deep_view()),
            )
        }),
        final(optional_dependencies).deep_view() == (if optional {
            old(optional_dependencies).deep_view().insert(
                dependency_name@,
                optional_reference_of(*resolved_version),
            )
        } else {
            old(optional_dependencies).deep_view()
        }),
{
    let dependency = resolved_version_to_snapshot_dependency(resolved_version);
    if optional {
        let reference = match resolved_version {
            ResolvedDependencyVersion::Link(_) => None,
            _ => Some(dependency),
        };
        optional_dependencies.insert(
            text::copy(dependency_name),
            OptionalReference { text: resolved_version.text(), dependency: reference },
        );
    } else {
        dependencies.insert(text::copy(dependency_name), dependency);
    }
}

/// A dependency is written down: a link only where links are, or where the
/// manifest asks for a package of the workspace.
pub open spec fn is_written_down(
    specifier: Seq<char>,
    version: ResolvedVersionModel,
    exclude_links: bool,
) -> bool {
    !exclude_links || text::starts_with(specifier, "workspace:"@) || !(version matches
        ResolvedVersionModel::Link(link) && text::starts_with(link, "link:"@))
}

/// Whether a dependency is written down.
pub fn should_include_dependency_in_lockfile(
    specifier: &str,
    resolved_version: &ResolvedDependencyVersion,
    exclude_links_from_lockfile: bool,
) -> (yes: bool)
    ensures
        yes == is_written_down(
            specifier@,
            resolved_version.deep_view(),
            exclude_links_from_lockfile,
        ),
{
    if !exclude_links_from_lockfile || text::has_prefix(specifier, "workspace:") {
        return true;
    }
    match resolved_version {
        ResolvedDependencyVersion::Link(version) => !text::has_prefix(version.as_str(), "link:"),
        _ => true,
    }
}

/// The version of a package as a lockfile keeps it.
pub open spec fn suffix_of(package: PackageVersion) -> lockfile::VerPeerModel {
    lockfile::VerPeerModel {
        version: package.version.deep_view(),
        peer: Seq::empty(),
        store_name: package.virtual_store_name@,
    }
}

/// The name and version of a package as a lockfile keeps them.
pub open spec fn specifier_of(package: PackageVersion) -> lockfile::NameVerPeerModel {
    lockfile::NameVerPeerModel { name: package.name@, suffix: suffix_of(package) }
}

/// The version of a package as a lockfile keeps it.
pub fn to_pkg_ver_peer(package_version: &PackageVersion) -> (suffix: PkgVerPeer)
    ensures
        suffix.deep_view() == suffix_of(*package_version),
        lockfile::ver_peer_text(suffix) == semver::version_text(
            package_version.version.deep_view(),
        ),
{
    let peer = String::new();
    assert(peer@ =~= Seq::<char>::empty());
    let suffix = PkgVerPeer {
        version: package_version.version.duplicate(),
        peer,
        store_name: package_version.virtual_store_name.clone(),
    };
    assert(lockfile::ver_peer_text(suffix) =~= semver::version_text(
        package_version.version.deep_view(),
    ));
    suffix
}

/// The key of a package.
pub open spec fn key_of(package: PackageVersion) -> PathModel {
    snapshots::registry_key(specifier_of(package))
}

/// What tells the key of a package from another.
pub open spec fn path_of(package: PackageVersion) -> PathId {
    lockfile::path_id(key_of(package))
}

/// The key of a package.
pub fn to_dependency_path(package_version: &PackageVersion) -> (path: DependencyPath)
    ensures
        path.deep_view() == key_of(*package_version),
        lockfile::specifier_store_name(path.package_specifier)
            == package_version.virtual_store_name@,
        lockfile::specifier_text(path.package_specifier) == registry::package_id(
            package_version.name@,
            package_version.version.deep_view(),
        ),
{
    proof {
        lemma_resolved_text(package_version.name@, *package_version);
    }
    DependencyPath::registry(
        None,
        PkgNameVerPeer {
            name: package_version.name.clone(),
            suffix: to_pkg_ver_peer(package_version),
        },
    )
}

/// What a dependency on a package is resolved to: its version where it goes by
/// its own name, and its name as well where it does not.
pub open spec fn resolved_to(name: Seq<char>, package: PackageVersion) -> ResolvedVersionModel {
    if package.name@ == name {
        ResolvedVersionModel::PkgVerPeer(suffix_of(package))
    } else {
        ResolvedVersionModel::PkgNameVerPeer(specifier_of(package))
    }
}

/// How what a dependency on a package is resolved to is written.
pub open spec fn resolved_text(name: Seq<char>, package: PackageVersion) -> Seq<char> {
    if package.name@ == name {
        semver::version_text(package.version.deep_view())
    } else {
        registry::package_id(package.name@, package.version.deep_view())
    }
}

proof fn lemma_resolved_text(name: Seq<char>, package: PackageVersion)
    ensures
        lockfile::written_version(resolved_to(name, package)) == resolved_text(name, package),
        lockfile::written_name_ver_peer(specifier_of(package)) == registry::package_id(
            package.name@,
            package.version.deep_view(),
        ),
{
    assert(lockfile::written_ver_peer(suffix_of(package)) =~= semver::version_text(
        package.version.deep_view(),
    ));
    reveal_strlit("@");
    assert("@"@ =~= seq!['@']);
}

/// What a dependency on a package is resolved to.
pub fn resolved_dependency_version(name: &str, package_version: &PackageVersion) -> (version:
    ResolvedDependencyVersion)
    ensures
        version.deep_view() == resolved_to(name@, *package_version),
        lockfile::resolved_version_text(version) == resolved_text(name@, *package_version),
{
    proof {
        lemma_resolved_text(name@, *package_version);
    }
    let suffix = to_pkg_ver_peer(package_version);
    if text::same_text(package_version.name.as_str(), name) {
        ResolvedDependencyVersion::PkgVerPeer(suffix)
    } else {
        ResolvedDependencyVersion::PkgNameVerPeer(
            PkgNameVerPeer { name: package_version.name.clone(), suffix },
        )
    }
}

/// A map, or nothing where it is empty.
pub open spec fn unless_empty<T>(map: Map<Seq<char>, T>) -> Option<Map<Seq<char>, T>> {
    if map == Map::<Seq<char>, T>::empty() {
        None
    } else {
        Some(map)
    }
}

fn table_unless_empty<V: Value>(table: TextMap<V>) -> (kept: Option<TextMap<V>>)
    ensures
        kept.deep_view() == unless_empty(table.deep_view()),
{
    if table.is_empty() {
        None
    } else {
        Some(table)
    }
}

fn true_or_none(b: bool) -> (kept: Option<bool>)
    ensures
        kept == (if b {
            Some(true)
        } else {
            None
        }),
{
    if b {
        Some(true)
    } else {
        None
    }
}

/// Where the contents of a package come from: out of the registry that is asked
/// for it, unless the settings or the package say otherwise.
pub open spec fn resolution_of(config: Npmrc, package: PackageVersion, registry: Seq<char>) -> ResolutionModel {
    if config.lockfile_include_tarball_url || package.tarball@ != registry::registry_tarball(
        registry,
        package.name@,
        package.version.deep_view(),
    ) {
        ResolutionModel::Tarball {
            tarball: package.tarball@,
            integrity: package.integrity.deep_view(),
        }
    } else {
        ResolutionModel::Registry { integrity: package.integrity->0@ }
    }
}

/// What a lockfile keeps of a package.
pub open spec fn snapshot_of(
    config: Npmrc,
    package: PackageVersion,
    dependencies: Map<Seq<char>, SnapshotDependencyModel>,
    optional_dependencies: Map<Seq<char>, OptionalReferenceModel>,
    optional: bool,
    registry: Seq<char>,
    requires_build: bool,
) -> PackageModel {
    PackageModel {
        resolution: resolution_of(config, package, registry),
        id: None,
        name: None,
        version: None,
        engines: package.engines.deep_view(),
        cpu: package.cpu.deep_view(),
        os: package.os.deep_view(),
        libc: package.libc.deep_view(),
        deprecated: package.deprecated.deep_view(),
        has_bin: if package.has_bin {
            Some(true)
        } else {
            None
        },
        prepare: None,
        requires_build: if requires_build {
            Some(true)
        } else {
            None
        },
        bundled_dependencies: None,
        peer_dependencies: None,
        peer_dependencies_meta: None,
        dependencies: unless_empty(dependencies),
        optional_dependencies: unless_empty(optional_dependencies),
        transitive_peer_dependencies: None,
        dev: None,
        optional: if optional {
            Some(true)
        } else {
            None
        },
    }
}

/// What a lockfile keeps of a package, given the registry that it is asked of
/// and whether the store has it down as one to build. One whose contents are
/// not known is left out.
pub fn to_package_snapshot(
    config: &Npmrc,
    package_version: &PackageVersion,
    dependencies: TextMap<PackageSnapshotDependency>,
    optional_dependencies: TextMap<OptionalReference>,
    optional: bool,
    registry: &str,
    requires_build: bool,
) -> (snapshot: PackageSnapshot)
    requires
        package_version.integrity is Some,
    ensures
        snapshot.deep_view() == snapshot_of(
            *config,
            *package_version,
            dependencies.deep_view(),
            optional_dependencies.deep_view(),
            optional,
            registry@,
            requires_build,
        ),
{
    let expected = registry::expected_registry_tarball(registry, package_version);
    let resolution = if config.lockfile_include_tarball_url || !text::same_text(
        package_version.tarball.as_str(),
        expected.as_str(),
    ) {
        LockfileResolution::Tarball {
            tarball: package_version.tarball.clone(),
            integrity: package_version.integrity.duplicate(),
        }
    } else {
        LockfileResolution::Registry {
            integrity: package_version.integrity.as_ref().unwrap().clone(),
        }
    };
    PackageSnapshot {
        resolution,
        id: None,
        name: None,
        version: None,
        engines: package_version.engines.duplicate(),
        cpu: package_version.cpu.duplicate(),
        os: package_version.os.duplicate(),
        libc: package_version.libc.duplicate(),
        deprecated: package_version.deprecated.duplicate(),
        has_bin: true_or_none(package_version.has_bin),
        prepare: None,
        requires_build: true_or_none(requires_build),
        bundled_dependencies: None,
        peer_dependencies: None,
        peer_dependencies_meta: None,
        dependencies: table_unless_empty(dependencies),
        optional_dependencies: table_unless_empty(optional_dependencies),
        transitive_peer_dependencies: None,
        dev: None,
        optional: true_or_none(optional),
    }
}

/// A package that was taken up: what it is resolved to, and, the first time,
/// which dependencies are to be taken up next.
#[derive(Debug)]
pub struct TakenUp {
    pub version: ResolvedDependencyVersion,
    pub dependencies: Option<Vec<(bool, String, String)>>,
}

/// Takes a package up. The first time, its dependencies are to be taken up
/// next, unless it is skipped; after that it only becomes a needed one where it
/// was optional before.
pub fn take_up_package(
    config: &Npmrc,
    resolved_packages: &mut ResolvedPackages,
    package_snapshots: &mut PackageSnapshots,
    name: &str,
    package_version: &PackageVersion,
    optional: bool,
    skipped_optional: bool,
) -> (taken: TakenUp)
    requires
        old(package_snapshots).well_formed(),
    ensures
        final(package_snapshots).well_formed(),
        taken.version.deep_view() == resolved_to(name@, *package_version),
        lockfile::resolved_version_text(taken.version) == resolved_text(name@, *package_version),
        final(package_snapshots).full_keys() == old(package_snapshots).full_keys(),
        final(resolved_packages).names() == old(resolved_packages).names().insert(
            package_version.virtual_store_name@,
        ),
        match taken.dependencies {
            Some(dependencies) => !old(resolved_packages).names().contains(
                package_version.virtual_store_name@,
            ) && needs_of(dependencies@) == (if skipped_optional {
                Seq::empty()
            } else {
                package_needs(*package_version, config.auto_install_peers)
            }) && final(package_snapshots).pairs() == old(package_snapshots).pairs(),
            None => old(resolved_packages).names().contains(package_version.virtual_store_name@)
                && final(package_snapshots).pairs() == package_snapshots::seen_again(
                old(package_snapshots).pairs(),
                path_of(*package_version),
                optional,
            ),
        },
{
    let version = resolved_dependency_version(name, package_version);
    if resolved_packages.insert(package_version.virtual_store_name.clone()) {
        let dependencies = if skipped_optional {
            let none: Vec<(bool, String, String)> = Vec::new();
            assert(needs_of(none@) =~= Seq::empty());
            none
        } else {
            package_dependency_entries(package_version, config.auto_install_peers)
        };
        TakenUp { version, dependencies: Some(dependencies) }
    } else {
        package_snapshots::downgrade_existing_snapshot_optional_flag(
            package_snapshots,
            &to_dependency_path(package_version),
            optional,
        );
        TakenUp { version, dependencies: None }
    }
}

/// What a dependency is resolved to leads to the directory of the virtual store
/// that the package is put into, whatever name the dependency goes by.
pub proof fn law_resolved_version_leads_to_the_package(
    name: Seq<char>,
    package: PackageVersion,
    version: ResolvedDependencyVersion,
    packages: Option<PackageMap>,
    virtual_store_dir: Seq<char>,
    on_windows: bool,
)
    requires
        version.deep_view() == resolved_to(name, package),
    ensures
        snapshots::store_location(name, version, packages) matches Some((alias, store_name, held))
            && alias == name && package_import::saved_at(
                virtual_store_dir,
                store_name,
                held,
                on_windows,
            )
            == package_import::saved_at(
            virtual_store_dir,
            package.virtual_store_name@,
            package.name@,
            on_windows,
        ),
{
}

/// What is written down of a package is found by what a dependency on it is
/// resolved to, under the directory that the package is put into.
pub proof fn law_resolved_version_is_found(
    name: Seq<char>,
    package: PackageVersion,
    before: PackageSnapshots,
    after: PackageSnapshots,
)
    requires
        after.full_keys() == table::with_key(
            before.full_keys(),
            path_of(package),
            key_of(package),
        ),
        !before.full_keys().dom().contains(path_of(package)),
    ensures
        snapshots::resolved_path_of(name, resolved_to(name, package)) == Some(path_of(package)),
        after.full_keys().dom().contains(path_of(package)),
        lockfile::store_name_of(after.full_keys()[path_of(package)].specifier)
            == package.virtual_store_name@,
        lockfile::written_specifier(after.full_keys()[path_of(package)].specifier)
            == registry::package_id(package.name@, package.version.deep_view()),
{
    lemma_resolved_text(package.name@, package);
}

/// What is asked for of a dependency once the root of the workspace had its say.
pub open spec fn dependency_range(
    config: Npmrc,
    root_peer_overrides: Map<Seq<char>, Seq<char>>,
    root_overrides: Map<Seq<char>, Seq<char>>,
    peers: Option<Map<Seq<char>, Seq<char>>>,
    name: Seq<char>,
    range: Seq<char>,
) -> Seq<char> {
    workspace::overridden(
        root_overrides,
        name,
        workspace::peer_overridden(
            config.resolve_peers_from_workspace_root,
            root_peer_overrides,
            peers,
            name,
            range,
        ),
    )
}

/// What is asked for of a dependency once the root of the workspace had its say.
pub fn requested_dependency_range(
    config: &Npmrc,
    workspace_root_peer_overrides: &TextMap<String>,
    workspace_root_overrides: &TextMap<String>,
    peer_dependencies: Option<&TextMap<String>>,
    name: &str,
    range: &str,
) -> (requested: String)
    ensures
        requested@ == dependency_range(
            *config,
            workspace_root_peer_overrides.deep_view(),
            workspace_root_overrides.deep_view(),
            peer_dependencies.deep_view(),
            name@,
            range@,
        ),
{
    let range = workspace::apply_workspace_root_peer_override(
        config,
        workspace_root_peer_overrides,
        peer_dependencies,
        name,
        range,
    );
    workspace::apply_workspace_root_override(workspace_root_overrides, name, range.as_str())
}

/// How a dependency of a package is come by: it is a package of the workspace,
/// or it is resolved in turn.
#[derive(Debug)]
pub enum DependencyStep {
    Linked { version: ResolvedDependencyVersion },
    Resolve { range: String },
}

/// How a dependency of a package is come by, given the package of the workspace
/// that it is on, if there is one.
pub fn dependency_step(
    lockfile_dir: &str,
    range: String,
    workspace_root_dir: Option<&str>,
    on_windows: bool,
) -> (step:
    DependencyStep)
    ensures
        match step {
            DependencyStep::Linked { version } => workspace_root_dir is Some
                && version.deep_view() == ResolvedVersionModel::Link(
                workspace::workspace_link(lockfile_dir@, workspace_root_dir->0@, on_windows),
            ),
            DependencyStep::Resolve { range: requested } => workspace_root_dir is None && requested
                == range,
        },
{
    match workspace_root_dir {
        Some(root_dir) => DependencyStep::Linked {
            version: ResolvedDependencyVersion::Link(
                workspace::link_to_workspace_package(lockfile_dir, root_dir, on_windows),
            ),
        },
        None => DependencyStep::Resolve { range },
    }
}

/// A dependency of a package that was resolved: whether it is optional, its
/// name, and what it was resolved to.
#[derive(Debug)]
pub struct ResolvedDependency {
    pub optional: bool,
    pub name: String,
    pub version: ResolvedDependencyVersion,
}

/// The needed ones of the first `n` dependencies.
pub open spec fn needed_dependencies(children: Seq<ResolvedDependency>, n: int) -> Map<
    Seq<char>,
    SnapshotDependencyModel,
>
    decreases n,
{
    if n <= 0 {
        Map::empty()
    } else if children[n - 1].optional {
        needed_dependencies(children, n - 1)
    } else {
        needed_dependencies(children, n - 1).insert(
            children[n - 1].name@,
            snapshot_dependency_of(children[n - 1].version.deep_view()),
        )
    }
}

/// The optional ones of the first `n` dependencies.
pub open spec fn optional_dependencies_of(children: Seq<ResolvedDependency>, n: int) -> Map<
    Seq<char>,
    OptionalReferenceModel,
>
    decreases n,
{
    if n <= 0 {
        Map::empty()
    } else if children[n - 1].optional {
        optional_dependencies_of(children, n - 1).insert(
            children[n - 1].name@,
            optional_reference_of(children[n - 1].version),
        )
    } else {
        optional_dependencies_of(children, n - 1)
    }
}

/// Writes a package down once all of its dependencies are resolved.
pub fn finish_package(
    config: &Npmrc,
    package_snapshots: &mut PackageSnapshots,
    package_version: &PackageVersion,
    children: &Vec<ResolvedDependency>,
    optional: bool,
    registry: &str,
    requires_build: bool,
)
    requires
        old(package_snapshots).well_formed(),
        package_version.integrity is Some,
    ensures
        final(package_snapshots).well_formed(),
        final(package_snapshots).pairs() == table::put(
            old(package_snapshots).pairs(),
            path_of(*package_version),
            snapshot_of(
                *config,
                *package_version,
                needed_dependencies(children@, children@.len() as int),
                optional_dependencies_of(children@, children@.len() as int),
                optional,
                registry@,
                requires_build,
            ),
        ),
        final(package_snapshots).full_keys() == table::with_key(
            old(package_snapshots).full_keys(),
            path_of(*package_version),
            key_of(*package_version),
        ),
{
    let mut dependencies: TextMap<PackageSnapshotDependency> = Table::new();
    let mut optional_dependencies: TextMap<OptionalReference> = Table::new();
    let mut i: usize = 0;
    while i < children.len()
        invariant
            i <= children@.len(),
            dependencies.deep_view() == needed_dependencies(children@, i as int),
            optional_dependencies.deep_view() == optional_dependencies_of(children@, i as int),
        decreases children@.len() - i,
    {
        insert_snapshot_dependency(
            &mut dependencies,
            &mut optional_dependencies,
            children[i].name.as_str(),
            &children[i].version,
            children[i].optional,
        );
        i = i + 1;
    }
    let snapshot = to_package_snapshot(
        config,
        package_version,
        dependencies,
        optional_dependencies,
        optional,
        registry,
        requires_build,
    );
    package_snapshots.insert(to_dependency_path(package_version), snapshot);
}

/// What is read of the manifest of a local package.
#[derive(Debug)]
pub struct LocalPlan {
    pub package_name: String,
    pub peers: Option<TextMap<String>>,
    pub children: Vec<(String, String)>,
}

/// The groups of dependencies that a local package brings along.
pub open spec fn local_groups() -> Seq<DependencyGroup> {
    seq![DependencyGroup::Prod, DependencyGroup::Optional]
}

/// What is read of the manifest of a local package.
pub open spec fn is_local_plan(
    plan: LocalPlan,
    manifest: Option<&Json>,
    dependency_name: Seq<char>,
) -> bool {
    match manifest {
        Some(manifest) => {
            &&& plan.package_name@ == (match json::as_text(
                json::field(manifest.deep_view(), "name"@),
            ) {
                Some(name) => name,
                None => dependency_name,
            })
            &&& plan.peers.deep_view() == unless_empty(
                json::text_map(json::field(manifest.deep_view(), "peerDependencies"@)),
            )
            &&& plan.children.deep_view() == pnpmfile::ungrouped(
                pnpmfile::wishes(manifest, local_groups()),
            )
        },
        None => plan.package_name@ == dependency_name && plan.peers is None
            && plan.children.deep_view() == Seq::<(Seq<char>, Seq<char>)>::empty(),
    }
}

/// What is read of the manifest of a local package: its name, the peers that it
/// has, and the dependencies that it brings along.
pub fn local_plan(manifest: Option<&Json>, dependency_name: &str) -> (plan: LocalPlan)
    ensures
        is_local_plan(plan, manifest, dependency_name@),
{
    match manifest {
        Some(manifest) => {
            let name = match manifest.get("name") {
                Some(name) => match name.as_str() {
                    Some(name) => name,
                    None => dependency_name,
                },
                None => dependency_name,
            };
            let mut groups: Vec<DependencyGroup> = Vec::new();
            groups.push(DependencyGroup::Prod);
            groups.push(DependencyGroup::Optional);
            assert(groups@ =~= local_groups());
            LocalPlan {
                package_name: text::copy(name),
                peers: table_unless_empty(json::json_string_map(manifest.get("peerDependencies"))),
                children: pnpmfile::dependencies_from_manifest_value(manifest, &groups),
            }
        },
        None => {
            let children: Vec<(String, String)> = Vec::new();
            assert(children.deep_view() =~= Seq::<(Seq<char>, Seq<char>)>::empty());
            LocalPlan { package_name: text::copy(dependency_name), peers: None, children }
        },
    }
}

/// How a peer of a local package is come by.
#[derive(Debug)]
pub enum PeerStep {
    Linked { version: ResolvedDependencyVersion },
    Snapshot { path: String, reference: String },
    Resolve { range: String },
    Absent,
}

/// What is asked for of a peer: what the project itself asks for, or else what
/// the local package does, once the root of the workspace had its say.
pub open spec fn peer_range(
    available: Map<Seq<char>, Seq<char>>,
    root_overrides: Map<Seq<char>, Seq<char>>,
    name: Seq<char>,
    range: Seq<char>,
) -> Seq<char> {
    workspace::overridden(root_overrides, name, workspace::overridden(available, name, range))
}

/// What is asked for of a peer.
pub fn requested_peer_range(
    available_specs: &TextMap<String>,
    workspace_root_overrides: &TextMap<String>,
    name: &str,
    version_range: &str,
) -> (range: String)
    ensures
        range@ == peer_range(
            available_specs.deep_view(),
            workspace_root_overrides.deep_view(),
            name@,
            version_range@,
        ),
{
    let range = workspace::apply_workspace_root_override(available_specs, name, version_range);
    workspace::apply_workspace_root_override(workspace_root_overrides, name, range.as_str())
}

/// How a directory is referred to from a project.
pub open spec fn project_reference(
    dependency: LocalDependency,
    manifest_path: Seq<char>,
    on_windows: bool,
) -> Seq<char> {
    (if dependency.should_symlink {
        "link:"@
    } else {
        "file:"@
    }) + text::replace_char(
        paths::relative_path(
            workspace::manifest_dir(manifest_path, on_windows),
            dependency.path@,
            on_windows,
        ),
        '\\',
        "/"@,
    )
}

/// How a peer of a local package is come by.
pub open spec fn is_peer_step(
    step: PeerStep,
    is_available: bool,
    auto_install_peers: bool,
    manifest_path: Seq<char>,
    lockfile_dir: Seq<char>,
    requested: Seq<char>,
    root_dir: Option<Seq<char>>,
    on_windows: bool,
) -> bool {
    let linked_first = is_available && root_dir is Some;
    let is_local = workspace::names_directory(requested);
    match step {
        PeerStep::Linked { version } => {
            ||| (linked_first || (!is_local && root_dir is Some)) && version.deep_view()
                == ResolvedVersionModel::Link(
                workspace::workspace_link(lockfile_dir, root_dir->0, on_windows),
            )
            ||| !linked_first && is_local && links_directory(
                version,
                manifest_path,
                requested,
                on_windows,
            )
        },
        PeerStep::Snapshot { path, reference } => !linked_first && is_local && copies_directory(
            path@,
            reference@,
            manifest_path,
            requested,
            on_windows,
        ),
        PeerStep::Resolve { range } => root_dir is None && !is_local && (is_available
            || auto_install_peers) && range@ == requested,
        PeerStep::Absent => root_dir is None && !is_local && !is_available && !auto_install_peers,
    }
}

/// A directory that is linked to.
pub open spec fn links_directory(
    version: ResolvedDependencyVersion,
    manifest_path: Seq<char>,
    requested: Seq<char>,
    on_windows: bool,
) -> bool {
    exists|dependency: LocalDependency|
        #[trigger] workspace::is_local_dependency(dependency, manifest_path, requested, on_windows)
            && dependency.should_symlink && version.deep_view() == ResolvedVersionModel::Link(
            project_reference(dependency, manifest_path, on_windows),
        )
}

/// A directory that is copied.
pub open spec fn copies_directory(
    path: Seq<char>,
    reference: Seq<char>,
    manifest_path: Seq<char>,
    requested: Seq<char>,
    on_windows: bool,
) -> bool {
    exists|dependency: LocalDependency|
        #[trigger] workspace::is_local_dependency(dependency, manifest_path, requested, on_windows)
            && !dependency.should_symlink && path == dependency.path@ && reference
            == project_reference(dependency, manifest_path, on_windows)
}

/// How a peer of a local package is come by, given what was found of it among
/// the packages of the workspace. A package of the workspace comes first where
/// the project asks for the peer itself; then come directories, packages of the
/// workspace, and the registry, which is asked where the project asks for the
/// peer or the settings say so.
pub fn local_peer_step(
    config: &Npmrc,
    is_available: bool,
    manifest_path: &str,
    lockfile_dir: &str,
    requested_range: String,
    workspace_root_dir: Result<Option<String>, String>,
    on_windows: bool,
) -> (step: Result<PeerStep, String>)
    ensures
        match step {
            Ok(step) => match workspace_root_dir {
                Ok(root_dir) => is_peer_step(
                    step,
                    is_available,
                    config.auto_install_peers,
                    manifest_path@,
                    lockfile_dir@,
                    requested_range@,
                    root_dir.deep_view(),
                    on_windows,
                ),
                Err(_) => !is_available && workspace::names_directory(requested_range@)
                    && is_peer_step(
                    step,
                    is_available,
                    config.auto_install_peers,
                    manifest_path@,
                    lockfile_dir@,
                    requested_range@,
                    None,
                    on_windows,
                ),
            },
            Err(message) => workspace_root_dir is Err && workspace_root_dir->Err_0@ == message@ && (
            is_available || !workspace::names_directory(requested_range@)),
        },
{
    if is_available {
        match &workspace_root_dir {
            Ok(Some(root_dir)) => {
                return Ok(
                    PeerStep::Linked {
                        version: ResolvedDependencyVersion::Link(
                            workspace::link_to_workspace_package(
                                lockfile_dir,
                                root_dir.as_str(),
                                on_windows,
                            ),
                        ),
                    },
                );
            },
            Ok(None) => {},
            Err(message) => {
                return Err(message.clone());
            },
        }
    }
    if let Some(dependency) = workspace::resolve_local_dependency(
        manifest_path,
        requested_range.as_str(),
        on_windows,
    ) {
        let protocol = if dependency.should_symlink {
            "link:"
        } else {
            "file:"
        };
        let dir = workspace::dir_of_manifest(manifest_path, on_windows);
        let relative = text::replace(
            paths::to_relative_path(dir.as_str(), dependency.path.as_str(), on_windows).as_str(),
            '\\',
            "/",
        );
        let reference = text::copy(protocol).concat(relative.as_str());
        assert(workspace::is_local_dependency(
            dependency,
            manifest_path@,
            requested_range@,
            on_windows,
        ));
        assert(reference@ == project_reference(dependency, manifest_path@, on_windows));
        if dependency.should_symlink {
            let version = ResolvedDependencyVersion::Link(reference);
            assert(links_directory(version, manifest_path@, requested_range@, on_windows));
            return Ok(PeerStep::Linked { version });
        }
        assert(copies_directory(
            dependency.path@,
            reference@,
            manifest_path@,
            requested_range@,
            on_windows,
        ));
        return Ok(PeerStep::Snapshot { path: dependency.path, reference });
    }
    match workspace_root_dir {
        Ok(Some(root_dir)) => Ok(
            PeerStep::Linked {
                version: ResolvedDependencyVersion::Link(
                    workspace::link_to_workspace_package(
                        lockfile_dir,
                        root_dir.as_str(),
                        on_windows,
                    ),
                ),
            },
        ),
        Ok(None) => if is_available || config.auto_install_peers {
            Ok(PeerStep::Resolve { range: requested_range })
        } else {
            Ok(PeerStep::Absent)
        },
        Err(message) => Err(message),
    }
}

/// How a dependency of a local package is come by.
#[derive(Debug)]
pub enum ChildStep {
    Symlink { version: ResolvedDependencyVersion },
    Snapshot { path: String, reference: String },
    Resolve { range: String },
}

/// How a dependency of a local package is come by.
pub open spec fn is_child_step(
    step: ChildStep,
    manifest_path: Seq<char>,
    lockfile_dir: Seq<char>,
    range: Seq<char>,
    requested: Seq<char>,
    root_dir: Option<Seq<char>>,
    on_windows: bool,
) -> bool {
    let is_local = workspace::names_directory(range);
    match step {
        ChildStep::Symlink { version } => is_local && child_links(
            version,
            manifest_path,
            range,
            on_windows,
        ),
        ChildStep::Snapshot { path, reference } => {
            ||| is_local && child_copies(
                path@,
                reference@,
                manifest_path,
                lockfile_dir,
                range,
                on_windows,
            )
            ||| !is_local && root_dir == Some(path@) && reference@ == text::replace_char(
                workspace::local_reference(lockfile_dir, path@, on_windows),
                '\\',
                "/"@,
            )
        },
        ChildStep::Resolve { range: wanted } => !is_local && root_dir is None && wanted@
            == requested,
    }
}

/// A directory that a local package links to.
pub open spec fn child_links(
    version: ResolvedDependencyVersion,
    manifest_path: Seq<char>,
    range: Seq<char>,
    on_windows: bool,
) -> bool {
    exists|dependency: LocalDependency|
        #[trigger] workspace::is_local_dependency(dependency, manifest_path, range, on_windows)
            && dependency.should_symlink && version.deep_view() == ResolvedVersionModel::Link(
            dependency.link@,
        )
}

/// A directory that a local package holds a copy of.
pub open spec fn child_copies(
    path: Seq<char>,
    reference: Seq<char>,
    manifest_path: Seq<char>,
    lockfile_dir: Seq<char>,
    range: Seq<char>,
    on_windows: bool,
) -> bool {
    exists|dependency: LocalDependency|
        #[trigger] workspace::is_local_dependency(dependency, manifest_path, range, on_windows)
            && !dependency.should_symlink && path == dependency.path@ && reference
            == text::replace_char(
                workspace::local_reference(lockfile_dir, path, on_windows),
                '\\',
                "/"@,
            )
}

/// A local directory as it is referred to in a lockfile, with slashes.
pub fn slashed_reference(lockfile_dir: &str, path: &str, on_windows: bool) -> (reference: String)
    ensures
        reference@ == text::replace_char(
            workspace::local_reference(lockfile_dir@, path@, on_windows),
            '\\',
            "/"@,
        ),
{
    text::replace(
        workspace::normalized_local_file_reference(lockfile_dir, path, on_windows).as_str(),
        '\\',
        "/",
    )
}

/// How a dependency of a local package is come by, given what was found of it
/// among the packages of the workspace: directories come first, then packages
/// of the workspace, then the registry.
pub fn local_child_step(
    manifest_path: &str,
    lockfile_dir: &str,
    child_range: &str,
    requested_range: String,
    workspace_root_dir: Result<Option<String>, String>,
    on_windows: bool,
) -> (step: Result<ChildStep, String>)
    ensures
        match step {
            Ok(step) => is_child_step(
                step,
                manifest_path@,
                lockfile_dir@,
                child_range@,
                requested_range@,
                match workspace_root_dir {
                    Ok(root_dir) => root_dir.deep_view(),
                    Err(_) => None,
                },
                on_windows,
            ) && (workspace_root_dir is Err ==> workspace::names_directory(child_range@)),
            Err(message) => !workspace::names_directory(child_range@) && workspace_root_dir is Err
                && workspace_root_dir->Err_0 == message,
        },
{
    if let Some(dependency) = workspace::resolve_local_dependency(
        manifest_path,
        child_range,
        on_windows,
    ) {
        assert(workspace::is_local_dependency(
            dependency,
            manifest_path@,
            child_range@,
            on_windows,
        ));
        if dependency.should_symlink {
            let ghost link = dependency.link@;
            let version = ResolvedDependencyVersion::Link(dependency.link.clone());
            assert(child_links(version, manifest_path@, child_range@, on_windows));
            return Ok(ChildStep::Symlink { version });
        }
        let reference = slashed_reference(lockfile_dir, dependency.path.as_str(), on_windows);
        assert(child_copies(
            dependency.path@,
            reference@,
            manifest_path@,
            lockfile_dir@,
            child_range@,
            on_windows,
        ));
        return Ok(ChildStep::Snapshot { path: dependency.path, reference });
    }
    match workspace_root_dir {
        Ok(Some(root_dir)) => {
            let reference = slashed_reference(lockfile_dir, root_dir.as_str(), on_windows);
            Ok(ChildStep::Snapshot { path: root_dir, reference })
        },
        Ok(None) => Ok(ChildStep::Resolve { range: requested_range }),
        Err(message) => Err(message),
    }
}

/// A peer of a local package that was resolved.
#[derive(Debug)]
pub struct ResolvedPeer {
    pub name: String,
    pub package: ResolvedPackage,
}

/// A dependency of a local package that was resolved: to a directory or a
/// package of the workspace, or out of the registry.
#[derive(Debug)]
pub struct ResolvedChild {
    pub name: String,
    pub package: ResolvedPackage,
    pub is_link: bool,
}

/// The peers that a local package was resolved against, given those that it
/// has: each of them, and those that came with it.
pub open spec fn own_peers(peers: Seq<ResolvedPeer>, n: int) -> Map<Seq<char>, Seq<char>>
    decreases n,
{
    if n <= 0 {
        Map::empty()
    } else {
        let peer = peers[n - 1];
        peer.package.peer_suffixes.map().union_prefer_right(
            own_peers(peers, n - 1).insert(
                peer.name@,
                peer_text(peer.name@, peer.package.version),
            ),
        )
    }
}

/// The peers that a local package was resolved against, with those that came
/// with directories and packages of the workspace.
pub open spec fn all_peers(
    peers: Seq<ResolvedPeer>,
    children: Seq<ResolvedChild>,
    n: int,
) -> Map<Seq<char>, Seq<char>>
    decreases n,
{
    if n <= 0 {
        own_peers(peers, peers.len() as int)
    } else if children[n - 1].is_link {
        children[n - 1].package.peer_suffixes.map().union_prefer_right(
            all_peers(peers, children, n - 1),
        )
    } else {
        all_peers(peers, children, n - 1)
    }
}

/// The peers that a local package was resolved against.
pub fn collect_local_peers(peers: &Vec<ResolvedPeer>, children: &Vec<ResolvedChild>) -> (all:
    PeerSuffixes)
    ensures
        all.map() == all_peers(peers@, children@, children@.len() as int),
{
    let mut all = PeerSuffixes::new();
    let mut i: usize = 0;
    while i < peers.len()
        invariant
            i <= peers@.len(),
            all.map() == own_peers(peers@, i as int),
        decreases peers@.len() - i,
    {
        all.insert(peers[i].name.as_str(), &peers[i].package.version);
        merge_resolved_peer_suffixes(&mut all, &peers[i].package.peer_suffixes);
        i = i + 1;
    }
    let mut k: usize = 0;
    while k < children.len()
        invariant
            k <= children@.len(),
            all.map() == all_peers(peers@, children@, k as int),
        decreases children@.len() - k,
    {
        if children[k].is_link {
            merge_resolved_peer_suffixes(&mut all, &children[k].package.peer_suffixes);
        }
        k = k + 1;
    }
    all
}

/// The first `n` peers of a local package as its dependencies.
pub open spec fn peers_as_dependencies(peers: Seq<ResolvedPeer>, n: int) -> Map<
    Seq<char>,
    SnapshotDependencyModel,
>
    decreases n,
{
    if n <= 0 {
        Map::empty()
    } else {
        peers_as_dependencies(peers, n - 1).insert(
            peers[n - 1].name@,
            snapshot_dependency_of(peers[n - 1].package.version.deep_view()),
        )
    }
}

/// How a local package refers to one of its dependencies.
pub open spec fn child_dependency(child: ResolvedChild) -> SnapshotDependencyModel {
    if child.is_link {
        SnapshotDependencyModel::Link(lockfile::resolved_version_text(child.package.version))
    } else {
        snapshot_dependency_of(child.package.version.deep_view())
    }
}

/// The dependencies of a local package, with the first `n` of those that it
/// brings along.
pub open spec fn local_dependencies(
    peers: Seq<ResolvedPeer>,
    children: Seq<ResolvedChild>,
    n: int,
) -> Map<Seq<char>, SnapshotDependencyModel>
    decreases n,
{
    if n <= 0 {
        peers_as_dependencies(peers, peers.len() as int)
    } else {
        local_dependencies(peers, children, n - 1).insert(
            children[n - 1].name@,
            child_dependency(children[n - 1]),
        )
    }
}

/// What a lockfile keeps of a local package.
pub open spec fn local_snapshot(
    reference: Seq<char>,
    peers: Option<Map<Seq<char>, Seq<char>>>,
    dependencies: Map<Seq<char>, SnapshotDependencyModel>,
) -> PackageModel {
    PackageModel {
        resolution: ResolutionModel::Directory {
            directory: match text::stripped_prefix(reference, "file:"@) {
                Some(directory) => directory,
                None => reference,
            },
        },
        id: None,
        name: None,
        version: None,
        engines: None,
        cpu: None,
        os: None,
        libc: None,
        deprecated: None,
        has_bin: None,
        prepare: None,
        requires_build: None,
        bundled_dependencies: None,
        peer_dependencies: peers,
        peer_dependencies_meta: None,
        dependencies: unless_empty(dependencies),
        optional_dependencies: None,
        transitive_peer_dependencies: None,
        dev: None,
        optional: None,
    }
}

/// The key of a local package.
pub open spec fn local_key(
    name: Seq<char>,
    reference: Seq<char>,
    store_name: Seq<char>,
) -> PathModel {
    PathModel {
        custom_registry: None,
        specifier: lockfile::SpecifierModel::LocalFile { name, reference, store_name },
    }
}

/// Writes a local package down once all of its peers and dependencies are
/// resolved. The package is referred to by where it is and by the peers that it
/// was resolved against; the name of its directory in the virtual store is
/// given.
pub fn finish_local_directory(
    package_snapshots: &mut PackageSnapshots,
    plan: LocalPlan,
    normalized_ref: &str,
    peers: &Vec<ResolvedPeer>,
    children: &Vec<ResolvedChild>,
    store_name: String,
) -> (package: ResolvedPackage)
    requires
        old(package_snapshots).well_formed(),
    ensures
        final(package_snapshots).well_formed(),
        package.peer_suffixes.map() == all_peers(peers@, children@, children@.len() as int),
        package.version.deep_view() == ResolvedVersionModel::Link(
            with_peers(normalized_ref@, package.peer_suffixes.map()),
        ),
        final(package_snapshots).pairs() == table::put(
            old(package_snapshots).pairs(),
            lockfile::local_path(
                plan.package_name@,
                with_peers(normalized_ref@, package.peer_suffixes.map()),
            ),
            local_snapshot(
                normalized_ref@,
                plan.peers.deep_view(),
                local_dependencies(peers@, children@, children@.len() as int),
            ),
        ),
        final(package_snapshots).full_keys() == table::with_key(
            old(package_snapshots).full_keys(),
            lockfile::local_path(
                plan.package_name@,
                with_peers(normalized_ref@, package.peer_suffixes.map()),
            ),
            local_key(
                plan.package_name@,
                with_peers(normalized_ref@, package.peer_suffixes.map()),
                store_name@,
            ),
        ),
{
    let peer_suffixes = collect_local_peers(peers, children);
    let mut dependencies: TextMap<PackageSnapshotDependency> = Table::new();
    let mut i: usize = 0;
    while i < peers.len()
        invariant
            i <= peers@.len(),
            dependencies.deep_view() == peers_as_dependencies(peers@, i as int),
        decreases peers@.len() - i,
    {
        dependencies.insert(
            peers[i].name.clone(),
            resolved_version_to_snapshot_dependency(&peers[i].package.version),
        );
        i = i + 1;
    }
    let mut k: usize = 0;
    while k < children.len()
        invariant
            k <= children@.len(),
            dependencies.deep_view() == local_dependencies(peers@, children@, k as int),
        decreases children@.len() - k,
    {
        let version = &children[k].package.version;
        let dependency = if children[k].is_link {
            PackageSnapshotDependency::Link(version.text())
        } else {
            resolved_version_to_snapshot_dependency(version)
        };
        dependencies.insert(children[k].name.clone(), dependency);
        k = k + 1;
    }
    let reference = append_peer_suffix_to_local_reference(normalized_ref, &peer_suffixes);
    let directory = match text::strip_prefix(normalized_ref, "file:") {
        Some(directory) => directory,
        None => normalized_ref,
    };
    let path = DependencyPath::local_file(plan.package_name, reference.clone(), store_name);
    package_snapshots.insert(
        path,
        PackageSnapshot {
            resolution: LockfileResolution::Directory { directory: text::copy(directory) },
            id: None,
            name: None,
            version: None,
            engines: None,
            cpu: None,
            os: None,
            libc: None,
            deprecated: None,
            has_bin: None,
            prepare: None,
            requires_build: None,
            bundled_dependencies: None,
            peer_dependencies: plan.peers,
            peer_dependencies_meta: None,
            dependencies: table_unless_empty(dependencies),
            optional_dependencies: None,
            transitive_peer_dependencies: None,
            dev: None,
            optional: None,
        },
    );
    ResolvedPackage { version: ResolvedDependencyVersion::Link(reference), peer_suffixes }
}

/// How a direct dependency of a project is come by: a directory is linked to or
/// copied, a package of the workspace is copied or linked to, and anything else
/// is resolved, and installed unless only the lockfile is wanted.
#[derive(Debug)]
#[allow(inconsistent_fields)]
pub enum DirectStep {
    LinkDirectory { version: ResolvedDependencyVersion, target: String, at: Option<String> },
    CopyDirectory { path: String, reference: String },
    CopyWorkspacePackage { path: String, reference: String },
    LinkWorkspacePackage { version: ResolvedDependencyVersion, target: String, at: Option<String> },
    Resolve { optional: bool },
    Install { optional: bool },
}

/// What a direct dependency is decided by.
pub struct DirectCase {
    pub modules_dir: Seq<char>,
    pub manifest: JsonModel,
    pub manifest_path: Seq<char>,
    pub lockfile_dir: Seq<char>,
    pub group: DependencyGroup,
    pub name: Seq<char>,
    pub range: Seq<char>,
    pub inject_all: bool,
    pub lockfile_only: bool,
}

/// A link is made, unless only the lockfile is wanted.
pub open spec fn link_place(case: DirectCase, at: Option<String>, on_windows: bool) -> bool {
    at.deep_view() == (if case.lockfile_only {
        None
    } else {
        Some(paths::joined(case.modules_dir, case.name, on_windows))
    })
}

/// A directory is linked to.
pub open spec fn links_direct(
    case: DirectCase,
    version: ResolvedDependencyVersion,
    target: Seq<char>,
    on_windows: bool,
) -> bool {
    exists|dependency: LocalDependency|
        #[trigger] workspace::is_local_dependency(
            dependency,
            case.manifest_path,
            case.range,
            on_windows,
        )
            && dependency.should_symlink && version.deep_view() == ResolvedVersionModel::Link(
            dependency.link@,
        ) && target == dependency.path@
}

/// How a direct dependency of a project is come by.
pub open spec fn is_direct_step(
    step: DirectStep,
    case: DirectCase,
    root_dir: Option<Seq<char>>,
    on_windows: bool,
) -> bool {
    let is_local = workspace::names_directory(case.range);
    let injected = workspace::injects(case.manifest, case.name, case.range, case.inject_all);
    match step {
        DirectStep::LinkDirectory { version, target, at } => is_local && links_direct(
            case,
            version,
            target@,
            on_windows,
        ) && link_place(case, at, on_windows),
        DirectStep::CopyDirectory { path, reference } => is_local && child_copies(
            path@,
            reference@,
            case.manifest_path,
            case.lockfile_dir,
            case.range,
            on_windows,
        ),
        DirectStep::CopyWorkspacePackage { path, reference } => !is_local && injected && root_dir
            == Some(path@) && reference@ == text::replace_char(
            workspace::local_reference(case.lockfile_dir, path@, on_windows),
            '\\',
            "/"@,
        ),
        DirectStep::LinkWorkspacePackage { version, target, at } => !is_local && !injected
            && root_dir == Some(target@) && version.deep_view() == ResolvedVersionModel::Link(
            workspace::workspace_link(
                workspace::manifest_dir(case.manifest_path, on_windows),
                target@,
                on_windows,
            ),
        ) && link_place(case, at, on_windows),
        DirectStep::Resolve { optional } => !is_local && root_dir is None && case.lockfile_only
            && optional == (case.group == DependencyGroup::Optional),
        DirectStep::Install { optional } => !is_local && root_dir is None && !case.lockfile_only
            && optional == (case.group == DependencyGroup::Optional),
    }
}

fn link_at(
    config: &Npmrc,
    name: &str,
    lockfile_only: bool,
    on_windows: bool,
) -> (at: Option<String>)
    ensures
        at.deep_view() == (if lockfile_only {
            None
        } else {
            Some(paths::joined(config.modules_dir@, name@, on_windows))
        }),
{
    if lockfile_only {
        None
    } else {
        Some(paths::join_paths(config.modules_dir.as_str(), name, on_windows))
    }
}

/// How a direct dependency of a project is come by, given what is asked for and
/// what was found of it among the packages of the workspace.
pub fn direct_dependency_step(
    config: &Npmrc,
    manifest: &Json,
    manifest_path: &str,
    lockfile_dir: &str,
    group: DependencyGroup,
    name: &str,
    version_range: &str,
    lockfile_only: bool,
    workspace_root_dir: Result<Option<String>, String>,
    on_windows: bool,
) -> (step: Result<DirectStep, String>)
    ensures
        ({
            let case = DirectCase {
                modules_dir: config.modules_dir@,
                manifest: manifest.deep_view(),
                manifest_path: manifest_path@,
                lockfile_dir: lockfile_dir@,
                group,
                name: name@,
                range: version_range@,
                inject_all: config.inject_workspace_packages,
                lockfile_only,
            };
            match step {
                Ok(step) => is_direct_step(
                    step,
                    case,
                    match workspace_root_dir {
                        Ok(root_dir) => root_dir.deep_view(),
                        Err(_) => None,
                    },
                    on_windows,
                ) && (workspace_root_dir is Err ==> workspace::names_directory(version_range@)),
                Err(message) => workspace_root_dir is Err && workspace_root_dir->Err_0 == message
                    && !workspace::names_directory(version_range@),
            }
        }),
{
    let ghost case = DirectCase {
        modules_dir: config.modules_dir@,
        manifest: manifest.deep_view(),
        manifest_path: manifest_path@,
        lockfile_dir: lockfile_dir@,
        group,
        name: name@,
        range: version_range@,
        inject_all: config.inject_workspace_packages,
        lockfile_only,
    };
    if let Some(dependency) = workspace::resolve_local_dependency(
        manifest_path,
        version_range,
        on_windows,
    ) {
        assert(workspace::is_local_dependency(
            dependency,
            manifest_path@,
            version_range@,
            on_windows,
        ));
        if dependency.should_symlink {
            let version = ResolvedDependencyVersion::Link(dependency.link.clone());
            let target = dependency.path.clone();
            assert(workspace::is_local_dependency(
                dependency,
                case.manifest_path,
                case.range,
                on_windows,
            ));
            assert(target@ == dependency.path@);
            assert(version.deep_view() == ResolvedVersionModel::Link(dependency.link@));
            assert(links_direct(case, version, target@, on_windows));
            return Ok(
                DirectStep::LinkDirectory {
                    version,
                    target,
                    at: link_at(config, name, lockfile_only, on_windows),
                },
            );
        }
        let reference = slashed_reference(lockfile_dir, dependency.path.as_str(), on_windows);
        assert(child_copies(
            dependency.path@,
            reference@,
            manifest_path@,
            lockfile_dir@,
            version_range@,
            on_windows,
        ));
        return Ok(DirectStep::CopyDirectory { path: dependency.path, reference });
    }
    let root_dir = match workspace_root_dir {
        Ok(root_dir) => root_dir,
        Err(message) => {
            return Err(message);
        },
    };
    let optional = group == DependencyGroup::Optional;
    match root_dir {
        Some(root_dir) => {
            if workspace::should_inject_workspace_dependency(manifest, name, version_range, config) {
                let reference = slashed_reference(lockfile_dir, root_dir.as_str(), on_windows);
                return Ok(DirectStep::CopyWorkspacePackage { path: root_dir, reference });
            }
            let dir = workspace::dir_of_manifest(manifest_path, on_windows);
            let link = workspace::link_to_workspace_package(
                dir.as_str(),
                root_dir.as_str(),
                on_windows,
            );
            Ok(
                DirectStep::LinkWorkspacePackage {
                    version: ResolvedDependencyVersion::Link(link),
                    target: root_dir,
                    at: link_at(config, name, lockfile_only, on_windows),
                },
            )
        },
        None => if lockfile_only {
            Ok(DirectStep::Resolve { optional })
        } else {
            Ok(DirectStep::Install { optional })
        },
    }
}

/// How many dependencies are resolved at a time.
pub fn dependency_concurrency(parallelism: Option<usize>) -> (n: usize)
    ensures
        n == (match parallelism {
            Some(p) => if p < 4 {
                4
            } else if p > 32 {
                32
            } else {
                p
            },
            None => 16,
        }),
{
    match parallelism {
        Some(p) => if p < 4 {
            4
        } else if p > 32 {
            32
        } else {
            p
        },
        None => 16,
    }
}

/// A name of a group that is written down, with what it was resolved to.
pub open spec fn written_spec(
    entries: Map<Seq<char>, Seq<char>>,
    resolved: Map<(Seq<char>, Seq<char>), ResolvedPackageModel>,
    exclude_links: bool,
    name: Seq<char>,
) -> Option<ResolvedSpecModel> {
    if entries.dom().contains(name) && resolved.dom().contains((name, entries[name]))
        && is_written_down(
        entries[name],
        resolved[(name, entries[name])].version,
        exclude_links,
    ) {
        Some(
            ResolvedSpecModel {
                specifier: entries[name],
                version: resolved[(name, entries[name])].version,
            },
        )
    } else {
        None
    }
}

/// The dependencies of a group that are written down.
pub open spec fn written_group(
    entries: Map<Seq<char>, Seq<char>>,
    resolved: Map<(Seq<char>, Seq<char>), ResolvedPackageModel>,
    exclude_links: bool,
) -> Map<Seq<char>, ResolvedSpecModel> {
    Map::new(
        |name: Seq<char>| written_spec(entries, resolved, exclude_links, name) is Some,
        |name: Seq<char>| written_spec(entries, resolved, exclude_links, name)->0,
    )
}

/// What a manifest asks for in a group, by name.
pub open spec fn group_entries(manifest: JsonModel, group: DependencyGroup) -> Map<
    Seq<char>,
    Seq<char>,
> {
    json::text_map(json::field(manifest, manifest_check::group_field(group)))
}

/// The specifiers of a group that is written down.
pub open spec fn specifiers_of(map: Map<Seq<char>, ResolvedSpecModel>) -> Map<Seq<char>, Seq<char>> {
    Map::new(|name: Seq<char>| map.dom().contains(name), |name: Seq<char>| map[name].specifier)
}

/// The specifiers of some groups; of two groups the later counts.
pub open spec fn written_specifiers(
    manifest: JsonModel,
    groups: Seq<DependencyGroup>,
    resolved: Map<(Seq<char>, Seq<char>), ResolvedPackageModel>,
    exclude_links: bool,
) -> Map<Seq<char>, Seq<char>>
    decreases groups.len(),
{
    if groups.len() == 0 {
        Map::empty()
    } else {
        written_specifiers(
            manifest,
            groups.drop_last(),
            resolved,
            exclude_links,
        ).union_prefer_right(
            specifiers_of(
                written_group(group_entries(manifest, groups.last()), resolved, exclude_links),
            ),
        )
    }
}

/// A group of a project, where it is asked for and not empty.
pub open spec fn group_if_asked(
    manifest: JsonModel,
    groups: Seq<DependencyGroup>,
    resolved: Map<(Seq<char>, Seq<char>), ResolvedPackageModel>,
    exclude_links: bool,
    group: DependencyGroup,
) -> Option<Map<Seq<char>, ResolvedSpecModel>> {
    if groups.contains(group) {
        unless_empty(written_group(group_entries(manifest, group), resolved, exclude_links))
    } else {
        None
    }
}

/// What a manifest says about its dependencies, unless it is nothing.
pub open spec fn dependencies_meta_of(manifest: JsonModel) -> Option<JsonModel> {
    match json::field(manifest, "dependenciesMeta"@) {
        Some(meta) => if meta == manifest_check::empty_object() {
            None
        } else {
            Some(meta)
        },
        None => None,
    }
}

/// What a manifest says about its dependencies, unless it is nothing.
pub fn project_dependencies_meta(manifest: &Json) -> (meta: Option<Json>)
    ensures
        meta.deep_view() == dependencies_meta_of(manifest.deep_view()),
{
    match manifest.get("dependenciesMeta") {
        Some(meta) => {
            if let Json::Object(fields) = meta {
                proof {
                    json::lemma_no_fields(fields@);
                }
                if fields.len() == 0 {
                    return None;
                }
            }
            Some(meta.duplicate())
        },
        None => None,
    }
}

/// The directory that a manifest publishes.
pub open spec fn publish_directory_of(manifest: JsonModel) -> Option<Seq<char>> {
    match json::field(manifest, "publishConfig"@) {
        Some(config) => json::as_text(json::field(config, "directory"@)),
        None => None,
    }
}

/// What a lockfile keeps of a project.
pub open spec fn project_of(
    manifest: JsonModel,
    groups: Seq<DependencyGroup>,
    resolved: Map<(Seq<char>, Seq<char>), ResolvedPackageModel>,
    exclude_links: bool,
) -> ProjectModel {
    ProjectModel {
        specifiers: unless_empty(written_specifiers(manifest, groups, resolved, exclude_links)),
        dependencies: group_if_asked(
            manifest,
            groups,
            resolved,
            exclude_links,
            DependencyGroup::Prod,
        ),
        optional_dependencies: group_if_asked(
            manifest,
            groups,
            resolved,
            exclude_links,
            DependencyGroup::Optional,
        ),
        dev_dependencies: group_if_asked(
            manifest,
            groups,
            resolved,
            exclude_links,
            DependencyGroup::Dev,
        ),
        dependencies_meta: dependencies_meta_of(manifest),
        publish_directory: publish_directory_of(manifest),
    }
}

fn write_group(
    manifest: &Json,
    group: DependencyGroup,
    resolved: &ResolvedDirectDependencies,
    exclude_links: bool,
) -> (written: ResolvedDependencyMap)
    ensures
        written.deep_view() == written_group(
            group_entries(manifest.deep_view(), group),
            resolved.deep_view(),
            exclude_links,
        ),
{
    let entries = json::json_string_map(manifest.get(pnpmfile::group_name(group)));
    let ghost asked = entries.deep_view();
    let ghost found = resolved.deep_view();
    let ghost whole = written_group(asked, found, exclude_links);
    let ghost pairs = entries.pairs();
    let mut written: ResolvedDependencyMap = Table::new();
    let n: usize = entries.len();
    let mut i: usize = 0;
    let ghost mut done: Set<Seq<char>> = Set::empty();
    assert(written.deep_view() =~= whole.restrict(done));
    while i < n
        invariant
            n == pairs.len(),
            pairs == entries.pairs(),
            table::keys(pairs).no_duplicates(),
            asked == entries.deep_view(),
            found == resolved.deep_view(),
            whole == written_group(asked, found, exclude_links),
            i <= n,
            forall|name: Seq<char>|
                done.contains(name) <==> table::keys(pairs.take(i as int)).contains(name),
            written.deep_view() == whole.restrict(done),
        decreases n - i,
    {
        let name = entries.key_at(i);
        let specifier = entries.value_at(i);
        proof {
            table::lemma_map_entry(pairs, i as int);
        }
        let key = (name.clone(), specifier.clone());
        if let Some(package) = resolved.get(&key) {
            if should_include_dependency_in_lockfile(
                specifier.as_str(),
                &package.version,
                exclude_links,
            ) {
                written.insert(
                    name.clone(),
                    ResolvedDependencySpec {
                        specifier: specifier.clone(),
                        version: package.version.duplicate(),
                    },
                );
            }
        }
        proof {
            let added = done.insert(name@);
            assert(key.deep_view() == (name@, specifier@));
            assert forall|other: Seq<char>|
                added.contains(other) <==> table::keys(pairs.take(i + 1)).contains(other) by {
                let before = table::keys(pairs.take(i as int));
                let after = table::keys(pairs.take(i + 1));
                assert(after =~= before.push(name@));
                crate::reach::lemma_push_contains(before, name@);
            }
            assert(written.deep_view() =~= whole.restrict(added));
            done = added;
        }
        i = i + 1;
    }
    proof {
        assert(pairs.take(i as int) =~= pairs);
        assert(written.deep_view() =~= whole);
    }
    written
}

fn specifiers_in(written: &ResolvedDependencyMap) -> (specifiers: TextMap<String>)
    ensures
        specifiers.deep_view() == specifiers_of(written.deep_view()),
{
    let ghost pairs = written.pairs();
    let mut specifiers: TextMap<String> = Table::new();
    let n: usize = written.len();
    let mut i: usize = 0;
    while i < n
        invariant
            n == pairs.len(),
            pairs == written.pairs(),
            table::keys(pairs).no_duplicates(),
            i <= n,
            specifiers.pairs() == Seq::new(
                i as nat,
                |j: int| (pairs[j].0, pairs[j].1.specifier),
            ),
        decreases n - i,
    {
        let ghost before = specifiers.pairs();
        specifiers.insert(written.key_at(i).clone(), written.value_at(i).specifier.clone());
        proof {
            table::lemma_put_next(pairs, before, i as int, pairs[i as int].1.specifier);
            assert(specifiers.pairs() =~= Seq::new(
                (i + 1) as nat,
                |j: int| (pairs[j].0, pairs[j].1.specifier),
            ));
        }
        i = i + 1;
    }
    proof {
        let done = specifiers.pairs();
        assert(table::keys(done) =~= table::keys(pairs));
        assert forall|name: Seq<char>| specifiers.deep_view().dom().contains(name) implies
            specifiers.deep_view()[name] == written.deep_view()[name].specifier by {
            let k = table::keys(pairs).index_of(name);
            assert(done[k] == (pairs[k].0, pairs[k].1.specifier));
        }
        assert(specifiers.deep_view() =~= specifiers_of(written.deep_view()));
    }
    specifiers
}

/// What a lockfile keeps of a project: of each group that is asked for what is
/// written down, and with it the specifiers.
pub fn build_project_snapshot(
    manifest: &Json,
    dependency_groups: &Vec<DependencyGroup>,
    resolved_direct_dependencies: &ResolvedDirectDependencies,
    exclude_links_from_lockfile: bool,
) -> (snapshot: ProjectSnapshot)
    ensures
        snapshot.deep_view() == project_of(
            manifest.deep_view(),
            dependency_groups@,
            resolved_direct_dependencies.deep_view(),
            exclude_links_from_lockfile,
        ),
{
    let ghost model = manifest.deep_view();
    let ghost groups = dependency_groups@;
    let ghost resolved = resolved_direct_dependencies.deep_view();
    let ghost exclude = exclude_links_from_lockfile;
    let mut specifiers: TextMap<String> = Table::new();
    let mut dependencies: Option<ResolvedDependencyMap> = None;
    let mut optional_dependencies: Option<ResolvedDependencyMap> = None;
    let mut dev_dependencies: Option<ResolvedDependencyMap> = None;
    let mut i: usize = 0;
    assert(groups.take(0) =~= Seq::empty());
    while i < dependency_groups.len()
        invariant
            i <= dependency_groups@.len(),
            groups == dependency_groups@,
            model == manifest.deep_view(),
            resolved == resolved_direct_dependencies.deep_view(),
            exclude == exclude_links_from_lockfile,
            specifiers.deep_view() == written_specifiers(
                model,
                groups.take(i as int),
                resolved,
                exclude,
            ),
            dependencies.deep_view() == group_if_asked(
                model,
                groups.take(i as int),
                resolved,
                exclude,
                DependencyGroup::Prod,
            ),
            optional_dependencies.deep_view() == group_if_asked(
                model,
                groups.take(i as int),
                resolved,
                exclude,
                DependencyGroup::Optional,
            ),
            dev_dependencies.deep_view() == group_if_asked(
                model,
                groups.take(i as int),
                resolved,
                exclude,
                DependencyGroup::Dev,
            ),
        decreases dependency_groups@.len() - i,
    {
        let group = dependency_groups[i];
        let written = write_group(
            manifest,
            group,
            resolved_direct_dependencies,
            exclude_links_from_lockfile,
        );
        specifiers.extend(&specifiers_in(&written));
        let kept = table_unless_empty(written);
        proof {
            let before = groups.take(i as int);
            let after = groups.take(i + 1);
            assert(after.drop_last() =~= before);
            assert(after =~= before.push(group));
            assert forall|other: DependencyGroup| #[trigger] after.contains(other) <==> (
            before.contains(other) || other == group) by {
                crate::reach::lemma_push_contains(before, group);
            }
        }
        match group {
            DependencyGroup::Prod => {
                dependencies = kept;
            },
            DependencyGroup::Optional => {
                optional_dependencies = kept;
            },
            DependencyGroup::Dev => {
                dev_dependencies = kept;
            },
            DependencyGroup::Peer => {},
        }
        i = i + 1;
    }
    assert(groups.take(i as int) =~= groups);
    let publish_directory = match manifest.get("publishConfig") {
        Some(config) => match config.get("directory") {
            Some(directory) => match directory.as_str() {
                Some(directory) => Some(text::copy(directory)),
                None => None,
            },
            None => None,
        },
        None => None,
    };
    ProjectSnapshot {
        specifiers: table_unless_empty(specifiers),
        dependencies,
        optional_dependencies,
        dev_dependencies,
        dependencies_meta: project_dependencies_meta(manifest),
        publish_directory,
    }
}

/// Each name stands in one group of a manifest alone.
pub open spec fn groups_are_apart(manifest: JsonModel) -> bool {
    forall|g: DependencyGroup, h: DependencyGroup, name: Seq<char>|
        !(g is Peer) && !(h is Peer) && g != h && #[trigger] group_entries(
            manifest,
            g,
        ).dom().contains(name) ==> !(#[trigger] group_entries(manifest, h).dom().contains(name))
}

/// Everything that a manifest asks for was resolved, and where links are left
/// out of the lockfile, the links are what is asked for as such.
pub open spec fn all_resolved(
    manifest: JsonModel,
    resolved: Map<(Seq<char>, Seq<char>), ResolvedPackageModel>,
    exclude_links: bool,
) -> bool {
    forall|g: DependencyGroup, name: Seq<char>|
        !(g is Peer) && #[trigger] group_entries(manifest, g).dom().contains(name) ==> {
            let specifier = group_entries(manifest, g)[name];
            &&& resolved.dom().contains((name, specifier))
            &&& is_written_down(specifier, resolved[(name, specifier)].version, exclude_links)
                == !(exclude_links && text::starts_with(specifier, "link:"@))
        }
}

/// The names of a group of an importer.
pub open spec fn names_of(project: ProjectModel, group: DependencyGroup) -> Set<Seq<char>> {
    match lockfile::group_map(project, group) {
        Some(map) => map.dom(),
        None => Set::empty(),
    }
}

/// Two importers differ in what their dependencies were resolved to alone.
pub open spec fn differ_in_versions(a: ProjectModel, b: ProjectModel) -> bool {
    &&& a.specifiers == b.specifiers
    &&& a.dependencies_meta == b.dependencies_meta
    &&& a.publish_directory == b.publish_directory
    &&& forall|group: DependencyGroup| #[trigger] names_of(a, group) == names_of(b, group)
}

/// Each version that an importer holds belongs to the range that is asked for.
pub open spec fn versions_fit(project: ProjectSnapshot, manifest: JsonModel) -> bool {
    forall|g: DependencyGroup, name: Seq<char>|
        !(g is Peer) && #[trigger] group_entries(manifest, g).dom().contains(name)
            && semver::range_parses(group_entries(manifest, g)[name])
            && manifest_check::bare_version(manifest_check::group_versions(project, g)[name]) is Some
            ==> semver::range_admits(
            group_entries(manifest, g)[name],
            manifest_check::bare_version(manifest_check::group_versions(project, g)[name])->0,
        )
}

proof fn lemma_specifier(
    manifest: JsonModel,
    groups: Seq<DependencyGroup>,
    resolved: Map<(Seq<char>, Seq<char>), ResolvedPackageModel>,
    exclude_links: bool,
    name: Seq<char>,
)
    ensures
        ({
            let all = written_specifiers(manifest, groups, resolved, exclude_links);
            &&& all.dom().contains(name) ==> exists|k: int|
                0 <= k < groups.len() && written_group(
                    group_entries(manifest, #[trigger] groups[k]),
                    resolved,
                    exclude_links,
                ).dom().contains(name) && all[name] == group_entries(manifest, groups[k])[name]
            &&& forall|k: int|
                0 <= k < groups.len() && written_group(
                    group_entries(manifest, #[trigger] groups[k]),
                    resolved,
                    exclude_links,
                ).dom().contains(name) ==> all.dom().contains(name)
        }),
    decreases groups.len(),
{
    if groups.len() > 0 {
        let before = groups.drop_last();
        lemma_specifier(manifest, before, resolved, exclude_links, name);
        let all = written_specifiers(manifest, groups, resolved, exclude_links);
        let last = written_group(group_entries(manifest, groups.last()), resolved, exclude_links);
        let n = groups.len() - 1;
        if all.dom().contains(name) {
            if last.dom().contains(name) {
                assert(groups[n] == groups.last());
            } else {
                let k = choose|k: int|
                    0 <= k < before.len() && written_group(
                        group_entries(manifest, #[trigger] before[k]),
                        resolved,
                        exclude_links,
                    ).dom().contains(name) && written_specifiers(
                        manifest,
                        before,
                        resolved,
                        exclude_links,
                    )[name] == group_entries(manifest, before[k])[name];
                assert(groups[k] == before[k]);
            }
        }
        assert forall|k: int|
            0 <= k < groups.len() && written_group(
                group_entries(manifest, #[trigger] groups[k]),
                resolved,
                exclude_links,
            ).dom().contains(name) implies all.dom().contains(name) by {
            if k < n {
                assert(groups[k] == before[k]);
            }
        }
    }
}

/// What is asked for, without the links where they are left out, is what is
/// written down.
proof fn lemma_written_is_asked(
    manifest: JsonModel,
    groups: Seq<DependencyGroup>,
    resolved: Map<(Seq<char>, Seq<char>), ResolvedPackageModel>,
    exclude_links: bool,
)
    requires
        groups.contains(DependencyGroup::Prod),
        groups.contains(DependencyGroup::Optional),
        groups.contains(DependencyGroup::Dev),
        !groups.contains(DependencyGroup::Peer),
        groups_are_apart(manifest),
        all_resolved(manifest, resolved, exclude_links),
    ensures
        written_specifiers(manifest, groups, resolved, exclude_links)
            == manifest_check::without_links(
            manifest_check::direct_of(manifest_check::manifest_of(manifest)),
            exclude_links,
        ),
{
    let all = written_specifiers(manifest, groups, resolved, exclude_links);
    let direct = manifest_check::direct_of(manifest_check::manifest_of(manifest));
    let asked = manifest_check::without_links(direct, exclude_links);
    let prod = group_entries(manifest, DependencyGroup::Prod);
    let optional = group_entries(manifest, DependencyGroup::Optional);
    let dev = group_entries(manifest, DependencyGroup::Dev);
    assert forall|name: Seq<char>| all.dom().contains(name) <==> asked.dom().contains(name) by {
        lemma_specifier(manifest, groups, resolved, exclude_links, name);
        if all.dom().contains(name) {
            let k = choose|k: int|
                0 <= k < groups.len() && written_group(
                    group_entries(manifest, #[trigger] groups[k]),
                    resolved,
                    exclude_links,
                ).dom().contains(name) && all[name] == group_entries(manifest, groups[k])[name];
            assert(groups.contains(groups[k]));
            assert(group_entries(manifest, groups[k]).dom().contains(name));
        }
        if asked.dom().contains(name) {
            let g = if optional.dom().contains(name) {
                DependencyGroup::Optional
            } else if prod.dom().contains(name) {
                DependencyGroup::Prod
            } else {
                DependencyGroup::Dev
            };
            assert(group_entries(manifest, g).dom().contains(name));
            let k = groups.index_of(g);
            assert(groups[k] == g);
            assert(written_group(group_entries(manifest, groups[k]), resolved, exclude_links)
                .dom().contains(name));
        }
    }
    assert forall|name: Seq<char>| #[trigger] all.dom().contains(name) implies all[name]
        == asked[name] by {
        lemma_specifier(manifest, groups, resolved, exclude_links, name);
        let k = choose|k: int|
            0 <= k < groups.len() && written_group(
                group_entries(manifest, #[trigger] groups[k]),
                resolved,
                exclude_links,
            ).dom().contains(name) && all[name] == group_entries(manifest, groups[k])[name];
        assert(groups.contains(groups[k]));
        assert(group_entries(manifest, groups[k]).dom().contains(name));
        assert(asked.dom().contains(name));
    }
    assert(all =~= asked);
}

/// What an installation writes down of a project fits the manifest that it was
/// written for, so that the next installation need not resolve anything: with
/// specifiers that have to agree, and every version in its range. All groups are
/// installed, and a name stands in one of them alone.
pub proof fn law_written_importer_fits_its_manifest(
    project: ProjectSnapshot,
    manifest: JsonModel,
    groups: Seq<DependencyGroup>,
    resolved: Map<(Seq<char>, Seq<char>), ResolvedPackageModel>,
    exclude_links: bool,
    auto_install_peers: bool,
)
    requires
        differ_in_versions(
            project.deep_view(),
            project_of(manifest, groups, resolved, exclude_links),
        ),
        groups.contains(DependencyGroup::Prod),
        groups.contains(DependencyGroup::Optional),
        groups.contains(DependencyGroup::Dev),
        !groups.contains(DependencyGroup::Peer),
        groups_are_apart(manifest),
        all_resolved(manifest, resolved, exclude_links),
        versions_fit(project, manifest),
    ensures
        manifest_check::is_verdict(
            project,
            manifest_check::manifest_of(manifest),
            manifest_check::wanted(
                project.deep_view(),
                manifest_check::manifest_of(manifest),
                auto_install_peers,
                exclude_links,
            ),
            true,
            None,
        ),
{
    let model = manifest_check::manifest_of(manifest);
    let direct = manifest_check::direct_of(model);
    let all = written_specifiers(manifest, groups, resolved, exclude_links);
    let wanted = manifest_check::wanted(
        project.deep_view(),
        model,
        auto_install_peers,
        exclude_links,
    );
    lemma_written_is_asked(manifest, groups, resolved, exclude_links);
    let kept = project.deep_view();
    assert(lockfile_check::or_empty(kept.specifiers) =~= all);
    assert(wanted.specifiers =~= all);
    let peers = manifest_check::known_names(model.peer_dependencies, kept);
    assert forall|name: Seq<char>| peers.dom().contains(name) implies direct.dom().contains(
        name,
    ) by {
        let whole = project_of(manifest, groups, resolved, exclude_links);
        assert(names_of(kept, DependencyGroup::Prod) == names_of(whole, DependencyGroup::Prod));
        assert(names_of(kept, DependencyGroup::Optional) == names_of(
            whole,
            DependencyGroup::Optional,
        ));
        assert(names_of(kept, DependencyGroup::Dev) == names_of(whole, DependencyGroup::Dev));
        if kept.specifiers is Some && kept.specifiers->0.dom().contains(name) {
            assert(all.dom().contains(name));
        }
    }
    assert(peers.union_prefer_right(direct) =~= direct);
    assert(manifest_check::without_names(peers, direct).union_prefer_right(model.dependencies)
        =~= model.dependencies);
    assert(wanted.existing == all);
    assert(manifest_check::importer_error(kept, model, wanted, true) is None);
    lemma_group_fits(
        project,
        manifest,
        groups,
        resolved,
        exclude_links,
        wanted,
        DependencyGroup::Prod,
    );
    lemma_group_fits(
        project,
        manifest,
        groups,
        resolved,
        exclude_links,
        wanted,
        DependencyGroup::Optional,
    );
    lemma_group_fits(
        project,
        manifest,
        groups,
        resolved,
        exclude_links,
        wanted,
        DependencyGroup::Dev,
    );
}

proof fn lemma_group_fits(
    project: ProjectSnapshot,
    manifest: JsonModel,
    groups: Seq<DependencyGroup>,
    resolved: Map<(Seq<char>, Seq<char>), ResolvedPackageModel>,
    exclude_links: bool,
    wanted: manifest_check::Wanted,
    group: DependencyGroup,
)
    requires
        differ_in_versions(
            project.deep_view(),
            project_of(manifest, groups, resolved, exclude_links),
        ),
        groups.contains(group),
        !(group is Peer),
        groups_are_apart(manifest),
        all_resolved(manifest, resolved, exclude_links),
        versions_fit(project, manifest),
        wanted.specifiers == manifest_check::without_links(
            manifest_check::direct_of(manifest_check::manifest_of(manifest)),
            exclude_links,
        ),
        wanted.dependencies == manifest_check::without_links(
            group_entries(manifest, DependencyGroup::Prod),
            exclude_links,
        ),
        wanted.optional_dependencies == manifest_check::without_links(
            group_entries(manifest, DependencyGroup::Optional),
            exclude_links,
        ),
        wanted.dev_dependencies == manifest_check::without_links(
            group_entries(manifest, DependencyGroup::Dev),
            exclude_links,
        ),
    ensures
        manifest_check::passes(project, wanted, group, true),
{
    let entries = group_entries(manifest, group);
    let wants = manifest_check::group_wants(wanted, group);
    let versions = manifest_check::group_versions(project, group);
    let written = written_group(entries, resolved, exclude_links);
    assert(wants =~= manifest_check::without_links(entries, exclude_links)) by {
        assert forall|name: Seq<char>| wants.dom().contains(name) <==>
            manifest_check::without_links(entries, exclude_links).dom().contains(name) by {
            if entries.dom().contains(name) {
                assert(group_entries(manifest, group).dom().contains(name));
            }
        }
    }
    assert(versions.dom() =~= written.dom()) by {
        let whole = project_of(manifest, groups, resolved, exclude_links);
        assert(names_of(project.deep_view(), group) == names_of(whole, group));
        assert(names_of(whole, group) =~= written.dom());
        if let Some(map) = lockfile::group_table(project, group) {
            let texts = Seq::new(
                map.pairs().len(),
                |i: int| (map.pairs()[i].0, lockfile::resolved_version_text(map.value(i).version)),
            );
            assert(table::keys(texts) =~= table::keys(map.pairs()));
            assert(map.deep_view().dom() == written.dom());
        }
    }
    assert(versions.dom() =~= wants.dom()) by {
        assert forall|name: Seq<char>| written.dom().contains(name) <==> wants.dom().contains(
            name,
        ) by {
            if entries.dom().contains(name) {
                assert(group_entries(manifest, group).dom().contains(name));
            }
        }
    }
    assert forall|name: Seq<char>| #[trigger] wants.dom().contains(
        name,
    ) implies manifest_check::dependency_error(
        wanted.specifiers,
        wants,
        versions,
        manifest_check::group_field(group),
        name,
        true,
    ) is None by {
        assert(group_entries(manifest, group).dom().contains(name));
        assert(versions.dom().contains(name));
        assert(wanted.specifiers.dom().contains(name));
        assert(wanted.specifiers[name] == entries[name]);
    }
}

/// The dependency at `i` is the last one among its like, needed or optional, that
/// goes by its name.
pub open spec fn is_last_of_its_name(children: Seq<ResolvedDependency>, i: int) -> bool {
    forall|j: int|
        i < j < children.len() && (#[trigger] children[j]).name@ == children[i].name@
            ==> children[j].optional != children[i].optional
}

proof fn lemma_needed_entry(children: Seq<ResolvedDependency>, n: int, i: int)
    requires
        0 <= i < n <= children.len(),
        !children[i].optional,
        forall|j: int|
            i < j < n && (#[trigger] children[j]).name@ == children[i].name@
                ==> children[j].optional,
    ensures
        needed_dependencies(children, n).dom().contains(children[i].name@),
        needed_dependencies(children, n)[children[i].name@] == snapshot_dependency_of(
            children[i].version.deep_view(),
        ),
    decreases n,
{
    if i < n - 1 {
        assert(children[n - 1] == children[n - 1]);
        lemma_needed_entry(children, n - 1, i);
    }
}

proof fn lemma_optional_entry(children: Seq<ResolvedDependency>, n: int, i: int)
    requires
        0 <= i < n <= children.len(),
        children[i].optional,
        forall|j: int|
            i < j < n && (#[trigger] children[j]).name@ == children[i].name@
                ==> !children[j].optional,
    ensures
        optional_dependencies_of(children, n).dom().contains(children[i].name@),
        optional_dependencies_of(children, n)[children[i].name@] == optional_reference_of(
            children[i].version,
        ),
    decreases n,
{
    if i < n - 1 {
        assert(children[n - 1] == children[n - 1]);
        lemma_optional_entry(children, n - 1, i);
    }
}

proof fn lemma_entry_is_a_child(children: Seq<ResolvedDependency>, n: int, name: Seq<char>)
    requires
        0 <= n <= children.len(),
    ensures
        needed_dependencies(children, n).dom().contains(name) <==> exists|i: int|
            0 <= i < n && (#[trigger] children[i]).name@ == name && !children[i].optional,
        optional_dependencies_of(children, n).dom().contains(name) <==> exists|i: int|
            0 <= i < n && (#[trigger] children[i]).name@ == name && children[i].optional,
    decreases n,
{
    if n > 0 {
        lemma_entry_is_a_child(children, n - 1, name);
        assert(children[n - 1] == children[n - 1]);
    }
}

/// What is written down of a package once its dependencies are resolved: they can be
/// read back. The names under which its entry has dependencies are those of its
/// resolved dependencies, the needed ones among the needed and the optional ones
/// among the optional, each with the version that it was resolved to.
pub proof fn law_resolved_dependencies_are_written_down(
    entry: PackageModel,
    config: Npmrc,
    package: PackageVersion,
    children: Seq<ResolvedDependency>,
    optional: bool,
    registry: Seq<char>,
    requires_build: bool,
    name: Seq<char>,
    i: int,
)
    requires
        entry == snapshot_of(
            config,
            package,
            needed_dependencies(children, children.len() as int),
            optional_dependencies_of(children, children.len() as int),
            optional,
            registry,
            requires_build,
        ),
    ensures
        entry.dependencies is Some && entry.dependencies->0.dom().contains(name) <==> exists|k: int|
            0 <= k < children.len() && (#[trigger] children[k]).name@ == name
                && !children[k].optional,
        entry.optional_dependencies is Some && entry.optional_dependencies->0.dom().contains(name)
            <==> exists|k: int|
            0 <= k < children.len() && (#[trigger] children[k]).name@ == name
                && children[k].optional,
        entry.dependencies is None <==> forall|k: int|
            0 <= k < children.len() ==> (#[trigger] children[k]).optional,
        entry.optional_dependencies is None <==> forall|k: int|
            0 <= k < children.len() ==> !(#[trigger] children[k]).optional,
        0 <= i < children.len() && is_last_of_its_name(children, i) && !children[i].optional ==> {
            let written = entry.dependencies->0[children[i].name@];
            match children[i].version.deep_view() {
                ResolvedVersionModel::PkgVerPeer(suffix) => written
                    == SnapshotDependencyModel::PkgVerPeer(suffix),
                ResolvedVersionModel::PkgNameVerPeer(specifier) => written
                    == SnapshotDependencyModel::PkgNameVerPeer(specifier),
                ResolvedVersionModel::Link(link) => written == SnapshotDependencyModel::Link(link),
            }
        },
        0 <= i < children.len() && is_last_of_its_name(children, i) && children[i].optional ==> {
            let written = entry.optional_dependencies->0[children[i].name@];
            match children[i].version.deep_view() {
                ResolvedVersionModel::PkgVerPeer(suffix) => written.dependency == Some(
                    SnapshotDependencyModel::PkgVerPeer(suffix),
                ) && written.text == semver::version_text(suffix.version) + suffix.peer,
                ResolvedVersionModel::PkgNameVerPeer(specifier) => written.dependency == Some(
                    SnapshotDependencyModel::PkgNameVerPeer(specifier),
                ) && written.text == specifier.name + seq!['@'] + (semver::version_text(
                    specifier.suffix.version,
                ) + specifier.suffix.peer),
                ResolvedVersionModel::Link(link) => written.dependency is None && written.text
                    == link,
            }
        },
{
    let n = children.len() as int;
    let needed = needed_dependencies(children, n);
    let unneeded = optional_dependencies_of(children, n);
    lemma_entry_is_a_child(children, n, name);
    if 0 <= i < n && is_last_of_its_name(children, i) {
        if children[i].optional {
            lemma_optional_entry(children, n, i);
        } else {
            lemma_needed_entry(children, n, i);
        }
    }
    if needed != Map::<Seq<char>, SnapshotDependencyModel>::empty() {
        if forall|key: Seq<char>| !needed.dom().contains(key) {
            assert(needed =~= Map::<Seq<char>, SnapshotDependencyModel>::empty());
        }
        let key = choose|key: Seq<char>| needed.dom().contains(key);
        lemma_entry_is_a_child(children, n, key);
    } else {
        assert forall|k: int| 0 <= k < n implies (#[trigger] children[k]).optional by {
            lemma_entry_is_a_child(children, n, children[k].name@);
        }
    }
    if unneeded != Map::<Seq<char>, OptionalReferenceModel>::empty() {
        if forall|key: Seq<char>| !unneeded.dom().contains(key) {
            assert(unneeded =~= Map::<Seq<char>, OptionalReferenceModel>::empty());
        }
        let key = choose|key: Seq<char>| unneeded.dom().contains(key);
        lemma_entry_is_a_child(children, n, key);
    } else {
        assert forall|k: int| 0 <= k < n implies !(#[trigger] children[k]).optional by {
            lemma_entry_is_a_child(children, n, children[k].name@);
        }
    }
}

/// What is written down of a package is what is known of it: every dependency that is
/// handed over, what it asks of the machine, that it is deprecated, that it has
/// commands or is to be built, and that it is optional.
pub proof fn law_entry_keeps_what_is_known(
    entry: PackageSnapshot,
    config: Npmrc,
    package: PackageVersion,
    dependencies: TextMap<PackageSnapshotDependency>,
    optional_dependencies: TextMap<OptionalReference>,
    optional: bool,
    registry: Seq<char>,
    requires_build: bool,
    name: Seq<char>,
)
    requires
        package.integrity is Some,
        entry.deep_view() == snapshot_of(
            config,
            package,
            dependencies.deep_view(),
            optional_dependencies.deep_view(),
            optional,
            registry,
            requires_build,
        ),
    ensures
        entry.dependencies is Some && entry.dependencies->0.deep_view().dom().contains(name)
            <==> dependencies.deep_view().dom().contains(name),
        dependencies.deep_view().dom().contains(name) ==> entry.dependencies->0.deep_view()[name]
            == dependencies.deep_view()[name],
        entry.optional_dependencies is Some
            && entry.optional_dependencies->0.deep_view().dom().contains(name)
            <==> optional_dependencies.deep_view().dom().contains(name),
        optional_dependencies.deep_view().dom().contains(name)
            ==> entry.optional_dependencies->0.deep_view()[name]
            == optional_dependencies.deep_view()[name],
        entry.engines.deep_view() == package.engines.deep_view(),
        entry.cpu.deep_view() == package.cpu.deep_view(),
        entry.os.deep_view() == package.os.deep_view(),
        entry.libc.deep_view() == package.libc.deep_view(),
        entry.deprecated.deep_view() == package.deprecated.deep_view(),
        entry.has_bin == Some(true) <==> package.has_bin,
        entry.has_bin is None <==> !package.has_bin,
        entry.requires_build == Some(true) <==> requires_build,
        entry.requires_build is None <==> !requires_build,
        entry.optional == Some(true) <==> optional,
        entry.optional is None <==> !optional,
        entry.resolution.deep_view() matches ResolutionModel::Registry { integrity } ==> integrity
            == package.integrity->0@ && !config.lockfile_include_tarball_url,
        entry.resolution.deep_view() matches ResolutionModel::Tarball { tarball, integrity }
            ==> tarball == package.tarball@ && integrity == Some(package.integrity->0@),
        entry.resolution.deep_view() is Registry || entry.resolution.deep_view() is Tarball,
        config.lockfile_include_tarball_url ==> entry.resolution.deep_view() is Tarball,
{
    let needed = dependencies.deep_view();
    let unneeded = optional_dependencies.deep_view();
    assert(needed.dom().contains(name) ==> needed != Map::<
        Seq<char>,
        SnapshotDependencyModel,
    >::empty());
    assert(unneeded.dom().contains(name) ==> unneeded != Map::<
        Seq<char>,
        OptionalReferenceModel,
    >::empty());
}

/// What is written down of a package is what a later installation reads: its
/// dependencies are those that were resolved, under the same names. An optional one
/// that is a link is not among them.
pub proof fn law_written_dependencies_are_read(
    entry: PackageModel,
    config: Npmrc,
    package: PackageVersion,
    children: Seq<ResolvedDependency>,
    optional: bool,
    registry: Seq<char>,
    requires_build: bool,
    name: Seq<char>,
)
    requires
        entry == snapshot_of(
            config,
            package,
            needed_dependencies(children, children.len() as int),
            optional_dependencies_of(children, children.len() as int),
            optional,
            registry,
            requires_build,
        ),
    ensures
        snapshots::all_dependencies(entry).dom().contains(name) ==> exists|k: int|
            0 <= k < children.len() && (#[trigger] children[k]).name@ == name,
        forall|k: int|
            0 <= k < children.len() && (#[trigger] children[k]).name@ == name && (
            !children[k].optional || is_last_of_its_name(children, k) && !(
            children[k].version is Link)) ==> snapshots::all_dependencies(entry).dom().contains(
                name,
            ),
{
    let n = children.len() as int;
    lemma_entry_is_a_child(children, n, name);
    law_resolved_dependencies_are_written_down(
        entry,
        config,
        package,
        children,
        optional,
        registry,
        requires_build,
        name,
        0,
    );
    assert forall|k: int|
        0 <= k < n && (#[trigger] children[k]).name@ == name && (!children[k].optional
            || is_last_of_its_name(children, k) && !(
        children[k].version is Link)) implies snapshots::all_dependencies(entry).dom().contains(
        name,
    ) by {
        if children[k].optional {
            lemma_optional_entry(children, n, k);
        }
    }
}

/// What is written down of a group: exactly what the manifest asks for there and was
/// resolved, with its specifier and the version that it was resolved to, if the group is
/// installed. A link is left out where links are, unless the workspace is asked for.
pub open spec fn group_is_written(
    written: Option<Map<Seq<char>, ResolvedSpecModel>>,
    field: Seq<char>,
    installed: bool,
    manifest: JsonModel,
    resolved: Map<(Seq<char>, Seq<char>), ResolvedPackageModel>,
    exclude_links: bool,
    name: Seq<char>,
    spec: ResolvedSpecModel,
) -> bool {
    written is Some && written->0.dom().contains(name) && written->0[name] == spec <==> {
        &&& installed
        &&& manifest_check::manifest_asks(manifest, field, name, spec.specifier)
        &&& resolved.dom().contains((name, spec.specifier))
        &&& resolved[(name, spec.specifier)].version == spec.version
        &&& !(exclude_links && spec.version is Link && text::starts_with(
            spec.version->Link_0,
            "link:"@,
        ) && !text::starts_with(spec.specifier, "workspace:"@))
    }
}

/// What is written down of a project is what its manifest asks for, group by group, in
/// the versions that were resolved.
pub proof fn law_direct_dependencies_are_written_down(
    project: ProjectModel,
    manifest: JsonModel,
    groups: Seq<DependencyGroup>,
    resolved: Map<(Seq<char>, Seq<char>), ResolvedPackageModel>,
    exclude_links: bool,
    name: Seq<char>,
    spec: ResolvedSpecModel,
)
    requires
        project == project_of(manifest, groups, resolved, exclude_links),
    ensures
        group_is_written(
            project.dependencies,
            "dependencies"@,
            groups.contains(DependencyGroup::Prod),
            manifest,
            resolved,
            exclude_links,
            name,
            spec,
        ),
        group_is_written(
            project.optional_dependencies,
            "optionalDependencies"@,
            groups.contains(DependencyGroup::Optional),
            manifest,
            resolved,
            exclude_links,
            name,
            spec,
        ),
        group_is_written(
            project.dev_dependencies,
            "devDependencies"@,
            groups.contains(DependencyGroup::Dev),
            manifest,
            resolved,
            exclude_links,
            name,
            spec,
        ),
{
    lemma_group_written(manifest, groups, resolved, exclude_links, DependencyGroup::Prod, name);
    lemma_group_written(
        manifest,
        groups,
        resolved,
        exclude_links,
        DependencyGroup::Optional,
        name,
    );
    lemma_group_written(manifest, groups, resolved, exclude_links, DependencyGroup::Dev, name);
}

proof fn lemma_group_written(
    manifest: JsonModel,
    groups: Seq<DependencyGroup>,
    resolved: Map<(Seq<char>, Seq<char>), ResolvedPackageModel>,
    exclude_links: bool,
    group: DependencyGroup,
    name: Seq<char>,
)
    ensures
        ({
            let kept = group_if_asked(manifest, groups, resolved, exclude_links, group);
            let all = written_group(group_entries(manifest, group), resolved, exclude_links);
            &&& kept is Some && kept->0.dom().contains(name) <==> groups.contains(group)
                && all.dom().contains(name)
            &&& kept is Some ==> kept->0 == all
        }),
{
    let all = written_group(group_entries(manifest, group), resolved, exclude_links);
    assert(all.dom().contains(name) ==> all != Map::<Seq<char>, ResolvedSpecModel>::empty());
}

/// A direct dependency that is asked for in several groups by one specifier is resolved
/// once, and each that is asked for is.
pub proof fn law_direct_dependencies_are_resolved_once(all: Seq<Wish>, wish: Wish, i: int, j: int)
    ensures
        all.contains(wish) ==> asked_before(distinct(all), wish),
        distinct(all).contains(wish) ==> all.contains(wish),
        0 <= i < j < distinct(all).len() ==> !(distinct(all)[i].1 == distinct(all)[j].1
            && distinct(all)[i].2 == distinct(all)[j].2),
    decreases all.len(),
{
    if all.len() > 0 {
        let rest = all.drop_last();
        let last = all.last();
        let kept = distinct(rest);
        law_direct_dependencies_are_resolved_once(rest, wish, i, j);
        assert(all =~= rest.push(last));
        crate::reach::lemma_push_contains(rest, last);
        assert(all.contains(wish) <==> rest.contains(wish) || wish == last);
        if asked_before(rest, last) {
            let k = choose|k: int|
                0 <= k < rest.len() && (#[trigger] rest[k]).1 == last.1 && rest[k].2 == last.2;
            law_direct_dependencies_are_resolved_once(rest, rest[k], i, j);
            assert(rest.contains(rest[k]));
            let m = choose|m: int|
                0 <= m < kept.len() && (#[trigger] kept[m]).1 == rest[k].1 && kept[m].2
                    == rest[k].2;
            assert(kept[m].1 == last.1 && kept[m].2 == last.2);
        } else {
            let now = kept.push(last);
            assert(distinct(all) == now);
            crate::reach::lemma_push_contains(kept, last);
            assert(now.contains(wish) <==> kept.contains(wish) || wish == last);
            assert(now[kept.len() as int] == last);
            if asked_before(kept, wish) {
                let m = choose|m: int|
                    0 <= m < kept.len() && (#[trigger] kept[m]).1 == wish.1 && kept[m].2 == wish.2;
                assert(now[m] == kept[m]);
            }
            if 0 <= i < j < now.len() && j == kept.len() {
                assert(kept.contains(kept[i]));
                law_direct_dependencies_are_resolved_once(rest, kept[i], i, j);
                assert(rest.contains(kept[i]));
                let k = rest.index_of(kept[i]);
                assert(rest[k] == kept[i]);
            }
        }
    }
}

/// A package that is taken up needs its regular dependencies, and its optional ones as
/// such, and its peers where they are installed by themselves.
pub proof fn law_needs_of_a_package(
    all: Seq<Need>,
    package: PackageVersion,
    auto_install_peers: bool,
    name: Seq<char>,
    range: Seq<char>,
)
    requires
        all == package_needs(package, auto_install_peers),
    ensures
        package.regular_dependencies.pairs().contains((name, range)) ==> all.contains(
            (false, name, range),
        ),
        package.optional_dependencies.pairs().contains((name, range)) <==> all.contains(
            (true, name, range),
        ),
        auto_install_peers && package.peer_dependencies is Some
            && package.peer_dependencies->0.pairs().contains((name, range)) ==> all.contains(
            (false, name, range),
        ),
        all.contains((false, name, range)) ==> package.regular_dependencies.pairs().contains(
            (name, range),
        ) || auto_install_peers && package.peer_dependencies is Some
            && package.peer_dependencies->0.pairs().contains((name, range)),
{
    let regular = package.regular_dependencies.pairs();
    let optional = package.optional_dependencies.pairs();
    let peers = if auto_install_peers && package.peer_dependencies is Some {
        package.peer_dependencies->0.pairs()
    } else {
        Seq::empty()
    };
    let a = needs(regular, false);
    let b = needs(optional, true);
    let c = needs(peers, false);
    assert(c =~= (if auto_install_peers && package.peer_dependencies is Some {
        needs(package.peer_dependencies->0.pairs(), false)
    } else {
        Seq::empty()
    }));
    assert(all =~= a + b + c);
    let pair = (name, range);
    if regular.contains(pair) {
        assert(all[regular.index_of(pair)] == (false, name, range));
    }
    if optional.contains(pair) {
        assert(all[regular.len() + optional.index_of(pair)] == (true, name, range));
    }
    if peers.contains(pair) {
        assert(all[regular.len() + optional.len() + peers.index_of(pair)] == (false, name, range));
    }
    assert forall|flag: bool| #[trigger] all.contains((flag, name, range)) implies (flag
        ==> optional.contains(pair)) && (!flag ==> regular.contains(pair) || peers.contains(
        pair,
    )) by {
        let k = all.index_of((flag, name, range));
        if k < regular.len() {
            assert(a[k] == all[k]);
            assert(regular[k] == pair);
        } else if k < regular.len() + optional.len() {
            assert(b[k - regular.len()] == all[k]);
            assert(optional[k - regular.len()] == pair);
        } else {
            assert(c[k - regular.len() - optional.len()] == all[k]);
            assert(peers[k - regular.len() - optional.len()] == pair);
        }
    }
}

/// How a direct dependency is come by: a directory is linked to or copied as it is asked
/// for; a package of the workspace is copied where it is injected and else linked to; any
/// other one is resolved, and installed unless only a lockfile is wanted. It is optional
/// where it is asked for as such.
pub proof fn law_direct_dependency_is_come_by(
    step: DirectStep,
    case: DirectCase,
    root_dir: Option<Seq<char>>,
    on_windows: bool,
)
    requires
        is_direct_step(step, case, root_dir, on_windows),
    ensures
        text::starts_with(case.range, "link:"@) <==> step is LinkDirectory,
        text::starts_with(case.range, "file:"@) <==> step is CopyDirectory,
        !text::starts_with(case.range, "link:"@) && !text::starts_with(case.range, "file:"@) ==> {
            let injected = workspace::injects(
                case.manifest,
                case.name,
                case.range,
                case.inject_all,
            );
            &&& root_dir is Some && injected <==> step is CopyWorkspacePackage
            &&& root_dir is Some && !injected <==> step is LinkWorkspacePackage
            &&& root_dir is None && case.lockfile_only <==> step is Resolve
            &&& root_dir is None && !case.lockfile_only <==> step is Install
        },
        step matches DirectStep::Resolve { optional } ==> optional == (case.group
            == DependencyGroup::Optional),
        step matches DirectStep::Install { optional } ==> optional == (case.group
            == DependencyGroup::Optional),
        step matches DirectStep::LinkWorkspacePackage { version, target, at } ==> Some(target@)
            == root_dir && at.deep_view() == (if case.lockfile_only {
            None
        } else {
            Some(paths::joined(case.modules_dir, case.name, on_windows))
        }),
        step matches DirectStep::CopyWorkspacePackage { path, reference } ==> Some(path@)
            == root_dir,
{
    reveal_strlit("link:");
    reveal_strlit("file:");
    assert("link:"@[0] == 'l' && "file:"@[0] == 'f');
    if text::starts_with(case.range, "link:"@) {
        assert(case.range.subrange(0, 5)[0] == case.range[0]);
    }
    if text::starts_with(case.range, "file:"@) {
        assert(case.range.subrange(0, 5)[0] == case.range[0]);
    }
}

/// How a peer of a local package is come by: from the workspace, from a directory, or by
/// resolving it; it stays away only where nothing has it and peers are not installed by
/// themselves.
pub proof fn law_peer_is_come_by(
    step: PeerStep,
    is_available: bool,
    auto_install_peers: bool,
    manifest_path: Seq<char>,
    lockfile_dir: Seq<char>,
    requested: Seq<char>,
    root_dir: Option<Seq<char>>,
    on_windows: bool,
)
    requires
        is_peer_step(
            step,
            is_available,
            auto_install_peers,
            manifest_path,
            lockfile_dir,
            requested,
            root_dir,
            on_windows,
        ),
    ensures
        step is Absent ==> !is_available && !auto_install_peers && root_dir is None,
        step matches PeerStep::Resolve { range } ==> range@ == requested && root_dir is None,
        root_dir is Some && is_available ==> step is Linked,
        root_dir is Some && !text::starts_with(requested, "link:"@) && !text::starts_with(
            requested,
            "file:"@,
        ) ==> step is Linked,
        root_dir is None && !text::starts_with(requested, "link:"@) && !text::starts_with(
            requested,
            "file:"@,
        ) && (is_available || auto_install_peers) ==> step is Resolve,
{
}

proof fn lemma_local_dependencies(
    peers: Seq<ResolvedPeer>,
    children: Seq<ResolvedChild>,
    n: int,
    name: Seq<char>,
)
    requires
        0 <= n <= children.len(),
    ensures
        local_dependencies(peers, children, n).dom().contains(name) <==> (exists|i: int|
            0 <= i < n && (#[trigger] children[i]).name@ == name) || (exists|i: int|
            0 <= i < peers.len() && (#[trigger] peers[i]).name@ == name),
    decreases n,
{
    if n > 0 {
        lemma_local_dependencies(peers, children, n - 1, name);
        assert(children[n - 1] == children[n - 1]);
    } else {
        lemma_peers_as_dependencies(peers, peers.len() as int, name);
    }
}

proof fn lemma_peers_as_dependencies(peers: Seq<ResolvedPeer>, n: int, name: Seq<char>)
    requires
        0 <= n <= peers.len(),
    ensures
        peers_as_dependencies(peers, n).dom().contains(name) <==> exists|i: int|
            0 <= i < n && (#[trigger] peers[i]).name@ == name,
    decreases n,
{
    if n > 0 {
        lemma_peers_as_dependencies(peers, n - 1, name);
        assert(peers[n - 1] == peers[n - 1]);
    }
}

/// What is written down of a local package has all its peers that were come by and all
/// its dependencies, each dependency in the version that it was resolved to, and where
/// the package lies.
pub proof fn law_local_package_is_written_down(
    entry: PackageModel,
    reference: Seq<char>,
    asked_peers: Option<Map<Seq<char>, Seq<char>>>,
    peers: Seq<ResolvedPeer>,
    children: Seq<ResolvedChild>,
    name: Seq<char>,
)
    requires
        entry == local_snapshot(
            reference,
            asked_peers,
            local_dependencies(peers, children, children.len() as int),
        ),
    ensures
        entry.dependencies is Some && entry.dependencies->0.dom().contains(name) <==> (exists|
            i: int,
        |
            0 <= i < children.len() && (#[trigger] children[i]).name@ == name) || (exists|i: int|
            0 <= i < peers.len() && (#[trigger] peers[i]).name@ == name),
        children.len() > 0 ==> {
            let last = children.last();
            let written = entry.dependencies->0[last.name@];
            !last.is_link ==> written == snapshot_dependency_of(last.package.version.deep_view())
        },
        entry.peer_dependencies == asked_peers,
        text::starts_with(reference, "file:"@) ==> entry.resolution == (ResolutionModel::Directory {
            directory: reference.skip(5),
        }),
{
    let all = local_dependencies(peers, children, children.len() as int);
    lemma_local_dependencies(peers, children, children.len() as int, name);
    assert(all.dom().contains(name) ==> all != Map::<Seq<char>, SnapshotDependencyModel>::empty());
    if children.len() > 0 {
        assert(all.dom().contains(children.last().name@));
        assert(all != Map::<Seq<char>, SnapshotDependencyModel>::empty());
    }
    reveal_strlit("file:");
    if text::starts_with(reference, "file:"@) {
        assert(text::tail(reference, 5) =~= reference.skip(5));
    }
}

/// A local package that is referred to with one peer has that peer behind its reference, in
/// brackets and with its version; without peers the reference is as it is.
pub proof fn law_peers_are_written_behind_the_reference(
    reference: Seq<char>,
    name: Seq<char>,
    peer: Seq<char>,
)
    ensures
        with_peers(reference, Map::empty()) == reference,
        with_peers(reference, Map::<Seq<char>, Seq<char>>::empty().insert(name, peer)) == reference
            + ("("@ + peer + ")"@),
{
    let none = Map::<Seq<char>, Seq<char>>::empty();
    sorted::lemma_listed(none.dom());
    let no_names = sorted::in_order(none.dom());
    assert(no_names.len() == 0) by {
        if no_names.len() > 0 {
            assert(no_names.to_set().contains(no_names[0]));
        }
    }
    assert(with_peers(reference, none) =~= reference);
    let one = none.insert(name, peer);
    sorted::lemma_listed(one.dom());
    let names = sorted::in_order(one.dom());
    sorted::lemma_sorted_distinct(names);
    assert(names.to_set().contains(name));
    let k = names.index_of(name);
    assert forall|j: int| 0 <= j < names.len() implies names[j] == name by {
        assert(names.to_set().contains(names[j]));
    }
    assert(names.len() == 1) by {
        if names.len() > 1 {
            assert(names[0] == names[1]);
        }
    }
    assert(names =~= seq![name]);
    assert(names.drop_last() =~= Seq::<Seq<char>>::empty());
    assert(bracketed(names.drop_last(), one) =~= Seq::<char>::empty());
    assert(bracketed(names, one) =~= "("@ + peer + ")"@);
}

/// A package that turns up again as a needed one is not optional any more, and stays as it
/// was otherwise; one that turns up again as optional stays as it was.
pub proof fn law_needed_again_is_not_optional(
    pairs: Seq<(PathId, PackageModel)>,
    path: PathId,
    optional: bool,
)
    requires
        table::keys(pairs).no_duplicates(),
        table::map_of(pairs).dom().contains(path),
    ensures
        ({
            let after = table::map_of(package_snapshots::seen_again(pairs, path, optional));
            let before = table::map_of(pairs);
            &&& after.dom() == before.dom()
            &&& !optional ==> after[path].optional != Some(true)
            &&& optional ==> after == before
            &&& after[path].dependencies == before[path].dependencies
            &&& after[path].optional_dependencies == before[path].optional_dependencies
            &&& after[path].resolution == before[path].resolution
        }),
{
    if !optional {
        table::lemma_put(
            pairs,
            path,
            package_snapshots::required(table::map_of(pairs)[path]),
        );
        assert(table::map_of(package_snapshots::seen_again(pairs, path, optional)).dom()
            =~= table::map_of(pairs).dom());
    }
}

/// What is written down of where a package comes from is what a later installation
/// fetches: the tarball and the checksum that the registry has told. The registry is
/// written with at most one `/` at its end.
pub proof fn law_written_package_is_fetched_again(
    source: (String, String),
    path: DependencyPath,
    entry: PackageSnapshot,
    config: Npmrc,
    package: PackageVersion,
    dependencies: Map<Seq<char>, SnapshotDependencyModel>,
    optional_dependencies: Map<Seq<char>, OptionalReferenceModel>,
    optional: bool,
    registry: Seq<char>,
    requires_build: bool,
)
    requires
        package.integrity is Some,
        path.deep_view() == key_of(package),
        entry.deep_view() == snapshot_of(
            config,
            package,
            dependencies,
            optional_dependencies,
            optional,
            registry,
            requires_build,
        ),
        (source.0@, source.1@) == package_import::snapshot_tarball(path, entry, registry),
        registry.len() < 2 || registry.last() != '/' || registry[registry.len() - 2] != '/',
    ensures
        source.0@ == package.tarball@,
        source.1@ == package.integrity->0@,
{
    assert(path.deep_view().specifier == lockfile::SpecifierModel::Registry(
        specifier_of(package),
    ));
    assert(package_import::has_tarball(path, entry));
    package_import::law_tarball_of_a_package(source, path, entry, registry);
}

proof fn lemma_own_peers(peers: Seq<ResolvedPeer>, n: int, i: int)
    requires
        0 <= i < n <= peers.len(),
    ensures
        own_peers(peers, n).dom().contains(peers[i].name@),
    decreases n,
{
    if i < n - 1 {
        lemma_own_peers(peers, n - 1, i);
    }
}

/// A local package is referred to with every peer that was come by for it, and with the
/// peers of the directories that it links to.
pub proof fn law_local_peers_are_collected(
    all: Map<Seq<char>, Seq<char>>,
    peers: Seq<ResolvedPeer>,
    children: Seq<ResolvedChild>,
    n: int,
    i: int,
    name: Seq<char>,
)
    requires
        all == all_peers(peers, children, n),
        0 <= n <= children.len(),
    ensures
        0 <= i < peers.len() ==> all.dom().contains(peers[i].name@),
        0 <= i < n && children[i].is_link && children[i].package.peer_suffixes.map().dom().contains(
            name,
        ) ==> all.dom().contains(name),
    decreases n,
{
    if 0 <= i < peers.len() && n == 0 {
        lemma_own_peers(peers, peers.len() as int, i);
    }
    if n > 0 {
        law_local_peers_are_collected(
            all_peers(peers, children, n - 1),
            peers,
            children,
            n - 1,
            i,
            name,
        );
    }
}

} // verus!
