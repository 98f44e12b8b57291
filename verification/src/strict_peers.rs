//! Whether every package has the peers that it asks for.
use crate::paths;
use crate::semver;
use crate::semver::Version;
use crate::table::TextMap;
use crate::text;
use vstd::prelude::*;
use vstd::string::*;

verus! {

/// What lies in a directory: its name, whether it is a directory, and for a
/// scope the names of what lies in it, and which of it are directories.
#[derive(Debug)]
pub struct ListedEntry {
    pub name: String,
    pub is_dir: bool,
    pub scoped: Vec<(String, bool)>,
}

/// A directory of `node_modules` that holds no package.
pub open spec fn is_special(name: Seq<char>) -> bool {
    name == ".pnpm"@ || name == ".pacquet"@ || name == ".bin"@
}

/// The directories of a scope.
pub open spec fn scope_dirs(
    dir: Seq<char>,
    scoped: Seq<(String, bool)>,
    n: int,
    on_windows: bool,
) -> Seq<Seq<char>>
    decreases n,
{
    if n <= 0 {
        Seq::empty()
    } else if scoped[n - 1].1 {
        scope_dirs(
            dir,
            scoped,
            n - 1,
            on_windows,
        ).push(paths::joined(dir, scoped[n - 1].0@, on_windows))
    } else {
        scope_dirs(dir, scoped, n - 1, on_windows)
    }
}

/// The packages that an entry of `node_modules` stands for.
pub open spec fn entry_dirs(
    node_modules_dir: Seq<char>,
    entry: ListedEntry,
    on_windows: bool,
) -> Seq<Seq<char>> {
    let path = paths::joined(node_modules_dir, entry.name@, on_windows);
    if !entry.is_dir || is_special(entry.name@) {
        Seq::empty()
    } else if entry.name@.len() > 0 && entry.name@[0] == '@' {
        scope_dirs(path, entry.scoped@, entry.scoped@.len() as int, on_windows)
    } else {
        seq![path]
    }
}

/// The packages in `node_modules`.
pub open spec fn package_dirs(
    node_modules_dir: Seq<char>,
    entries: Seq<ListedEntry>,
    on_windows: bool,
) -> Seq<
    Seq<char>,
>
    decreases entries.len(),
{
    if entries.len() == 0 {
        Seq::empty()
    } else {
        package_dirs(node_modules_dir, entries.drop_last(), on_windows) + entry_dirs(
            node_modules_dir,
            entries.last(),
            on_windows,
        )
    }
}

/// The packages in `node_modules`, given what lies in it.
pub fn collect_package_dirs_in_node_modules(
    node_modules_dir: &str,
    entries: &Vec<ListedEntry>,
    on_windows: bool,
) -> (dirs:
    Vec<String>)
    ensures
        dirs.deep_view() == package_dirs(node_modules_dir@, entries@, on_windows),
{
    let mut dirs: Vec<String> = Vec::new();
    let mut i: usize = 0;
    assert(dirs.deep_view() =~= package_dirs(node_modules_dir@, entries@.take(0), on_windows));
    while i < entries.len()
        invariant
            i <= entries@.len(),
            dirs.deep_view() == package_dirs(
                node_modules_dir@,
                entries@.take(i as int),
                on_windows,
            ),
        decreases entries@.len() - i,
    {
        let entry = &entries[i];
        let ghost before = dirs.deep_view();
        assert(entries@.take(i + 1).drop_last() =~= entries@.take(i as int));
        let name = entry.name.as_str();
        let special = text::same_text(name, ".pnpm") || text::same_text(name, ".pacquet")
            || text::same_text(name, ".bin");
        if entry.is_dir && !special {
            let path = paths::join_paths(node_modules_dir, name, on_windows);
            if text::has_first_char(name, '@') {
                let ghost dir = path@;
                let mut k: usize = 0;
                assert(dirs.deep_view() =~= before + scope_dirs(dir, entry.scoped@, 0, on_windows));
                while k < entry.scoped.len()
                    invariant
                        k <= entry.scoped@.len(),
                        path@ == dir,
                        dirs.deep_view() == before + scope_dirs(
                            dir,
                            entry.scoped@,
                            k as int,
                            on_windows,
                        ),
                    decreases entry.scoped@.len() - k,
                {
                    if entry.scoped[k].1 {
                        let ghost held = dirs.deep_view();
                        let scoped = paths::join_paths(
                            path.as_str(),
                            entry.scoped[k].0.as_str(),
                            on_windows,
                        );
                        let ghost place = scoped@;
                        dirs.push(scoped);
                        assert(dirs.deep_view() =~= held.push(place));
                        assert(dirs.deep_view() =~= before + scope_dirs(
                            dir,
                            entry.scoped@,
                            k + 1,
                            on_windows,
                        ));
                    }
                    k = k + 1;
                }
            } else {
                let ghost place = path@;
                dirs.push(path);
                assert(dirs.deep_view() =~= before + seq![place]);
            }
        }
        assert(dirs.deep_view() =~= before + entry_dirs(node_modules_dir@, *entry, on_windows));
        i = i + 1;
    }
    assert(entries@.take(i as int) =~= entries@);
    dirs
}

/// The packages of every directory of the virtual store.
pub open spec fn store_package_dirs(
    virtual_store_dir: Seq<char>,
    store: Seq<(String, Vec<ListedEntry>)>,
    on_windows: bool,
) -> Seq<Seq<char>>
    decreases store.len(),
{
    if store.len() == 0 {
        Seq::empty()
    } else if store.last().0@ == "node_modules"@ {
        store_package_dirs(virtual_store_dir, store.drop_last(), on_windows)
    } else {
        store_package_dirs(virtual_store_dir, store.drop_last(), on_windows) + package_dirs(
            paths::joined(
                paths::joined(virtual_store_dir, store.last().0@, on_windows),
                "node_modules"@,
                on_windows,
            ),
            store.last().1@,
            on_windows,
        )
    }
}

/// The packages whose peers are looked at: those in `node_modules`, and those
/// in the virtual store, given what lies in them.
pub fn collect_candidate_package_dirs(
    modules_dir: &str,
    modules: &Vec<ListedEntry>,
    virtual_store_dir: &str,
    store: &Vec<(String, Vec<ListedEntry>)>,
    on_windows: bool,
) -> (dirs: Vec<String>)
    ensures
        dirs.deep_view() == package_dirs(modules_dir@, modules@, on_windows) + store_package_dirs(
            virtual_store_dir@,
            store@,
            on_windows,
        ),
{
    let mut dirs = collect_package_dirs_in_node_modules(modules_dir, modules, on_windows);
    let ghost first = dirs.deep_view();
    let mut i: usize = 0;
    assert(dirs.deep_view() =~= first + store_package_dirs(
        virtual_store_dir@,
        store@.take(0),
        on_windows,
    ));
    while i < store.len()
        invariant
            i <= store@.len(),
            dirs.deep_view() == first + store_package_dirs(
                virtual_store_dir@,
                store@.take(i as int),
                on_windows,
            ),
        decreases store@.len() - i,
    {
        let ghost before = dirs.deep_view();
        assert(store@.take(i + 1).drop_last() =~= store@.take(i as int));
        let name = store[i].0.as_str();
        if !text::same_text(name, "node_modules") {
            let entry = paths::join_paths(virtual_store_dir, name, on_windows);
            let inner = paths::join_paths(entry.as_str(), "node_modules", on_windows);
            let mut more = collect_package_dirs_in_node_modules(
                inner.as_str(),
                &store[i].1,
                on_windows,
            );
            let ghost added = more.deep_view();
            dirs.append(&mut more);
            assert(dirs.deep_view() =~= before + added);
        }
        assert(dirs.deep_view() =~= first + store_package_dirs(
            virtual_store_dir@,
            store@.take(i + 1),
            on_windows,
        ));
        i = i + 1;
    }
    assert(store@.take(i as int) =~= store@);
    dirs
}

/// The `node_modules` that a package lies in.
pub fn containing_node_modules_dir(package_dir: &str, on_windows: bool) -> (dir: Option<String>)
    ensures
        dir.deep_view() == paths::first_named(
            paths::ancestors(package_dir@, on_windows),
            "node_modules"@,
            0,
            on_windows,
        ),
{
    paths::nearest_named(package_dir, "node_modules", 0, on_windows)
}

/// The manifest of a package in `node_modules`.
pub open spec fn manifest_in(
    node_modules_dir: Seq<char>,
    name: Seq<char>,
    on_windows: bool,
) -> Seq<char> {
    paths::joined(paths::joined(node_modules_dir, name, on_windows), "package.json"@, on_windows)
}

/// The manifests that tell which version of a peer is there, the nearest first.
pub open spec fn peer_manifests(
    peer_name: Seq<char>,
    node_modules_dir: Seq<char>,
    workspace_root: Seq<char>,
    from_root: bool,
    on_windows: bool,
) -> Seq<Seq<char>> {
    let root_dir = paths::joined(workspace_root, "node_modules"@, on_windows);
    if from_root && !paths::same_path(root_dir, node_modules_dir, on_windows) {
        seq![manifest_in(
            node_modules_dir,
            peer_name,
            on_windows,
        ), manifest_in(root_dir, peer_name, on_windows)]
    } else {
        seq![manifest_in(node_modules_dir, peer_name, on_windows)]
    }
}

fn manifest_path(node_modules_dir: &str, name: &str, on_windows: bool) -> (path: String)
    ensures
        path@ == manifest_in(node_modules_dir@, name@, on_windows),
{
    paths::join_paths(
        paths::join_paths(node_modules_dir, name, on_windows).as_str(),
        "package.json",
        on_windows,
    )
}

/// The manifests that tell which version of a peer is there: beside the package
/// and, where the settings say so, at the root of the workspace.
pub fn peer_manifest_candidates(
    peer_name: &str,
    package_node_modules_dir: &str,
    workspace_root: &str,
    resolve_from_workspace_root: bool,
    on_windows: bool,
) -> (manifests: Vec<String>)
    ensures
        manifests.deep_view() == peer_manifests(
            peer_name@,
            package_node_modules_dir@,
            workspace_root@,
            resolve_from_workspace_root,
            on_windows,
        ),
{
    let mut manifests: Vec<String> = Vec::new();
    manifests.push(manifest_path(package_node_modules_dir, peer_name, on_windows));
    if resolve_from_workspace_root {
        let root_dir = paths::join_paths(workspace_root, "node_modules", on_windows);
        if !paths::is_same_path(root_dir.as_str(), package_node_modules_dir, on_windows) {
            manifests.push(manifest_path(root_dir.as_str(), peer_name, on_windows));
        }
    }
    assert(manifests.deep_view() =~= peer_manifests(
        peer_name@,
        package_node_modules_dir@,
        workspace_root@,
        resolve_from_workspace_root,
        on_windows,
    ));
    manifests
}

/// A version is one that was asked for. What cannot be read does not count.
pub open spec fn version_fits(version: Seq<char>, range: Seq<char>) -> bool {
    match semver::parsed_version(version) {
        Some(version) => !semver::range_parses(range) || semver::range_admits(range, version),
        None => true,
    }
}

/// A version can be held against a range: the range can be read without harm,
/// unless the version cannot be read.
pub open spec fn can_be_held_against(version: Seq<char>, range: Seq<char>) -> bool {
    semver::parsed_version(version) is Some ==> !semver::range_is_unreadable(range)
}

/// Whether a version is one that was asked for. A range that cannot be read
/// without harm is left out.
pub fn peer_version_satisfies(version: &str, range: &str) -> (yes: bool)
    requires
        can_be_held_against(version@, range@),
    ensures
        yes == version_fits(version@, range@),
{
    match Version::parse(version) {
        Some(version) => match semver::satisfies(&version, range) {
            Some(admitted) => admitted,
            None => true,
        },
        None => true,
    }
}

/// Whether a version is one that was asked for; nothing where the range cannot be
/// held against it.
pub fn check_peer_version(version: &str, range: &str) -> (checked: Option<bool>)
    ensures
        checked is Some <==> can_be_held_against(version@, range@),
        checked matches Some(yes) ==> yes == version_fits(version@, range@),
{
    if Version::parse(version).is_some() && !semver::range_is_readable(range) {
        return None;
    }
    Some(peer_version_satisfies(version, range))
}

/// What matters of a package's manifest for its peers.
#[derive(Debug)]
pub struct StrictPeerPackageManifest {
    pub name: Option<String>,
    pub version: Option<String>,
    pub peer_dependencies: Option<TextMap<String>>,
    pub peer_dependencies_meta: Option<TextMap<Option<bool>>>,
}

/// A package can do without a peer.
pub open spec fn is_optional(meta: Option<Map<Seq<char>, Option<bool>>>, peer: Seq<char>) -> bool {
    meta is Some && meta->0.dom().contains(peer) && meta->0[peer] == Some(true)
}

/// A peer that a package asks for: the package, the peer, and what is asked for.
pub type PeerWish = (Seq<char>, Seq<char>, Seq<char>);

/// How a package is called.
pub open spec fn called(package_dir: Seq<char>, name: Option<Seq<char>>) -> Seq<char> {
    match name {
        Some(name) => name,
        None => package_dir,
    }
}

/// The peers that a package cannot do without.
pub open spec fn needed_peers(
    name: Seq<char>,
    peers: Seq<(Seq<char>, Seq<char>)>,
    meta: Option<Map<Seq<char>, Option<bool>>>,
) -> Seq<PeerWish>
    decreases peers.len(),
{
    if peers.len() == 0 {
        Seq::empty()
    } else if is_optional(meta, peers.last().0) {
        needed_peers(name, peers.drop_last(), meta)
    } else {
        needed_peers(name, peers.drop_last(), meta).push(
            (name, peers.last().0, peers.last().1),
        )
    }
}

/// A peer that a package asks for as a mathematical value.
pub open spec fn wishes_of(list: Seq<(String, String, String)>) -> Seq<PeerWish> {
    list.map_values(|wish: (String, String, String)| (wish.0@, wish.1@, wish.2@))
}

/// The peers that a package cannot do without. A package that lies in no
/// `node_modules` is passed over.
pub fn required_peers(
    package_dir: &str,
    manifest: &StrictPeerPackageManifest,
    on_windows: bool,
) -> (wishes: Vec<
    (String, String, String),
>)
    ensures
        wishes_of(wishes@) == (if manifest.peer_dependencies is Some && paths::first_named(
            paths::ancestors(package_dir@, on_windows),
            "node_modules"@,
            0,
            on_windows,
        ) is Some {
            needed_peers(
                called(package_dir@, manifest.name.deep_view()),
                manifest.peer_dependencies->0.pairs(),
                manifest.peer_dependencies_meta.deep_view(),
            )
        } else {
            Seq::empty()
        }),
{
    let mut wishes: Vec<(String, String, String)> = Vec::new();
    assert(wishes_of(wishes@) =~= Seq::<PeerWish>::empty());
    let peers = match &manifest.peer_dependencies {
        Some(peers) => peers,
        None => {
            return wishes;
        },
    };
    if containing_node_modules_dir(package_dir, on_windows).is_none() {
        return wishes;
    }
    let name = match &manifest.name {
        Some(name) => name.clone(),
        None => text::copy(package_dir),
    };
    let ghost pairs = peers.pairs();
    let ghost meta = manifest.peer_dependencies_meta.deep_view();
    let n: usize = peers.len();
    let mut i: usize = 0;
    assert(pairs.take(0).len() == 0);
    while i < n
        invariant
            i <= n,
            n == pairs.len(),
            pairs == peers.pairs(),
            meta == manifest.peer_dependencies_meta.deep_view(),
            wishes_of(wishes@) == needed_peers(name@, pairs.take(i as int), meta),
        decreases n - i,
    {
        let ghost before = wishes@;
        let peer = peers.key_at(i);
        assert(pairs.take(i + 1).drop_last() =~= pairs.take(i as int));
        let optional = match &manifest.peer_dependencies_meta {
            Some(meta) => match meta.get(peer) {
                Some(Some(optional)) => *optional,
                _ => false,
            },
            None => false,
        };
        if !optional {
            wishes.push((name.clone(), peer.clone(), peers.value_at(i).clone()));
            assert(wishes_of(wishes@) =~= wishes_of(before).push(
                (name@, pairs[i as int].0, pairs[i as int].1),
            ));
        }
        i = i + 1;
    }
    assert(pairs.take(i as int) =~= pairs);
    wishes
}

/// The first version that manifests tell.
pub open spec fn first_version(manifests: Seq<Option<StrictPeerPackageManifest>>, from: int) -> Option<
    Seq<char>,
>
    decreases manifests.len() - from,
{
    if from >= manifests.len() {
        None
    } else {
        match manifests[from] {
            Some(manifest) => match manifest.version {
                Some(version) => Some(version@),
                None => first_version(manifests, from + 1),
            },
            None => first_version(manifests, from + 1),
        }
    }
}

/// The version of a peer, given what was read of the manifests that tell it.
pub fn resolve_peer_version(manifests: &Vec<Option<StrictPeerPackageManifest>>) -> (version: Option<
    String,
>)
    ensures
        version.deep_view() == first_version(manifests@, 0),
{
    let mut i: usize = 0;
    while i < manifests.len()
        invariant
            i <= manifests@.len(),
            first_version(manifests@, 0) == first_version(manifests@, i as int),
        decreases manifests@.len() - i,
    {
        if let Some(manifest) = &manifests[i] {
            if let Some(version) = &manifest.version {
                return Some(version.clone());
            }
        }
        i = i + 1;
    }
    None
}

/// A peer that a package cannot do without, and the version that is there.
#[derive(Debug)]
pub struct PeerDemand {
    pub package_name: String,
    pub peer_name: String,
    pub range: String,
    pub found: Option<String>,
}

/// What is wrong with a peer.
pub open spec fn issue(demand: PeerDemand) -> Option<Seq<char>> {
    let head = demand.package_name@ + " requires peer "@ + demand.peer_name@ + "@"@ + demand.range@;
    match demand.found {
        None => Some(head + ", but it is not installed"@),
        Some(version) => if version_fits(version@, demand.range@) {
            None
        } else {
            Some(head + ", but found "@ + version@)
        },
    }
}

/// What is wrong with peers.
pub open spec fn issues(demands: Seq<PeerDemand>) -> Seq<Seq<char>>
    decreases demands.len(),
{
    if demands.len() == 0 {
        Seq::empty()
    } else {
        match issue(demands.last()) {
            Some(message) => issues(demands.drop_last()).push(message),
            None => issues(demands.drop_last()),
        }
    }
}

/// What is asked for of a peer can be held against what was found, if anything
/// was.
pub open spec fn demand_is_readable(demand: PeerDemand) -> bool {
    demand.found is Some ==> can_be_held_against(demand.found->0@, demand.range@)
}

/// What is asked for of peers can be held against what was found.
pub open spec fn ranges_are_readable(demands: Seq<PeerDemand>) -> bool {
    forall|i: int| 0 <= i < demands.len() ==> demand_is_readable(#[trigger] demands[i])
}

/// What is told about peers that are missing or do not fit: the first ten of
/// them.
pub open spec fn strict_peer_message(all: Seq<Seq<char>>) -> Seq<char> {
    "Cannot proceed because strict-peer-dependencies is enabled:\n"@ + text::join(
        all.take(
            if all.len() < 10 {
                all.len() as int
            } else {
                10
            },
        ).map_values(|message: Seq<char>| "  - "@ + message),
        "\n"@,
    )
}

fn find_issue(demand: &PeerDemand) -> (message: Option<String>)
    requires
        demand_is_readable(*demand),
    ensures
        message.deep_view() == issue(*demand),
{
    let head = demand.package_name.clone().concat(" requires peer ").concat(
        demand.peer_name.as_str(),
    ).concat("@").concat(demand.range.as_str());
    match &demand.found {
        None => Some(head.concat(", but it is not installed")),
        Some(version) => if peer_version_satisfies(version.as_str(), demand.range.as_str()) {
            None
        } else {
            Some(head.concat(", but found ").concat(version.as_str()))
        },
    }
}

/// Whether what is asked for of peers can be held against what was found.
pub fn peer_demands_are_readable(demands: &Vec<PeerDemand>) -> (yes: bool)
    ensures
        yes == ranges_are_readable(demands@),
{
    let mut i: usize = 0;
    while i < demands.len()
        invariant
            i <= demands@.len(),
            forall|j: int| 0 <= j < i ==> demand_is_readable(#[trigger] demands@[j]),
        decreases demands@.len() - i,
    {
        if let Some(version) = &demands[i].found {
            if check_peer_version(version.as_str(), demands[i].range.as_str()).is_none() {
                assert(!demand_is_readable(demands@[i as int]));
                return false;
            }
        }
        i = i + 1;
    }
    true
}

/// Whether every package has the peers that it asks for, or what is wrong;
/// nothing where a range cannot be held against what was found.
pub fn check_strict_peer_dependencies(demands: &Vec<PeerDemand>) -> (checked: Option<
    Result<(), String>,
>)
    ensures
        checked is Some <==> ranges_are_readable(demands@),
        match checked {
            None => true,
            Some(Ok(_)) => issues(demands@).len() == 0,
            Some(Err(message)) => issues(demands@).len() > 0 && message@ == strict_peer_message(
                issues(demands@),
            ),
        },
{
    if peer_demands_are_readable(demands) {
        Some(validate_strict_peer_dependencies(demands))
    } else {
        None
    }
}

/// Whether every package has the peers that it asks for, or what is wrong.
pub fn validate_strict_peer_dependencies(demands: &Vec<PeerDemand>) -> (result: Result<(), String>)
    requires
        ranges_are_readable(demands@),
    ensures
        match result {
            Ok(_) => issues(demands@).len() == 0,
            Err(message) => issues(demands@).len() > 0 && message@ == strict_peer_message(
                issues(demands@),
            ),
        },
{
    let mut found: Vec<String> = Vec::new();
    let mut i: usize = 0;
    assert(found.deep_view() =~= issues(demands@.take(0)));
    while i < demands.len()
        invariant
            i <= demands@.len(),
            ranges_are_readable(demands@),
            found.deep_view() == issues(demands@.take(i as int)),
        decreases demands@.len() - i,
    {
        let ghost before = found.deep_view();
        assert(demands@.take(i + 1).drop_last() =~= demands@.take(i as int));
        if let Some(message) = find_issue(&demands[i]) {
            let ghost said = message@;
            found.push(message);
            assert(found.deep_view() =~= before.push(said));
        }
        i = i + 1;
    }
    assert(demands@.take(i as int) =~= demands@);
    let ghost all = issues(demands@);
    if found.len() == 0 {
        return Ok(());
    }
    let n: usize = if found.len() < 10 {
        found.len()
    } else {
        10
    };
    let ghost shown = all.take(n as int).map_values(|message: Seq<char>| "  - "@ + message);
    let mut lines: Vec<String> = Vec::new();
    let mut k: usize = 0;
    while k < n
        invariant
            k <= n,
            n <= found@.len(),
            all == found.deep_view(),
            shown == all.take(n as int).map_values(|message: Seq<char>| "  - "@ + message),
            lines.deep_view() == shown.take(k as int),
        decreases n - k,
    {
        let ghost before = lines.deep_view();
        proof {
            assert(all[k as int] == found@[k as int]@);
            assert(shown[k as int] == "  - "@ + all[k as int]);
            assert(shown.take(k + 1) =~= shown.take(k as int).push(shown[k as int]));
        }
        lines.push(text::copy("  - ").concat(found[k].as_str()));
        assert(lines.deep_view() =~= before.push(shown[k as int]));
        k = k + 1;
    }
    assert(shown.take(k as int) =~= shown);
    Err(
        text::copy("Cannot proceed because strict-peer-dependencies is enabled:\n").concat(
            text::join_texts(&lines, "\n").as_str(),
        ),
    )
}

proof fn lemma_issues(demands: Seq<PeerDemand>)
    ensures
        issues(demands).len() == 0 <==> forall|i: int|
            0 <= i < demands.len() ==> issue(#[trigger] demands[i]) is None,
        forall|i: int|
            0 <= i < demands.len() && issue(#[trigger] demands[i]) is Some ==> issues(
                demands,
            ).contains(issue(demands[i])->0),
        issues(demands).len() <= demands.len(),
    decreases demands.len(),
{
    if demands.len() > 0 {
        let rest = demands.drop_last();
        lemma_issues(rest);
        let n = demands.len() - 1;
        assert(demands[n] == demands.last());
        assert forall|i: int| 0 <= i < n implies #[trigger] demands[i] == rest[i] by {}
        assert forall|i: int| 0 <= i < rest.len() implies #[trigger] rest[i] == demands[i] by {}
        if issue(demands.last()) is Some {
            let message = issue(demands.last())->0;
            let all = issues(demands);
            assert(all == issues(rest).push(message));
            assert(all[all.len() - 1] == message);
            assert forall|i: int|
                0 <= i < demands.len() && issue(#[trigger] demands[i]) is Some implies all.contains(
                issue(demands[i])->0,
            ) by {
                if i < n {
                    assert(rest[i] == demands[i]);
                    let k = issues(rest).index_of(issue(demands[i])->0);
                    assert(all[k] == issue(demands[i])->0);
                }
            }
        }
    }
}

/// Peers pass only where every peer that is asked for was found and, if its version and
/// the range can be read, the range admits it; and wherever that holds they pass.
pub proof fn law_peers_pass_where_all_fit(
    checked: Option<Result<(), String>>,
    demands: Seq<PeerDemand>,
)
    requires
        match checked {
            None => true,
            Some(Ok(_)) => issues(demands).len() == 0,
            Some(Err(message)) => issues(demands).len() > 0 && message@ == strict_peer_message(
                issues(demands),
            ),
        },
    ensures
        checked matches Some(result) ==> (result is Ok <==> forall|i: int|
            0 <= i < demands.len() ==> {
                &&& (#[trigger] demands[i]).found is Some
                &&& semver::parsed_version(demands[i].found->0@) is Some && semver::range_parses(
                    demands[i].range@,
                ) ==> semver::range_admits(
                    demands[i].range@,
                    semver::parsed_version(demands[i].found->0@)->0,
                )
            }),
{
    lemma_issues(demands);
    if checked is Some && checked->0 is Ok {
        assert forall|i: int| 0 <= i < demands.len() implies ({
            &&& (#[trigger] demands[i]).found is Some
            &&& semver::parsed_version(demands[i].found->0@) is Some && semver::range_parses(
                demands[i].range@,
            ) ==> semver::range_admits(
                demands[i].range@,
                semver::parsed_version(demands[i].found->0@)->0,
            )
        }) by {
            assert(issue(demands[i]) is None);
        }
    }
    if checked is Some && checked->0 is Err {
        if forall|i: int|
            0 <= i < demands.len() ==> {
                &&& (#[trigger] demands[i]).found is Some
                &&& semver::parsed_version(demands[i].found->0@) is Some && semver::range_parses(
                    demands[i].range@,
                ) ==> semver::range_admits(
                    demands[i].range@,
                    semver::parsed_version(demands[i].found->0@)->0,
                )
            } {
            assert forall|i: int| 0 <= i < demands.len() implies issue(
                #[trigger] demands[i],
            ) is None by {}
        }
    }
}

/// What is told of one peer that is missing or does not fit names the package, the peer,
/// the range and what was found.
pub proof fn law_issue_names_the_peer(demand: PeerDemand, message: String)
    requires
        message@ == strict_peer_message(issues(seq![demand])),
        issue(demand) is Some,
    ensures
        message@ == "Cannot proceed because strict-peer-dependencies is enabled:\n"@ + ("  - "@ + (
        demand.package_name@ + " requires peer "@ + demand.peer_name@ + "@"@ + demand.range@ + (
        if demand.found is None {
            ", but it is not installed"@
        } else {
            ", but found "@ + demand.found->0@
        }))),
{
    let all = issues(seq![demand]);
    assert(seq![demand].drop_last() =~= Seq::<PeerDemand>::empty());
    assert(seq![demand].last() == demand);
    let said = issue(demand)->0;
    assert(issues(Seq::<PeerDemand>::empty()) =~= Seq::<Seq<char>>::empty());
    assert(all =~= seq![said]);
    let lines = all.take(1).map_values(|line: Seq<char>| "  - "@ + line);
    assert(lines =~= seq!["  - "@ + said]);
    if demand.found is Some {
        assert(said =~= demand.package_name@ + " requires peer "@ + demand.peer_name@ + "@"@
            + demand.range@ + (", but found "@ + demand.found->0@));
    }
}

/// The peers that a package needs are those that it asks for and does not call optional,
/// each with its range.
pub proof fn law_needed_peers_are_asked_for(
    wishes: Seq<PeerWish>,
    name: Seq<char>,
    peers: Seq<(Seq<char>, Seq<char>)>,
    meta: Option<Map<Seq<char>, Option<bool>>>,
    peer: Seq<char>,
    range: Seq<char>,
)
    requires
        wishes == needed_peers(name, peers, meta),
    ensures
        wishes.contains((name, peer, range)) <==> peers.contains((peer, range)) && !(meta is Some
            && meta->0.dom().contains(peer) && meta->0[peer] == Some(true)),
    decreases peers.len(),
{
    if peers.len() > 0 {
        let rest = peers.drop_last();
        law_needed_peers_are_asked_for(
            needed_peers(name, rest, meta),
            name,
            rest,
            meta,
            peer,
            range,
        );
        assert(peers =~= rest.push(peers.last()));
        crate::reach::lemma_push_contains(rest, peers.last());
        assert(peers.contains((peer, range)) <==> rest.contains((peer, range)) || peers.last() == (
            peer,
            range,
        ));
        if !is_optional(meta, peers.last().0) {
            let last = (name, peers.last().0, peers.last().1);
            crate::reach::lemma_push_contains(needed_peers(name, rest, meta), last);
            assert(wishes.contains((name, peer, range)) <==> needed_peers(name, rest, meta).contains(
                (name, peer, range),
            ) || (name, peer, range) == last);
        }
    }
}

/// The version of a peer is that of the first manifest in which one is found.
pub proof fn law_peer_version_is_the_first(
    version: Option<Seq<char>>,
    manifests: Seq<Option<StrictPeerPackageManifest>>,
    i: int,
)
    requires
        version == first_version(manifests, 0),
        0 <= i < manifests.len(),
        manifests[i] is Some,
        manifests[i]->0.version is Some,
        forall|k: int|
            0 <= k < i ==> (#[trigger] manifests[k]) is None || manifests[k]->0.version is None,
    ensures
        version == Some(manifests[i]->0.version->0@),
{
    lemma_first_version(manifests, 0, i);
}

proof fn lemma_first_version(
    manifests: Seq<Option<StrictPeerPackageManifest>>,
    from: int,
    i: int,
)
    requires
        0 <= from <= i < manifests.len(),
        manifests[i] is Some,
        manifests[i]->0.version is Some,
        forall|k: int|
            from <= k < i ==> (#[trigger] manifests[k]) is None || manifests[k]->0.version is None,
    ensures
        first_version(manifests, from) == Some(manifests[i]->0.version->0@),
    decreases i - from,
{
    if from < i {
        assert(manifests[from] is None || manifests[from]->0.version is None);
        lemma_first_version(manifests, from + 1, i);
    }
}

/// Every package that lies in a `node_modules` is looked at: each directory by its name,
/// but for the virtual store and the commands, and those of a scope each by its own.
pub proof fn law_packages_are_looked_at(
    dirs: Seq<Seq<char>>,
    node_modules_dir: Seq<char>,
    entries: Seq<ListedEntry>,
    on_windows: bool,
    i: int,
)
    requires
        dirs == package_dirs(node_modules_dir, entries, on_windows),
        0 <= i < entries.len(),
        entries[i].is_dir,
        entries[i].name@.len() > 0,
        entries[i].name@[0] != '@',
        entries[i].name@ != ".pnpm"@,
        entries[i].name@ != ".pacquet"@,
        entries[i].name@ != ".bin"@,
    ensures
        dirs.contains(paths::joined(node_modules_dir, entries[i].name@, on_windows)),
    decreases entries.len(),
{
    let rest = entries.drop_last();
    let before = package_dirs(node_modules_dir, rest, on_windows);
    let own = entry_dirs(node_modules_dir, entries.last(), on_windows);
    let place = paths::joined(node_modules_dir, entries[i].name@, on_windows);
    if i < rest.len() {
        assert(rest[i] == entries[i]);
        law_packages_are_looked_at(before, node_modules_dir, rest, on_windows, i);
        assert((before + own)[before.index_of(place)] == place);
    } else {
        assert(own[0] == place);
        assert((before + own)[before.len() as int] == place);
    }
}

/// A peer is looked for beside the package, and in the root of the workspace as well where
/// the settings say so.
pub proof fn law_peers_are_looked_for(
    manifests: Seq<Seq<char>>,
    peer_name: Seq<char>,
    node_modules_dir: Seq<char>,
    workspace_root: Seq<char>,
    from_root: bool,
    on_windows: bool,
)
    requires
        manifests == peer_manifests(
            peer_name,
            node_modules_dir,
            workspace_root,
            from_root,
            on_windows,
        ),
    ensures
        manifests.len() > 0,
        manifests[0] == paths::joined(
            paths::joined(node_modules_dir, peer_name, on_windows),
            "package.json"@,
            on_windows,
        ),
        !from_root ==> manifests.len() == 1,
        from_root && !paths::same_path(
            paths::joined(workspace_root, "node_modules"@, on_windows),
            node_modules_dir,
            on_windows,
        ) ==> manifests.len() == 2 && manifests[1] == paths::joined(
            paths::joined(
                paths::joined(workspace_root, "node_modules"@, on_windows),
                peer_name,
                on_windows,
            ),
            "package.json"@,
            on_windows,
        ),
{
}

} // verus!
