//! What is installed where no lockfile is kept.
use crate::config::Npmrc;
use crate::install_with_lockfile;
use crate::install_with_lockfile::Need;
use crate::lockfile::DependencyGroup;
use crate::package_snapshots::ResolvedPackages;
use crate::paths;
use crate::registry::PackageVersion;
use crate::table::TextMap;
use crate::text;
use crate::value;
use crate::workspace;
use vstd::prelude::*;
use vstd::string::*;

verus! {

/// How a direct dependency is come by: a directory is linked to or imported,
/// and anything else is installed. A directory is linked to only where there
/// are symbolic links.
#[derive(Debug)]
#[allow(inconsistent_fields)]
pub enum PlainStep {
    LinkDirectory { target: String, at: String },
    Nothing,
    ImportDirectory { source: String, at: String },
    Install { range: String, optional: bool },
}

/// Where a direct dependency is made available.
pub open spec fn place_of(config: Npmrc, name: Seq<char>, on_windows: bool) -> Seq<char> {
    paths::joined(config.modules_dir@, name, on_windows)
}

/// How a direct dependency is come by.
pub open spec fn is_plain_step(
    step: PlainStep,
    config: Npmrc,
    manifest_path: Seq<char>,
    overrides: Map<Seq<char>, Seq<char>>,
    group: DependencyGroup,
    name: Seq<char>,
    range: Seq<char>,
    on_windows: bool,
) -> bool {
    let dir = workspace::manifest_dir(manifest_path, on_windows);
    match text::stripped_prefix(range, "link:"@) {
        Some(target) => match step {
            PlainStep::LinkDirectory { target: to, at } => config.symlink && to@ == paths::joined(
                dir,
                target,
                on_windows,
            ) && at@ == place_of(config, name, on_windows),
            PlainStep::Nothing => !config.symlink,
            _ => false,
        },
        None => match text::stripped_prefix(range, "file:"@) {
            Some(target) => step matches PlainStep::ImportDirectory { source, at } && source@
                == paths::joined(
                    dir,
                    target,
                    on_windows,
                ) && at@ == place_of(config, name, on_windows),
            None => step matches PlainStep::Install { range: wanted, optional } && wanted@
                == workspace::peer_overridden(
                config.resolve_peers_from_workspace_root,
                overrides,
                None,
                name,
                range,
            ) && optional == (group == DependencyGroup::Optional),
        },
    }
}

/// How a direct dependency is come by.
pub fn plain_dependency_step(
    config: &Npmrc,
    manifest_path: &str,
    workspace_root_peer_overrides: &TextMap<String>,
    group: DependencyGroup,
    name: &str,
    version_range: &str,
    on_windows: bool,
) -> (step: PlainStep)
    ensures
        is_plain_step(
            step,
            *config,
            manifest_path@,
            workspace_root_peer_overrides.deep_view(),
            group,
            name@,
            version_range@,
            on_windows,
        ),
{
    let dir = workspace::dir_of_manifest(manifest_path, on_windows);
    if let Some(target) = text::strip_prefix(version_range, "link:") {
        if !config.symlink {
            return PlainStep::Nothing;
        }
        return PlainStep::LinkDirectory {
            target: paths::join_paths(dir.as_str(), target, on_windows),
            at: paths::join_paths(config.modules_dir.as_str(), name, on_windows),
        };
    }
    if let Some(target) = text::strip_prefix(version_range, "file:") {
        return PlainStep::ImportDirectory {
            source: paths::join_paths(dir.as_str(), target, on_windows),
            at: paths::join_paths(config.modules_dir.as_str(), name, on_windows),
        };
    }
    PlainStep::Install {
        range: workspace::apply_workspace_root_peer_override(
            config,
            workspace_root_peer_overrides,
            None,
            name,
            version_range,
        ),
        optional: group == DependencyGroup::Optional,
    }
}

/// Peers as dependencies, each optional where the package says so.
pub open spec fn peer_needs(pairs: Seq<(Seq<char>, Seq<char>)>, optional_peers: Seq<Seq<char>>) -> Seq<
    Need,
> {
    pairs.map_values(
        |pair: (Seq<char>, Seq<char>)| (optional_peers.contains(pair.0), pair.0, pair.1),
    )
}

/// The dependencies of a package that are installed with it.
pub open spec fn installed_needs(package: PackageVersion, auto_install_peers: bool) -> Seq<Need> {
    install_with_lockfile::package_needs(package, false) + (if auto_install_peers
        && package.peer_dependencies is Some {
        peer_needs(package.peer_dependencies->0.pairs(), package.optional_peers.deep_view())
    } else {
        Seq::empty()
    })
}

/// The dependencies of a package that are installed with it: the regular ones,
/// the optional ones and, where the settings say so, the peers, of which some
/// may be optional.
pub fn installed_dependency_entries(package: &PackageVersion, auto_install_peers: bool) -> (entries:
    Vec<(bool, String, String)>)
    ensures
        install_with_lockfile::needs_of(entries@) == installed_needs(
            *package,
            auto_install_peers,
        ),
{
    let mut entries = install_with_lockfile::package_dependency_entries(package, false);
    let ghost first = install_with_lockfile::needs_of(entries@);
    if auto_install_peers {
        if let Some(peers) = &package.peer_dependencies {
            let ghost all = peer_needs(peers.pairs(), package.optional_peers.deep_view());
            let n: usize = peers.len();
            let mut i: usize = 0;
            assert(install_with_lockfile::needs_of(entries@) =~= first + all.take(0));
            while i < n
                invariant
                    n == peers.pairs().len(),
                    i <= n,
                    all == peer_needs(peers.pairs(), package.optional_peers.deep_view()),
                    install_with_lockfile::needs_of(entries@) == first + all.take(i as int),
                decreases n - i,
            {
                let name = peers.key_at(i);
                let optional = value::list_contains(&package.optional_peers, name.as_str());
                let ghost held = entries@;
                entries.push((optional, name.clone(), peers.value_at(i).clone()));
                proof {
                    assert(install_with_lockfile::needs_of(entries@)
                        =~= install_with_lockfile::needs_of(held).push(all[i as int]));
                    assert(all.take(i + 1) =~= all.take(i as int).push(all[i as int]));
                    assert(install_with_lockfile::needs_of(entries@) =~= first + all.take(i + 1));
                }
                i = i + 1;
            }
            assert(all.take(i as int) =~= all);
        }
    }
    assert(install_with_lockfile::needs_of(entries@) =~= installed_needs(
        *package,
        auto_install_peers,
    ));
    entries
}

/// Takes up the dependencies of a package: the first time, they are installed
/// into its own `node_modules`; after that there is nothing left to do.
pub fn start_subset(
    config: &Npmrc,
    resolved_packages: &mut ResolvedPackages,
    package: &PackageVersion,
    on_windows: bool,
) -> (
node_modules: Option<String>)
    ensures
        final(resolved_packages).names() == old(resolved_packages).names().insert(
            package.virtual_store_name@,
        ),
        match node_modules {
            Some(dir) => !old(resolved_packages).names().contains(package.virtual_store_name@)
                && dir@ == paths::joined(
                paths::joined(config.virtual_store_dir@, package.virtual_store_name@, on_windows),
                "node_modules"@,
                on_windows,
            ),
            None => old(resolved_packages).names().contains(package.virtual_store_name@),
        },
{
    if !resolved_packages.insert(package.virtual_store_name.clone()) {
        return None;
    }
    Some(
        paths::join_paths(
            paths::join_paths(
                config.virtual_store_dir.as_str(),
                package.virtual_store_name.as_str(),
                on_windows,
            ).as_str(),
            "node_modules",
            on_windows,
        ),
    )
}

/// How a direct dependency is come by without a lockfile: a directory is linked to, where
/// links are allowed, or copied, as it is asked for; anything else is installed in the
/// version that is asked for, and is optional where it is asked for as such.
pub proof fn law_plain_dependency_is_come_by(
    step: PlainStep,
    config: Npmrc,
    manifest_path: Seq<char>,
    overrides: Map<Seq<char>, Seq<char>>,
    group: DependencyGroup,
    name: Seq<char>,
    range: Seq<char>,
    target: Seq<char>,
    on_windows: bool,
)
    requires
        is_plain_step(
            step,
            config,
            manifest_path,
            overrides,
            group,
            name,
            range,
            on_windows,
        ),
    ensures
        range == "link:"@ + target && config.symlink ==> (step matches PlainStep::LinkDirectory {
            target: to,
            at,
        } && to@ == paths::joined(
            workspace::manifest_dir(manifest_path, on_windows),
            target,
            on_windows,
        ) && at@ == paths::joined(config.modules_dir@, name, on_windows)),
        range == "link:"@ + target && !config.symlink ==> step is Nothing,
        range == "file:"@ + target ==> (step matches PlainStep::ImportDirectory { source, at }
            && source@ == paths::joined(
            workspace::manifest_dir(manifest_path, on_windows),
            target,
            on_windows,
        ) && at@ == paths::joined(config.modules_dir@, name, on_windows)),
        !text::starts_with(range, "link:"@) && !text::starts_with(range, "file:"@) ==> (
        step matches PlainStep::Install { range: wanted, optional } && wanted@ == range && (optional
            <==> group == DependencyGroup::Optional)),
{
    reveal_strlit("link:");
    reveal_strlit("file:");
    assert("link:"@[0] == 'l' && "file:"@[0] == 'f');
    assert(("link:"@ + target).subrange(0, 5) =~= "link:"@);
    assert(("file:"@ + target).subrange(0, 5) =~= "file:"@);
    assert(text::tail("link:"@ + target, 5) =~= target);
    assert(text::tail("file:"@ + target, 5) =~= target);
    if text::starts_with("file:"@ + target, "link:"@) {
        assert(("file:"@ + target).subrange(0, 5)[0] == 'f');
    }
}

/// Without a lockfile a package needs what it needs with one; a peer that is installed by
/// itself is optional where the package calls it so.
pub proof fn law_installed_needs(
    all: Seq<Need>,
    package: PackageVersion,
    auto_install_peers: bool,
    need: Need,
)
    requires
        all == installed_needs(package, auto_install_peers),
    ensures
        install_with_lockfile::package_needs(package, false).contains(need) ==> all.contains(need),
        auto_install_peers && package.peer_dependencies is Some
            && package.peer_dependencies->0.pairs().contains((need.1, need.2)) && need.0
            == package.optional_peers.deep_view().contains(need.1) ==> all.contains(need),
        !auto_install_peers && all.contains(need) ==> install_with_lockfile::package_needs(
            package,
            false,
        ).contains(need),
{
    let own = install_with_lockfile::package_needs(package, false);
    if own.contains(need) {
        assert(all[own.index_of(need)] == need);
    }
    if auto_install_peers && package.peer_dependencies is Some {
        let pairs = package.peer_dependencies->0.pairs();
        let peers = peer_needs(pairs, package.optional_peers.deep_view());
        if pairs.contains((need.1, need.2)) && need.0
            == package.optional_peers.deep_view().contains(need.1) {
            let k = pairs.index_of((need.1, need.2));
            assert(peers[k] == need);
            assert(all[own.len() + k] == need);
        }
    }
    if !auto_install_peers {
        assert(all =~= own);
    }
}

} // verus!
