//! The settings of an installation.
use vstd::prelude::*;

verus! {

/// How packages are laid out for the programs that use them.
#[derive(Debug, Clone, Copy, PartialEq, Eq, Structural)]
pub enum NodeLinker {
    Hoisted,
    Isolated,
    Pnp,
}

/// How far from an importer packages of the workspace are linked.
#[derive(Debug, Clone, Copy, PartialEq, Eq, Structural)]
pub enum LinkWorkspacePackages {
    False,
    Direct,
    Deep,
}

/// How a manifest is told that a dependency comes from the workspace.
#[derive(Debug, Clone, Copy, PartialEq, Eq, Structural)]
pub enum SaveWorkspaceProtocol {
    False,
    True,
    Rolling,
}

/// How the files of a package come out of the store.
#[derive(Debug, Clone, Copy, PartialEq, Eq, Structural)]
pub enum PackageImportMethod {
    Auto,
    Hardlink,
    Copy,
    Clone,
    CloneOrCopy,
}

impl LinkWorkspacePackages {
    /// Packages of the workspace are linked at this distance from an importer.
    pub open spec fn links(self, depth: int) -> bool {
        match self {
            LinkWorkspacePackages::False => false,
            LinkWorkspacePackages::Direct => depth == 0,
            LinkWorkspacePackages::Deep => true,
        }
    }

    /// Whether packages of the workspace are linked at this distance from an
    /// importer.
    pub fn links_at_depth(self, depth: usize) -> (links: bool)
        ensures
            links == self.links(depth as int),
    {
        match self {
            LinkWorkspacePackages::False => false,
            LinkWorkspacePackages::Direct => depth == 0,
            LinkWorkspacePackages::Deep => true,
        }
    }
}

/// The settings of an installation.
#[derive(Debug)]
pub struct Npmrc {
    pub modules_dir: String,
    pub virtual_store_dir: String,
    pub store_dir: String,
    pub node_linker: NodeLinker,
    pub package_import_method: PackageImportMethod,
    pub link_workspace_packages: LinkWorkspacePackages,
    pub save_workspace_protocol: SaveWorkspaceProtocol,
    pub hoist: bool,
    pub hoist_pattern: Vec<String>,
    pub public_hoist_pattern: Vec<String>,
    pub shamefully_hoist: bool,
    pub symlink: bool,
    pub prefer_symlinked_executables: Option<bool>,
    pub disable_relink_local_dir_deps: bool,
    pub lockfile: bool,
    pub prefer_frozen_lockfile: bool,
    pub lockfile_include_tarball_url: bool,
    pub auto_install_peers: bool,
    pub exclude_links_from_lockfile: bool,
    pub peers_suffix_max_length: u64,
    pub inject_workspace_packages: bool,
    pub dedupe_injected_deps: bool,
    pub dedupe_peer_dependents: bool,
    pub resolve_peers_from_workspace_root: bool,
    pub strict_peer_dependencies: bool,
    pub modules_cache_max_age: u64,
}

impl Npmrc {
    /// Commands are linked to rather than wrapped: as the settings say, or else
    /// where everything is hoisted.
    pub open spec fn links_executables(self) -> bool {
        match self.prefer_symlinked_executables {
            Some(prefers) => prefers,
            None => self.node_linker is Hoisted,
        }
    }

    /// Whether commands are linked to rather than wrapped.
    pub fn prefer_symlinked_executables_enabled(&self) -> (yes: bool)
        ensures
            yes == self.links_executables(),
    {
        match self.prefer_symlinked_executables {
            Some(prefers) => prefers,
            None => matches!(self.node_linker, NodeLinker::Hoisted),
        }
    }
}

/// How a linker is called.
pub open spec fn linker_name(linker: NodeLinker) -> Seq<char> {
    match linker {
        NodeLinker::Hoisted => "hoisted"@,
        NodeLinker::Isolated => "isolated"@,
        NodeLinker::Pnp => "pnp"@,
    }
}

/// How the linker of the settings is called.
pub fn node_linker_name(config: &Npmrc) -> (name: &'static str)
    ensures
        name@ == linker_name(config.node_linker),
{
    match config.node_linker {
        NodeLinker::Hoisted => "hoisted",
        NodeLinker::Isolated => "isolated",
        NodeLinker::Pnp => "pnp",
    }
}

} // verus!
