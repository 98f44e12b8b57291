//! Where dependencies are made available.
use crate::config::{NodeLinker, Npmrc};
use vstd::prelude::*;

verus! {

/// Dependencies are made available in the `node_modules` of a project: always
/// if they are hoisted, with symbolic links if they are isolated, and never if
/// they are found by Plug'n'Play.
pub open spec fn materializes_root_links(config: Npmrc) -> bool {
    match config.node_linker {
        NodeLinker::Hoisted => true,
        NodeLinker::Isolated => config.symlink,
        NodeLinker::Pnp => false,
    }
}

/// Whether dependencies are made available in the `node_modules` of a project.
pub fn should_materialize_root_links(config: &Npmrc) -> (yes: bool)
    ensures
        yes == materializes_root_links(*config),
{
    match config.node_linker {
        NodeLinker::Hoisted => true,
        NodeLinker::Isolated => config.symlink,
        NodeLinker::Pnp => false,
    }
}

/// Links to direct dependencies are made where packages share a directory, and, with
/// packages isolated, where links are allowed; with Plug'n'Play none are.
pub proof fn law_root_links(yes: bool, config: Npmrc)
    requires
        yes == materializes_root_links(config),
    ensures
        config.node_linker is Hoisted ==> yes,
        config.node_linker is Pnp ==> !yes,
        config.node_linker is Isolated ==> yes == config.symlink,
{
}

} // verus!
