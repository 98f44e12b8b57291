//! Decision logic of an npm-style package manager: dependency specifiers,
//! lockfile snapshots, hoisting, install planning and reporting, each function
//! with a machine-checked contract.
pub mod config;
pub mod create_virtual_store;
pub mod current_lockfile;
pub mod git_spec;
pub mod hoist_virtual_store;
pub mod install;
pub mod install_frozen_lockfile;
pub mod install_with_lockfile;
pub mod install_without_lockfile;
pub mod installability;
pub mod json;
pub mod link_bins;
pub mod link_file;
pub mod link_policy;
pub mod lockfile;
pub mod lockfile_check;
pub mod manifest_check;
pub mod modules_manifest;
pub mod object_hash;
pub mod package_import;
pub mod package_snapshots;
pub mod package_spec;
pub mod patching;
pub mod paths;
pub mod patterns;
pub mod pnpmfile;
pub mod progress_reporter;
pub mod prune;
pub mod reach;
pub mod registry;
pub mod registry_metadata_cache;
pub mod semver;
pub mod slashed;
pub mod snapshots;
pub mod sorted;
pub mod strict_peers;
pub mod summary;
pub mod symlink_direct_dependencies;
pub mod table;
pub mod text;
pub mod value;
pub mod workspace;
pub mod write_lockfile;
