//! How a package gets into the virtual store.
use crate::config::Npmrc;
use crate::git_spec;
use crate::installability;
use crate::installability::{Installability, Machine, Verdict};
use crate::link_policy;
use crate::lockfile;
use crate::lockfile::{
    DependencyPath, LockfileResolution, PackageSnapshot, PackageSpecifier,
};
use crate::paths;
use crate::registry;
use crate::registry::PackageVersion;
use crate::semver;
use crate::table;
use crate::table::{Table, TextMap};
use crate::text;
use crate::value;
use crate::value::Value;
use vstd::prelude::*;
use vstd::string::*;

verus! {

/// A name that stands behind none of the others.
pub open spec fn is_least(names: Seq<Seq<char>>, name: Seq<char>) -> bool {
    names.contains(name) && forall|i: int|
        0 <= i < names.len() ==> !text::text_less(#[trigger] names[i], name)
}

/// The file by which the presence of a package is told: its manifest, or else
/// the first one by name.
pub open spec fn is_representative(names: Seq<Seq<char>>, name: Option<Seq<char>>) -> bool {
    match name {
        None => names.len() == 0,
        Some(name) => if names.contains("package.json"@) {
            name == "package.json"@
        } else {
            is_least(names, name)
        },
    }
}

/// The file by which the presence of a package is told.
pub fn representative_file_name(file_names: &Vec<String>) -> (name: Option<&str>)
    ensures
        is_representative(file_names.deep_view(), name.deep_view()),
{
    let ghost names = file_names.deep_view();
    if file_names.len() == 0 {
        return None;
    }
    let mut least: usize = 0;
    let mut i: usize = 0;
    proof {
        text::lemma_text_less_order(names[0], names[0], names[0]);
    }
    while i < file_names.len()
        invariant
            i <= file_names@.len(),
            least < file_names@.len(),
            names == file_names.deep_view(),
            forall|j: int| 0 <= j < i ==> #[trigger] names[j] != "package.json"@,
            forall|j: int| 0 <= j < i ==> !text::text_less(#[trigger] names[j], names[least as int]),
        decreases file_names@.len() - i,
    {
        let name = file_names[i].as_str();
        assert(names[i as int] == name@);
        if text::same_text(name, "package.json") {
            assert(names.contains("package.json"@));
            return Some(name);
        }
        let ghost before = least;
        assert(names[least as int] == file_names@[least as int]@);
        if text::is_less(name, file_names[least].as_str()) {
            least = i;
        }
        proof {
            let now = names[least as int];
            assert forall|j: int| 0 <= j < i + 1 implies !text::text_less(#[trigger] names[j], now) by {
                text::lemma_text_less_order(names[j], now, names[before as int]);
                text::lemma_text_less_order(now, now, now);
                text::lemma_text_less_order(names[before as int], now, names[j]);
            }
        }
        i = i + 1;
    }
    proof {
        if names.contains("package.json"@) {
            let k = names.index_of("package.json"@);
            assert(names[k] != "package.json"@);
        }
        assert(names[least as int] == file_names@[least as int]@);
        assert(names.contains(names[least as int]));
    }
    Some(file_names[least].as_str())
}

/// The path of the file by which the presence of a package is told.
pub fn representative_path(
    save_path: &str,
    file_names: &Vec<String>,
    on_windows: bool,
) -> (path: Option<String>)
    ensures
        match path {
            None => file_names@.len() == 0,
            Some(path) => exists|name: Seq<char>|
                #[trigger] is_representative(file_names.deep_view(), Some(name)) && path@
                    == paths::joined(save_path@, name, on_windows),
        },
{
    match representative_file_name(file_names) {
        Some(name) => {
            assert(is_representative(file_names.deep_view(), Some(name@)));
            Some(paths::join_paths(save_path, name, on_windows))
        },
        None => None,
    }
}

/// Whether the mode of a file lets anyone run it.
pub fn is_executable_mode(mode: u32) -> (yes: bool)
    ensures
        yes == (mode & 0o111 != 0),
{
    mode & 0o111 != 0
}

/// Every file was found.
pub open spec fn all_found(files: Seq<(String, Option<String>)>) -> bool {
    forall|i: int| 0 <= i < files.len() ==> (#[trigger] files[i]).1 is Some
}

/// The first `n` files with the places where they were found.
pub open spec fn found_paths(files: Seq<(String, Option<String>)>, n: int) -> Map<
    Seq<char>,
    Seq<char>,
>
    decreases n,
{
    if n <= 0 {
        Map::empty()
    } else {
        found_paths(files, n - 1).insert(files[n - 1].0@, files[n - 1].1->0@)
    }
}

/// The files of a package with the places where the store has them, or nothing
/// where the store lacks one.
pub fn cas_paths_from_index(files: &Vec<(String, Option<String>)>) -> (paths: Option<
    TextMap<String>,
>)
    ensures
        match paths {
            Some(paths) => all_found(files@) && paths.deep_view() == found_paths(
                files@,
                files@.len() as int,
            ),
            None => !all_found(files@),
        },
{
    let mut found: TextMap<String> = Table::new();
    let mut i: usize = 0;
    while i < files.len()
        invariant
            i <= files@.len(),
            forall|j: int| 0 <= j < i ==> (#[trigger] files@[j]).1 is Some,
            found.deep_view() == found_paths(files@, i as int),
        decreases files@.len() - i,
    {
        match &files[i].1 {
            Some(path) => {
                found.insert(files[i].0.clone(), path.clone());
            },
            None => {
                assert(files@[i as int].1 is None);
                return None;
            },
        }
        i = i + 1;
    }
    Some(found)
}

/// Where a package is put, where it is made available, and what it is called.
#[derive(Debug)]
pub struct ImportPaths {
    pub save_path: String,
    pub symlink_path: String,
    pub package_id: String,
}

/// The directory of a package in the virtual store.
pub open spec fn saved_at(
    virtual_store_dir: Seq<char>,
    store_name: Seq<char>,
    name: Seq<char>,
    on_windows: bool,
) -> Seq<
    char,
> {
    paths::joined(
        paths::joined(
            paths::joined(virtual_store_dir, store_name, on_windows),
            "node_modules"@,
            on_windows,
        ),
        name,
        on_windows,
    )
}

/// The directory of a package in the virtual store.
pub fn save_path(
    virtual_store_dir: &str,
    store_name: &str,
    name: &str,
    on_windows: bool,
) -> (path: String)
    ensures
        path@ == saved_at(virtual_store_dir@, store_name@, name@, on_windows),
{
    let modules = paths::join_paths(
        paths::join_paths(virtual_store_dir, store_name, on_windows).as_str(),
        "node_modules",
        on_windows,
    );
    paths::join_paths(modules.as_str(), name, on_windows)
}

/// Where a package is put, where it is made available, and what it is called.
pub fn import_paths(
    config: &Npmrc,
    package_version: &PackageVersion,
    node_modules_dir: &str,
    symlink_name: &str,
    on_windows: bool,
) -> (all: ImportPaths)
    ensures
        all.save_path@ == saved_at(
            config.virtual_store_dir@,
            package_version.virtual_store_name@,
            package_version.name@,
            on_windows,
        ),
        all.symlink_path@ == paths::joined(node_modules_dir@, symlink_name@, on_windows),
        all.package_id@ == registry::package_id(
            package_version.name@,
            package_version.version.deep_view(),
        ),
{
    ImportPaths {
        save_path: save_path(
            config.virtual_store_dir.as_str(),
            package_version.virtual_store_name.as_str(),
            package_version.name.as_str(),
            on_windows,
        ),
        symlink_path: paths::join_paths(node_modules_dir, symlink_name, on_windows),
        package_id: package_version.id(),
    }
}

/// What is found out before a package is imported: whether it is to be done
/// anew, whether there is a patch for it, whether there is something in its
/// place and a manifest in it, whether the store knows its files, whether they
/// are in place, and whether the store has all of them.
#[derive(Debug, Clone, Copy, PartialEq, Eq, Structural)]
pub struct ImportFacts {
    pub force: bool,
    pub has_patch: bool,
    pub exists: bool,
    pub has_manifest: bool,
    pub is_indexed: bool,
    pub is_imported: bool,
    pub store_is_complete: bool,
}

/// A step of the import of a package.
#[derive(Debug, Clone, Copy, PartialEq, Eq, Structural)]
pub enum ImportAction {
    Clear,
    CountReused,
    Download,
    CountDownloaded,
    ImportFiles,
    ApplyPatch,
    Link,
    CountAdded,
}

/// What is in the way is cleared.
pub open spec fn clearing(facts: ImportFacts) -> Seq<ImportAction> {
    if (facts.force || facts.has_patch) && facts.exists {
        seq![ImportAction::Clear]
    } else {
        Seq::empty()
    }
}

/// The files are brought into place: not at all where they are, out of the
/// store where it has them, and else after a download, with the patch on top.
pub open spec fn bringing(facts: ImportFacts) -> Seq<ImportAction> {
    let anew = facts.force || facts.has_patch;
    if !anew && facts.has_manifest {
        Seq::empty()
    } else if !anew && facts.is_indexed && facts.is_imported {
        seq![ImportAction::CountReused]
    } else if !anew && facts.is_indexed && facts.store_is_complete {
        seq![ImportAction::CountReused, ImportAction::ImportFiles]
    } else {
        seq![
            ImportAction::Download,
            ImportAction::CountDownloaded,
            ImportAction::ImportFiles,
            ImportAction::ApplyPatch,
        ]
    }
}

/// The package is made available.
pub open spec fn linking(should_link: bool) -> Seq<ImportAction> {
    if should_link {
        seq![ImportAction::Link, ImportAction::CountAdded]
    } else {
        Seq::empty()
    }
}

/// The steps of the import of a package.
pub open spec fn import_plan(facts: ImportFacts, should_link: bool) -> Seq<ImportAction> {
    clearing(facts) + bringing(facts) + linking(should_link)
}

/// The steps of the import of a package.
pub fn import_actions(config: &Npmrc, facts: ImportFacts) -> (actions: Vec<ImportAction>)
    ensures
        actions@ == import_plan(facts, link_policy::materializes_root_links(*config)),
{
    let mut actions: Vec<ImportAction> = Vec::new();
    let anew = facts.force || facts.has_patch;
    if anew && facts.exists {
        actions.push(ImportAction::Clear);
    }
    assert(actions@ =~= clearing(facts));
    if !anew && facts.has_manifest {
    } else if !anew && facts.is_indexed && facts.is_imported {
        actions.push(ImportAction::CountReused);
    } else if !anew && facts.is_indexed && facts.store_is_complete {
        actions.push(ImportAction::CountReused);
        actions.push(ImportAction::ImportFiles);
    } else {
        actions.push(ImportAction::Download);
        actions.push(ImportAction::CountDownloaded);
        actions.push(ImportAction::ImportFiles);
        actions.push(ImportAction::ApplyPatch);
    }
    assert(actions@ =~= clearing(facts) + bringing(facts));
    let should_link = link_policy::should_materialize_root_links(config);
    if should_link {
        actions.push(ImportAction::Link);
        actions.push(ImportAction::CountAdded);
    }
    assert(actions@ =~= import_plan(facts, should_link));
    actions
}

/// Without force and without a patch nothing that is there is touched, and a
/// patch is never applied to anything but fresh files.
pub proof fn law_import_spares_what_is_there(facts: ImportFacts, should_link: bool)
    ensures
        !facts.force && !facts.has_patch ==> !import_plan(facts, should_link).contains(
            ImportAction::Clear,
        ),
        import_plan(facts, should_link).contains(ImportAction::ApplyPatch) ==> import_plan(
            facts,
            should_link,
        ).contains(ImportAction::Download),
        facts.has_patch ==> import_plan(facts, should_link).contains(ImportAction::ApplyPatch),
{
    let all = import_plan(facts, should_link);
    let head = clearing(facts);
    let body = bringing(facts);
    let anew = facts.force || facts.has_patch;
    if all.contains(ImportAction::Clear) {
        let i = all.index_of(ImportAction::Clear);
        assert(all[i] == ImportAction::Clear);
    }
    if all.contains(ImportAction::ApplyPatch) {
        let i = all.index_of(ImportAction::ApplyPatch);
        assert(all[i] == ImportAction::ApplyPatch);
        assert(all[head.len() as int] == body[0]);
        assert(body.len() == 4);
    }
    if facts.has_patch {
        assert(body[3] == ImportAction::ApplyPatch);
        assert(all[head.len() as int + 3] == ImportAction::ApplyPatch);
    }
}

/// Where a version of a package is come by.
#[derive(Debug)]
pub enum VersionSource {
    Tarball { spec_text: String },
    Git { tarball: String },
    UnsupportedGit { message: String },
    Metadata { name: String, range: String },
}

/// Where a version of a package is come by.
pub open spec fn is_source(
    source: VersionSource,
    name: Seq<char>,
    range: Seq<char>,
    is_tarball: bool,
) -> bool {
    match source {
        VersionSource::Tarball { spec_text } => is_tarball && spec_text@ == range,
        VersionSource::Git { tarball } => !is_tarball && git_spec::is_git(range)
            && git_spec::tarball_url(range) == Some(tarball@),
        VersionSource::UnsupportedGit { message } => !is_tarball && git_spec::is_git(range)
            && git_spec::tarball_url(range) is None && message@ == "unsupported git spec: "@ + range
            + ". currently supported: github:, owner/repo shorthand, and github.com URLs"@,
        VersionSource::Metadata { name: package, range: wanted } => !is_tarball
            && !git_spec::is_git(range) && (package@, wanted@) == registry::requested_package(
            name,
            range,
        ),
    }
}

/// Where a version of a package is come by: a tarball, a repository, or what
/// the registry tells of the package.
pub fn version_source(name: &str, version_range: &str, is_tarball: bool) -> (source: VersionSource)
    ensures
        is_source(source, name@, version_range@, is_tarball),
{
    if is_tarball {
        return VersionSource::Tarball { spec_text: text::copy(version_range) };
    }
    if git_spec::is_git_spec(version_range) {
        return match git_spec::git_tarball_source(version_range) {
            Ok(tarball) => VersionSource::Git { tarball },
            Err(message) => VersionSource::UnsupportedGit { message },
        };
    }
    let (package, range) = registry::parse_request(name, version_range);
    VersionSource::Metadata { name: text::copy(package), range: text::copy(range) }
}

/// Whether the registry is asked again: what was kept does not have the
/// version, and it may be out of date.
pub fn needs_fresh_metadata(
    is_resolved: bool,
    is_cached: bool,
    prefer_offline: bool,
    offline: bool,
) -> (fresh: bool)
    ensures
        fresh == (!is_resolved && is_cached && prefer_offline && !offline),
{
    !is_resolved && prefer_offline && !offline && is_cached
}

/// What is done about a version once it is there: what is told of it, and
/// whether it is imported.
#[derive(Debug)]
pub struct Arrival {
    pub deprecation: Option<String>,
    pub verdict: Verdict,
    pub import: bool,
}

/// What is done about a version once it is there. That it is deprecated is told
/// where it comes from what the registry tells; an optional one that does not
/// fit the machine is not imported.
pub fn package_arrival(
    package_version: &PackageVersion,
    from_metadata: bool,
    optional: bool,
    machine: &Machine,
) -> (arrival: Arrival)
    requires
        installability::can_be_judged(
            installability::version_demands(*package_version),
            machine.deep_view(),
        ),
    ensures
        arrival.deprecation.deep_view() == (if from_metadata {
            package_version.deprecated.deep_view()
        } else {
            None
        }),
        installability::is_verdict(
            arrival.verdict,
            registry::package_id(package_version.name@, package_version.version.deep_view()),
            installability::version_demands(*package_version),
            machine.deep_view(),
            optional,
            true,
        ),
        arrival.import == !(optional && !installability::fits(
            installability::version_demands(*package_version),
            machine.deep_view(),
        )),
{
    let verdict = installability::check_package_version_installability(
        package_version,
        optional,
        machine,
    );
    let import = verdict.installability == Installability::Install;
    Arrival {
        deprecation: if from_metadata {
            package_version.deprecated.duplicate()
        } else {
            None
        },
        verdict,
        import,
    }
}

/// A package of a lockfile comes as a tarball of which the contents are known.
pub open spec fn has_tarball(path: DependencyPath, snapshot: PackageSnapshot) -> bool {
    match snapshot.resolution {
        LockfileResolution::Tarball { tarball, integrity } => integrity is Some,
        LockfileResolution::Registry { integrity } => path.package_specifier is Registry,
        _ => false,
    }
}

/// Why a package of a lockfile cannot be fetched: its tarball is not known to
/// hold what it should, or it does not come as a tarball.
#[derive(Debug, Clone, Copy, PartialEq, Eq, Structural)]
pub enum NoTarball {
    WithoutIntegrity,
    Unsupported,
}

/// Why a package of a lockfile cannot be fetched, if it cannot.
pub fn tarball_is_missing(path: &DependencyPath, snapshot: &PackageSnapshot) -> (missing: Option<
    NoTarball,
>)
    ensures
        missing is None <==> has_tarball(*path, *snapshot),
        missing == Some(NoTarball::WithoutIntegrity) <==> (snapshot.resolution matches
            LockfileResolution::Tarball { tarball, integrity } && integrity is None),
{
    match &snapshot.resolution {
        LockfileResolution::Tarball { tarball: _, integrity } => if integrity.is_some() {
            None
        } else {
            Some(NoTarball::WithoutIntegrity)
        },
        LockfileResolution::Registry { integrity: _ } => match &path.package_specifier {
            PackageSpecifier::Registry(_) => None,
            PackageSpecifier::LocalFile { name: _, reference: _, store_name: _ } => Some(
                NoTarball::Unsupported,
            ),
        },
        _ => Some(NoTarball::Unsupported),
    }
}

/// How the store knows a package of a lockfile: by name and version, without its
/// peers, or by name and reference.
pub open spec fn stored_id(path: DependencyPath) -> Seq<char> {
    match path.package_specifier {
        PackageSpecifier::Registry(specifier) => specifier.name@ + "@"@ + semver::version_text(
            specifier.suffix.version.deep_view(),
        ),
        PackageSpecifier::LocalFile { name, reference, store_name } => name@ + "@"@ + reference@,
    }
}

/// How the store knows a package of a lockfile.
pub fn snapshot_package_id(path: &DependencyPath) -> (id: String)
    ensures
        id@ == stored_id(*path),
{
    match &path.package_specifier {
        PackageSpecifier::Registry(specifier) => specifier.name.clone().concat("@").concat(
            specifier.suffix.version.text().as_str(),
        ),
        PackageSpecifier::LocalFile { name, reference, store_name: _ } => name.clone().concat(
            "@",
        ).concat(reference.as_str()),
    }
}

/// A registry without one slash at its end.
pub open spec fn without_last_slash(registry: Seq<char>) -> Seq<char> {
    if registry.len() > 0 && registry.last() == '/' {
        registry.drop_last()
    } else {
        registry
    }
}

/// The tarball of a package of a lockfile, and what its contents hash to.
pub open spec fn snapshot_tarball(
    path: DependencyPath,
    snapshot: PackageSnapshot,
    registry: Seq<char>,
) -> (Seq<char>, Seq<char>) {
    match snapshot.resolution {
        LockfileResolution::Tarball { tarball, integrity } => (tarball@, integrity->0@),
        LockfileResolution::Registry { integrity } => {
            let source = match path.custom_registry {
                Some(custom) => custom@,
                None => registry,
            };
            let specifier = path.package_specifier->Registry_0;
            let bare = match text::rsplit_once(specifier.name@, '/') {
                Some((_, bare)) => bare,
                None => specifier.name@,
            };
            (
                without_last_slash(source) + "/"@ + specifier.name@ + "/-/"@ + bare + "-"@
                    + semver::version_text(specifier.suffix.version.deep_view()) + ".tgz"@,
                integrity@,
            )
        },
        _ => (Seq::empty(), Seq::empty()),
    }
}

/// The tarball of a package of a lockfile, and what its contents hash to. A
/// package that comes otherwise is left out.
pub fn tarball_of_snapshot(
    dependency_path: &DependencyPath,
    package_snapshot: &PackageSnapshot,
    registry: &str,
) -> (source: (String, String))
    requires
        has_tarball(*dependency_path, *package_snapshot),
    ensures
        (source.0@, source.1@) == snapshot_tarball(
            *dependency_path,
            *package_snapshot,
            registry@,
        ),
{
    match &package_snapshot.resolution {
        LockfileResolution::Tarball { tarball, integrity } => (
            tarball.clone(),
            integrity.as_ref().unwrap().clone(),
        ),
        LockfileResolution::Registry { integrity } => {
            let source = match &dependency_path.custom_registry {
                Some(custom) => custom.as_str(),
                None => registry,
            };
            let n: usize = source.unicode_len();
            let base = if n > 0 && source.get_char(n - 1) == '/' {
                assert(source@.subrange(0, n - 1) =~= source@.drop_last());
                source.substring_char(0, n - 1)
            } else {
                source
            };
            let mut url = text::copy(base);
            if let PackageSpecifier::Registry(specifier) = &dependency_path.package_specifier {
                let name = specifier.name.as_str();
                let bare = match text::split_at_last(name, '/') {
                    Some((_, bare)) => bare,
                    None => name,
                };
                url = url.concat("/").concat(name).concat("/-/").concat(bare).concat("-").concat(
                    specifier.suffix.version.text().as_str(),
                ).concat(".tgz");
            }
            (url, integrity.clone())
        },
        _ => (String::new(), String::new()),
    }
}

/// Whether a package of a lockfile is fetched: its manifest is not in place,
/// nor are the files that the store knows of.
pub fn needs_fetch(has_manifest: bool, is_imported: bool) -> (fetch: bool)
    ensures
        fetch == (!has_manifest && !is_imported),
{
    !has_manifest && !is_imported
}

/// What is done to import a package: its directory is cleared where it is made anew; its
/// contents are downloaded where they are made anew, or are neither there nor in the store
/// as a whole; files are imported unless they are there; a patch is applied to what was
/// downloaded; and a link is made where links are.
pub proof fn law_import_brings_what_is_missing(
    plan: Seq<ImportAction>,
    facts: ImportFacts,
    should_link: bool,
)
    requires
        plan == import_plan(facts, should_link),
    ensures
        ({
            let anew = facts.force || facts.has_patch;
            let there = !anew && (facts.has_manifest || facts.is_indexed && facts.is_imported);
            let in_store = !anew && facts.is_indexed && facts.store_is_complete;
            &&& plan.contains(ImportAction::Clear) <==> anew && facts.exists
            &&& plan.contains(ImportAction::Download) <==> !there && !in_store
            &&& plan.contains(ImportAction::ImportFiles) <==> !there
            &&& plan.contains(ImportAction::ApplyPatch) <==> plan.contains(ImportAction::Download)
            &&& facts.has_patch ==> plan.contains(ImportAction::ApplyPatch)
            &&& plan.contains(ImportAction::CountDownloaded) <==> plan.contains(
                ImportAction::Download,
            )
            &&& plan.contains(ImportAction::CountReused) <==> !anew && !facts.has_manifest
                && facts.is_indexed && (facts.is_imported || facts.store_is_complete)
            &&& plan.contains(ImportAction::Link) <==> should_link
            &&& plan.contains(ImportAction::CountAdded) <==> should_link
        }),
{
    let a = clearing(facts);
    let b = bringing(facts);
    let c = linking(should_link);
    assert forall|action: ImportAction| #[trigger] plan.contains(action) <==> a.contains(action)
        || b.contains(action) || c.contains(action) by {
        if a.contains(action) {
            assert(plan[a.index_of(action)] == action);
        }
        if b.contains(action) {
            assert(plan[a.len() + b.index_of(action)] == action);
        }
        if c.contains(action) {
            assert(plan[a.len() + b.len() + c.index_of(action)] == action);
        }
        if plan.contains(action) {
            let k = plan.index_of(action);
            if k < a.len() {
                assert(a[k] == action);
            } else if k < a.len() + b.len() {
                assert(b[k - a.len()] == action);
            } else {
                assert(c[k - a.len() - b.len()] == action);
            }
        }
    }
    let anew = facts.force || facts.has_patch;
    if anew && facts.exists {
        assert(a[0] == ImportAction::Clear);
    }
    if should_link {
        assert(c[0] == ImportAction::Link && c[1] == ImportAction::CountAdded);
    }
    if !anew && facts.has_manifest {
    } else if !anew && facts.is_indexed && facts.is_imported {
        assert(b[0] == ImportAction::CountReused);
    } else if !anew && facts.is_indexed && facts.store_is_complete {
        assert(b[0] == ImportAction::CountReused && b[1] == ImportAction::ImportFiles);
    } else {
        assert(b[0] == ImportAction::Download && b[1] == ImportAction::CountDownloaded && b[2]
            == ImportAction::ImportFiles && b[3] == ImportAction::ApplyPatch);
    }
}

/// The files of a package in the store are all there only where each is, and are found by
/// their names.
pub proof fn law_files_are_found_by_their_names(
    files: Seq<(String, Option<String>)>,
    n: int,
    i: int,
)
    requires
        0 <= i < n <= files.len(),
        forall|j: int| i < j < n ==> (#[trigger] files[j]).0@ != files[i].0@,
    ensures
        found_paths(files, n).dom().contains(files[i].0@),
        found_paths(files, n)[files[i].0@] == files[i].1->0@,
        files[i].1 is None ==> !all_found(files),
    decreases n,
{
    if i < n - 1 {
        assert(files[n - 1].0@ != files[i].0@);
        law_files_are_found_by_their_names(files, n - 1, i);
    }
}

/// Where a version comes from: a tarball or a repository is fetched from where the request
/// says, a repository elsewhere than on GitHub is refused, and any other request is one to
/// the registry, for the package that it names.
pub proof fn law_source_of_a_version(
    source: VersionSource,
    name: Seq<char>,
    range: Seq<char>,
    is_tarball: bool,
)
    requires
        is_source(source, name, range, is_tarball),
    ensures
        is_tarball <==> source is Tarball,
        source matches VersionSource::Tarball { spec_text } ==> spec_text@ == range,
        !is_tarball && git_spec::is_git(range) <==> source is Git || source is UnsupportedGit,
        !is_tarball && !git_spec::is_git(range) <==> source is Metadata,
        source matches VersionSource::Metadata { name: package, range: wanted } ==> (
        !text::starts_with(range, "npm:"@) ==> package@ == name && wanted@ == range),
{
}

/// What is fetched for a package of a lockfile: the tarball that is recorded, or the one
/// that the registry has for its name and version, with the recorded checksum.
pub proof fn law_tarball_of_a_package(
    source: (String, String),
    path: DependencyPath,
    snapshot: PackageSnapshot,
    registry: Seq<char>,
)
    requires
        has_tarball(path, snapshot),
        (source.0@, source.1@) == snapshot_tarball(path, snapshot, registry),
    ensures
        snapshot.resolution matches LockfileResolution::Tarball { tarball, integrity } ==> source.0@
            == tarball@ && source.1@ == integrity->0@,
        snapshot.resolution matches LockfileResolution::Registry { integrity } ==> source.1@
            == integrity@,
        snapshot.resolution is Registry && path.custom_registry is None && (registry.len() == 0
            || registry.last() != '/' || registry.len() == 1 || registry[registry.len() - 2]
            != '/') ==> source.0@ == registry::registry_tarball(
            registry,
            (path.package_specifier->Registry_0).name@,
            (path.package_specifier->Registry_0).suffix.version.deep_view(),
        ),
{
    if snapshot.resolution is Registry && path.custom_registry is None {
        reveal_with_fuel(text::trim_end_char, 3);
        if registry.len() > 0 && registry.last() == '/' {
            let rest = registry.drop_last();
            if rest.len() > 0 {
                assert(rest.last() == registry[registry.len() - 2]);
            }
        }
    }
}

} // verus!
