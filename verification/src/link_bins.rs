//! The commands that packages bring along.
use crate::config::Npmrc;
use crate::install;
use crate::json;
use crate::json::Json;
use crate::lockfile::DependencyGroup;
use crate::modules_manifest;
use crate::paths;
use crate::pnpmfile;
use crate::sorted;
use crate::table::TextMap;
use crate::text;
use crate::value;
use crate::workspace;
use vstd::prelude::*;
use vstd::string::*;

verus! {

/// A command without the scope of its package; a scope alone names none.
pub open spec fn unscoped(command_name: Seq<char>) -> Option<Seq<char>> {
    match text::stripped_prefix(command_name, "@"@) {
        Some(rest) => match text::split_once(rest, '/') {
            Some((_, name)) => Some(name),
            None => None,
        },
        None => Some(command_name),
    }
}

/// A command without the scope of its package.
pub fn normalize_bin_name<'a>(command_name: &'a str) -> (name: Option<&'a str>)
    ensures
        name.deep_view() == unscoped(command_name@),
{
    match text::strip_prefix(command_name, "@") {
        Some(rest) => match text::split_at_first(rest, '/') {
            Some((_, name)) => Some(name),
            None => None,
        },
        None => Some(command_name),
    }
}

/// A letter or a digit of ASCII.
pub open spec fn is_alphanumeric(c: char) -> bool {
    'a' <= c <= 'z' || 'A' <= c <= 'Z' || '0' <= c <= '9'
}

/// A character that stands for itself in the name of a file.
pub open spec fn is_bin_char(c: char) -> bool {
    is_alphanumeric(c) || c == '-' || c == '_' || c == '.' || c == '!' || c == '~' || c == '*' || c
        == '\'' || c == '(' || c == ')'
}

/// A command may be called like this.
pub open spec fn is_bin_name(name: Seq<char>) -> bool {
    name == "$"@ || forall|i: int| 0 <= i < name.len() ==> is_bin_char(#[trigger] name[i])
}

fn alphanumeric(c: char) -> (yes: bool)
    ensures
        yes == is_alphanumeric(c),
{
    ('a' <= c && c <= 'z') || ('A' <= c && c <= 'Z') || ('0' <= c && c <= '9')
}

/// Whether a command may be called like this: the name leads to no other
/// directory, and a shell reads it as it is.
pub fn is_safe_bin_name(bin_name: &str) -> (yes: bool)
    ensures
        yes == is_bin_name(bin_name@),
{
    if text::same_text(bin_name, "$") {
        return true;
    }
    let n: usize = bin_name.unicode_len();
    let mut i: usize = 0;
    while i < n
        invariant
            i <= n,
            n == bin_name@.len(),
            bin_name@ != "$"@,
            forall|j: int| 0 <= j < i ==> is_bin_char(#[trigger] bin_name@[j]),
        decreases n - i,
    {
        let c = bin_name.get_char(i);
        let fits = alphanumeric(c) || c == '-' || c == '_' || c == '.' || c == '!' || c == '~' || c
            == '*' || c == '\'' || c == '(' || c == ')';
        if !fits {
            assert(!is_bin_char(bin_name@[i as int]));
            return false;
        }
        i = i + 1;
    }
    true
}

/// The command of a package that names none.
pub open spec fn default_name(package_name: Seq<char>) -> Seq<char> {
    match text::rsplit_once(package_name, '/') {
        Some((_, name)) => name,
        None => package_name,
    }
}

/// The command of a package that names none.
pub fn default_bin_name<'a>(package_name: &'a str) -> (name: &'a str)
    ensures
        name@ == default_name(package_name@),
{
    match text::split_at_last(package_name, '/') {
        Some((_, name)) => name,
        None => package_name,
    }
}

/// The commands that a manifest names, and the files that they stand for.
pub open spec fn named_bins(manifest: &Json) -> Option<Seq<(Seq<char>, Seq<char>)>> {
    match json::child(manifest, "bin"@) {
        Some(Json::Text(target)) => match json::child(manifest, "name"@) {
            Some(Json::Text(name)) => Some(seq![(default_name(name@), target@)]),
            _ => Some(Seq::empty()),
        },
        Some(Json::Object(fields)) => Some(
            json::text_entries(fields@, fields@.len() as int),
        ),
        _ => None,
    }
}

/// The commands that a manifest names, and the files that they stand for; none
/// where it does not say which commands there are.
pub fn bins_of_manifest(manifest: &Json) -> (bins: Option<Vec<(String, String)>>)
    ensures
        bins.deep_view() == named_bins(manifest),
{
    match manifest.get("bin") {
        Some(Json::Text(target)) => {
            let mut bins: Vec<(String, String)> = Vec::new();
            match manifest.get("name") {
                Some(Json::Text(name)) => {
                    bins.push((text::copy(default_bin_name(name.as_str())), target.clone()));
                    assert(bins.deep_view() =~= seq![(default_name(name@), target@)]);
                },
                _ => {
                    assert(bins.deep_view() =~= Seq::<(Seq<char>, Seq<char>)>::empty());
                },
            }
            Some(bins)
        },
        Some(bin) => match bin {
            Json::Object(_) => Some(json::json_text_entries(Some(bin))),
            _ => None,
        },
        None => None,
    }
}

/// The directory of commands that a manifest names.
pub open spec fn bin_directory(manifest: &Json) -> Option<Seq<char>> {
    match json::child(manifest, "directories"@) {
        Some(directories) => match json::child(directories, "bin"@) {
            Some(Json::Text(dir)) => Some(dir@),
            _ => None,
        },
        None => None,
    }
}

/// The directory of commands that a manifest names.
pub fn bin_directory_of_manifest<'a>(manifest: &'a Json) -> (dir: Option<&'a str>)
    ensures
        dir.deep_view() == bin_directory(manifest),
{
    match manifest.get("directories") {
        Some(directories) => match directories.get("bin") {
            Some(Json::Text(dir)) => Some(dir.as_str()),
            _ => None,
        },
        None => None,
    }
}

/// Where a file really lies, if it is there.
pub open spec fn real_path(canonical: Map<Seq<char>, Seq<char>>, path: Seq<char>) -> Option<Seq<char>> {
    if canonical.dom().contains(path) {
        Some(canonical[path])
    } else {
        None
    }
}

/// A path really lies in a directory.
pub open spec fn really_within(
    canonical: Map<Seq<char>, Seq<char>>,
    dir: Seq<char>,
    path: Seq<char>,
    on_windows: bool,
) -> bool {
    match (real_path(canonical, dir), real_path(canonical, path)) {
        (Some(root), Some(place)) => paths::is_within(root, place, on_windows),
        _ => false,
    }
}

/// A command as it is linked, if it may be.
pub open spec fn safe_bin(
    manifest_dir: Seq<char>,
    canonical: Map<Seq<char>, Seq<char>>,
    bin: (Seq<char>, Seq<char>),
    on_windows: bool,
) -> Option<(Seq<char>, Seq<char>)> {
    match unscoped(bin.0) {
        Some(name) => if is_bin_name(name) && really_within(
            canonical,
            manifest_dir,
            paths::joined(manifest_dir, bin.1, on_windows),
            on_windows,
        ) {
            Some((name, bin.1))
        } else {
            None
        },
        None => None,
    }
}

/// The commands that are linked.
pub open spec fn safe_bins(
    manifest_dir: Seq<char>,
    canonical: Map<Seq<char>, Seq<char>>,
    bins: Seq<(Seq<char>, Seq<char>)>,
    on_windows: bool,
) -> Seq<(Seq<char>, Seq<char>)>
    decreases bins.len(),
{
    if bins.len() == 0 {
        Seq::empty()
    } else {
        match safe_bin(manifest_dir, canonical, bins.last(), on_windows) {
            Some(bin) => safe_bins(manifest_dir, canonical, bins.drop_last(), on_windows).push(bin),
            None => safe_bins(manifest_dir, canonical, bins.drop_last(), on_windows),
        }
    }
}

fn lies_within(canonical: &TextMap<String>, dir: &str, path: &str, on_windows: bool) -> (yes: bool)
    ensures
        yes == really_within(canonical.deep_view(), dir@, path@, on_windows),
{
    match (canonical.get_text(dir), canonical.get_text(path)) {
        (Some(root), Some(place)) => paths::path_is_within(
            root.as_str(),
            place.as_str(),
            on_windows,
        ),
        _ => false,
    }
}

/// A command as it is linked: only under a name that is safe, and only where its
/// file really lies in the package.
pub fn collect_safe_bin_entry(
    manifest_dir: &str,
    command_name: &str,
    relative_target: &str,
    canonical: &TextMap<String>,
    on_windows: bool,
) -> (entry: Option<(String, String)>)
    ensures
        entry.deep_view() == safe_bin(
            manifest_dir@,
            canonical.deep_view(),
            (command_name@, relative_target@),
            on_windows,
        ),
{
    match normalize_bin_name(command_name) {
        Some(name) => {
            let target = paths::join_paths(manifest_dir, relative_target, on_windows);
            if is_safe_bin_name(name) && lies_within(
                canonical,
                manifest_dir,
                target.as_str(),
                on_windows,
            ) {
                Some((text::copy(name), text::copy(relative_target)))
            } else {
                None
            }
        },
        None => None,
    }
}

/// The paths of which it matters where they really lie.
pub open spec fn bin_paths(
    manifest_dir: Seq<char>,
    manifest: &Json,
    on_windows: bool,
) -> Seq<Seq<char>> {
    match named_bins(manifest) {
        Some(bins) => seq![manifest_dir] + bins.map_values(
            |bin: (Seq<char>, Seq<char>)| paths::joined(manifest_dir, bin.1, on_windows),
        ),
        None => match bin_directory(manifest) {
            Some(dir) => seq![manifest_dir, paths::joined(manifest_dir, dir, on_windows)],
            None => Seq::empty(),
        },
    }
}

/// The paths of which it matters where they really lie.
pub fn bin_probes(manifest_path: &str, manifest: &Json, on_windows: bool) -> (probes: Vec<String>)
    ensures
        probes.deep_view() == bin_paths(
            workspace::manifest_dir(manifest_path@, on_windows),
            manifest,
            on_windows,
        ),
{
    let manifest_dir = workspace::dir_of_manifest(manifest_path, on_windows);
    let mut probes: Vec<String> = Vec::new();
    match bins_of_manifest(manifest) {
        Some(bins) => {
            let ghost all = bin_paths(manifest_dir@, manifest, on_windows);
            probes.push(manifest_dir.clone());
            assert(probes.deep_view() =~= all.take(1));
            let mut i: usize = 0;
            while i < bins.len()
                invariant
                    i <= bins@.len(),
                    named_bins(manifest) == Some(bins.deep_view()),
                    all == bin_paths(manifest_dir@, manifest, on_windows),
                    probes.deep_view() == all.take(i + 1),
                decreases bins@.len() - i,
            {
                let ghost before = probes.deep_view();
                probes.push(paths::join_paths(
                    manifest_dir.as_str(),
                    bins[i].1.as_str(),
                    on_windows,
                ));
                proof {
                    assert(bins.deep_view()[i as int].1 == bins@[i as int].1@);
                    assert(all.take(i + 2) =~= all.take(i + 1).push(all[i + 1]));
                    assert(probes.deep_view() =~= before.push(all[i + 1]));
                }
                i = i + 1;
            }
            assert(all.take(i + 1) =~= all);
        },
        None => match bin_directory_of_manifest(manifest) {
            Some(dir) => {
                probes.push(manifest_dir.clone());
                probes.push(paths::join_paths(manifest_dir.as_str(), dir, on_windows));
                assert(probes.deep_view() =~= bin_paths(manifest_dir@, manifest, on_windows));
            },
            None => {
                assert(probes.deep_view() =~= bin_paths(manifest_dir@, manifest, on_windows));
            },
        },
    }
    probes
}

/// Where commands are looked for: the root of the package and the directory in
/// it.
pub open spec fn walked_directory(
    manifest_dir: Seq<char>,
    manifest: &Json,
    canonical: Map<Seq<char>, Seq<char>>,
    on_windows: bool,
) -> Option<(Seq<char>, Seq<char>)> {
    match (named_bins(manifest), bin_directory(manifest)) {
        (None, Some(dir)) => {
            let path = paths::joined(manifest_dir, dir, on_windows);
            if really_within(canonical, manifest_dir, path, on_windows) {
                Some((canonical[manifest_dir], canonical[path]))
            } else {
                None
            }
        },
        _ => None,
    }
}

/// Where commands are looked for, if anywhere: the root of the package and the
/// directory in it.
pub fn bin_directory_to_walk(
    manifest_path: &str,
    manifest: &Json,
    canonical: &TextMap<String>,
    on_windows: bool,
) -> (
found: Option<(String, String)>)
    ensures
        found.deep_view() == walked_directory(
            workspace::manifest_dir(manifest_path@, on_windows),
            manifest,
            canonical.deep_view(),
            on_windows,
        ),
{
    if bins_of_manifest(manifest).is_some() {
        return None;
    }
    let manifest_dir = workspace::dir_of_manifest(manifest_path, on_windows);
    match bin_directory_of_manifest(manifest) {
        Some(dir) => {
            let path = paths::join_paths(manifest_dir.as_str(), dir, on_windows);
            match (canonical.get_text(manifest_dir.as_str()), canonical.get_text(path.as_str())) {
                (Some(root), Some(place)) => {
                    if paths::path_is_within(root.as_str(), place.as_str(), on_windows) {
                        Some((root.clone(), place.clone()))
                    } else {
                        None
                    }
                },
                _ => None,
            }
        },
        None => None,
    }
}

/// The command that a file stands for.
pub open spec fn file_bin(
    root: Seq<char>,
    file: Seq<char>,
    on_windows: bool,
) -> Option<(Seq<char>, Seq<char>)> {
    match (paths::stripped(root, file, on_windows), paths::file_name(file, on_windows)) {
        (Some(relative), Some(name)) => Some((name, text::replace_char(relative, '\\', "/"@))),
        _ => None,
    }
}

/// The commands that files stand for.
pub open spec fn file_bins(
    root: Seq<char>,
    files: Seq<Seq<char>>,
    on_windows: bool,
) -> Seq<(Seq<char>, Seq<char>)>
    decreases files.len(),
{
    if files.len() == 0 {
        Seq::empty()
    } else {
        match file_bin(root, files.last(), on_windows) {
            Some(bin) => file_bins(root, files.drop_last(), on_windows).push(bin),
            None => file_bins(root, files.drop_last(), on_windows),
        }
    }
}

fn bins_of_files(
    root: &str,
    files: &Vec<String>,
    on_windows: bool,
) -> (entries: Vec<(String, String)>)
    ensures
        entries.deep_view() == file_bins(root@, files.deep_view(), on_windows),
{
    let ghost all = files.deep_view();
    let mut entries: Vec<(String, String)> = Vec::new();
    let mut i: usize = 0;
    assert(entries.deep_view() =~= file_bins(root@, all.take(0), on_windows));
    while i < files.len()
        invariant
            i <= files@.len(),
            all == files.deep_view(),
            entries.deep_view() == file_bins(root@, all.take(i as int), on_windows),
        decreases files@.len() - i,
    {
        let ghost before = entries.deep_view();
        proof {
            assert(all.take(i + 1).drop_last() =~= all.take(i as int));
            assert(all[i as int] == files@[i as int]@);
        }
        let file = files[i].as_str();
        match (paths::strip_base(root, file, on_windows), paths::path_file_name(file, on_windows)) {
            (Some(relative), Some(name)) => {
                let target = text::replace(relative.as_str(), '\\', "/");
                let ghost bin = (name@, target@);
                entries.push((name, target));
                assert(entries.deep_view() =~= before.push(bin));
            },
            _ => {},
        }
        i = i + 1;
    }
    assert(all.take(i as int) =~= all);
    entries
}

/// The commands of a package.
pub open spec fn bins(
    manifest_dir: Seq<char>,
    manifest: &Json,
    canonical: Map<Seq<char>, Seq<char>>,
    files: Seq<Seq<char>>,
    on_windows: bool,
) -> Seq<(Seq<char>, Seq<char>)> {
    match named_bins(manifest) {
        Some(named) => safe_bins(manifest_dir, canonical, named, on_windows),
        None => match walked_directory(manifest_dir, manifest, canonical, on_windows) {
            Some((root, _)) => file_bins(root, files, on_windows),
            None => Seq::empty(),
        },
    }
}

/// The commands of a package: those that its manifest names, or else the files
/// that were found in the directory that it names. `canonical` tells where paths
/// really lie.
pub fn collect_bin_entries(
    manifest_path: &str,
    manifest: &Json,
    canonical: &TextMap<String>,
    files: &Vec<String>,
    on_windows: bool,
) -> (entries: Vec<(String, String)>)
    ensures
        entries.deep_view() == bins(
            workspace::manifest_dir(manifest_path@, on_windows),
            manifest,
            canonical.deep_view(),
            files.deep_view(),
            on_windows,
        ),
{
    let manifest_dir = workspace::dir_of_manifest(manifest_path, on_windows);
    let named = match bins_of_manifest(manifest) {
        Some(named) => named,
        None => {
            return match bin_directory_to_walk(manifest_path, manifest, canonical, on_windows) {
                Some((root, _)) => bins_of_files(root.as_str(), files, on_windows),
                None => {
                    let none: Vec<(String, String)> = Vec::new();
                    assert(none.deep_view() =~= Seq::<(Seq<char>, Seq<char>)>::empty());
                    none
                },
            };
        },
    };
    let ghost all = named.deep_view();
    let mut entries: Vec<(String, String)> = Vec::new();
    let mut i: usize = 0;
    assert(entries.deep_view() =~= safe_bins(
        manifest_dir@,
        canonical.deep_view(),
        all.take(0),
        on_windows,
    ));
    while i < named.len()
        invariant
            i <= named@.len(),
            all == named.deep_view(),
            entries.deep_view() == safe_bins(
                manifest_dir@,
                canonical.deep_view(),
                all.take(i as int),
                on_windows,
            ),
        decreases named@.len() - i,
    {
        let ghost before = entries.deep_view();
        proof {
            assert(all.take(i + 1).drop_last() =~= all.take(i as int));
            assert(all[i as int] == (named@[i as int].0@, named@[i as int].1@));
        }
        let entry = collect_safe_bin_entry(
            manifest_dir.as_str(),
            named[i].0.as_str(),
            named[i].1.as_str(),
            canonical,
            on_windows,
        );
        if let Some(entry) = entry {
            let ghost bin = (entry.0@, entry.1@);
            entries.push(entry);
            assert(entries.deep_view() =~= before.push(bin));
        }
        i = i + 1;
    }
    assert(all.take(i as int) =~= all);
    entries
}

/// The search for commands in a directory: the root of the package, the
/// directories that are still to be looked at, those that were, and the files
/// that were found, and whether paths are those of Windows.
#[derive(Debug)]
pub struct BinWalk {
    pub root: String,
    pub pending: Vec<String>,
    pub visited: Vec<String>,
    pub files: Vec<String>,
    pub on_windows: bool,
}

/// What an entry of a directory is: a file, and where it really lies; a
/// directory; or something else.
#[derive(Debug)]
pub enum BinDirEntry {
    File { canonical: Option<String> },
    Directory,
    Other,
}

impl BinWalk {
    /// No directory was looked at twice, and everything that was found lies in
    /// the package.
    pub open spec fn well_formed(self) -> bool {
        &&& self.visited.deep_view().no_duplicates()
        &&& forall|i: int|
            0 <= i < self.visited.deep_view().len() ==> paths::is_within(
                self.root@,
                #[trigger] self.visited.deep_view()[i],
                self.on_windows,
            )
        &&& forall|i: int|
            0 <= i < self.files.deep_view().len() ==> paths::is_within(
                self.root@,
                #[trigger] self.files.deep_view()[i],
                self.on_windows,
            )
    }

    /// A search that starts at a directory.
    pub fn new(root: &str, dir: &str, on_windows: bool) -> (walk: BinWalk)
        ensures
            walk.well_formed(),
            walk.root@ == root@,
            walk.on_windows == on_windows,
            walk.pending.deep_view() == seq![dir@],
            walk.visited@.len() == 0,
            walk.files@.len() == 0,
    {
        let mut pending: Vec<String> = Vec::new();
        pending.push(text::copy(dir));
        assert(pending.deep_view() =~= seq![dir@]);
        BinWalk {
            root: text::copy(root),
            pending,
            visited: Vec::new(),
            files: Vec::new(),
            on_windows,
        }
    }

    /// The directory that is looked at next.
    pub fn next_dir(&mut self) -> (dir: Option<String>)
        requires
            old(self).well_formed(),
        ensures
            final(self).well_formed(),
            final(self).root == old(self).root,
            final(self).on_windows == old(self).on_windows,
            final(self).visited == old(self).visited,
            final(self).files == old(self).files,
            match dir {
                Some(dir) => old(self).pending.deep_view() == final(self).pending.deep_view().push(dir@),
                None => old(self).pending@.len() == 0 && final(self).pending@.len() == 0,
            },
    {
        let ghost before = self.pending.deep_view();
        match self.pending.pop() {
            Some(dir) => {
                assert(before =~= self.pending.deep_view().push(dir@));
                Some(dir)
            },
            None => None,
        }
    }

    /// Whether a directory is looked into, given where it really lies: only where
    /// that is in the package, and only once.
    pub fn enter(&mut self, canonical: Option<&str>) -> (yes: bool)
        requires
            old(self).well_formed(),
        ensures
            final(self).well_formed(),
            final(self).root == old(self).root,
            final(self).on_windows == old(self).on_windows,
            final(self).pending == old(self).pending,
            final(self).files == old(self).files,
            yes == (canonical is Some && paths::is_within(
                old(self).root@,
                canonical->0@,
                old(self).on_windows,
            ) && !old(
                self,
            ).visited.deep_view().contains(canonical->0@)),
            final(self).visited.deep_view() == (if yes {
                old(self).visited.deep_view().push(canonical->0@)
            } else {
                old(self).visited.deep_view()
            }),
    {
        match canonical {
            Some(canonical) => {
                if !paths::path_is_within(self.root.as_str(), canonical, self.on_windows)
                    || value::list_contains(&self.visited, canonical) {
                    return false;
                }
                let ghost before = self.visited.deep_view();
                self.visited.push(text::copy(canonical));
                proof {
                    assert(self.visited.deep_view() =~= before.push(canonical@));
                    assert forall|i: int, j: int|
                        0 <= i < j < before.len() + 1 implies before.push(canonical@)[i]
                        != before.push(canonical@)[j] by {
                        if j == before.len() {
                            assert(before.contains(before[i]));
                        }
                    }
                }
                true
            },
            None => false,
        }
    }

    /// Takes note of an entry of a directory that is looked into: a file of the
    /// package is a command, and a directory is looked at later.
    pub fn take_entry(&mut self, path: &str, entry: BinDirEntry)
        requires
            old(self).well_formed(),
        ensures
            final(self).well_formed(),
            final(self).root == old(self).root,
            final(self).on_windows == old(self).on_windows,
            final(self).visited == old(self).visited,
            final(self).pending.deep_view() == (if entry is Directory {
                old(self).pending.deep_view().push(path@)
            } else {
                old(self).pending.deep_view()
            }),
            final(self).files.deep_view() == (match entry {
                BinDirEntry::File { canonical: Some(file) } if paths::is_within(
                    old(self).root@,
                    file@,
                    old(self).on_windows,
                ) => old(self).files.deep_view().push(file@),
                _ => old(self).files.deep_view(),
            }),
    {
        match entry {
            BinDirEntry::File { canonical } => {
                if let Some(file) = canonical {
                    if paths::path_is_within(self.root.as_str(), file.as_str(), self.on_windows) {
                        let ghost before = self.files.deep_view();
                        let ghost place = file@;
                        self.files.push(file);
                        assert(self.files.deep_view() =~= before.push(place));
                    }
                }
            },
            BinDirEntry::Directory => {
                let ghost before = self.pending.deep_view();
                self.pending.push(text::copy(path));
                assert(self.pending.deep_view() =~= before.push(path@));
            },
            BinDirEntry::Other => {},
        }
    }
}

/// What a file name has behind its last dot; a dot at its start does not count.
pub open spec fn extension(name: Seq<char>) -> Option<Seq<char>> {
    match text::rsplit_once(name, '.') {
        Some((stem, rest)) => if stem.len() > 0 {
            Some(rest)
        } else {
            None
        },
        None => None,
    }
}

/// A file is a script for node by its name.
pub open spec fn is_script_name(path: Seq<char>, on_windows: bool) -> bool {
    match paths::file_name(path, on_windows) {
        Some(name) => match extension(name) {
            Some(rest) => rest == "js"@ || rest == "cjs"@ || rest == "mjs"@,
            None => false,
        },
        None => false,
    }
}

/// The first line of a text.
pub open spec fn first_line(content: Seq<char>) -> Seq<char> {
    match text::split_once(content, '\n') {
        Some((line, _)) => line,
        None => content,
    }
}

/// A file says that it is a script for node.
pub open spec fn says_node(content: Seq<char>) -> bool {
    text::starts_with(first_line(content), "#!"@) && text::contains_text(
        first_line(content),
        "node"@,
    )
}

/// A file is run by node, by its name or by what it says.
pub open spec fn is_run_by_node(
    target: Seq<char>,
    content: Option<Seq<char>>,
    on_windows: bool,
) -> bool {
    is_script_name(target, on_windows) || content is Some && says_node(content->0)
}

/// Whether a file is run by node, by its name or by what it says; what it says is
/// known where it could be read.
pub fn should_launch_with_node(target: &str, content: Option<&str>, on_windows: bool) -> (yes: bool)
    ensures
        yes == is_run_by_node(target@, content.deep_view(), on_windows),
{
    if let Some(name) = paths::path_file_name(target, on_windows) {
        if let Some((stem, rest)) = text::split_at_last(name.as_str(), '.') {
            let is_script = text::same_text(rest, "js") || text::same_text(rest, "cjs")
                || text::same_text(rest, "mjs");
            if stem.unicode_len() > 0 && is_script {
                return true;
            }
        }
    }
    match content {
        Some(content) => {
            let line = match text::split_at_first(content, '\n') {
                Some((line, _)) => line,
                None => content,
            };
            text::has_prefix(line, "#!") && text::has_text(line, "node")
        },
        None => false,
    }
}

/// A character that a shell takes as it is.
pub open spec fn is_shell_char(c: char) -> bool {
    is_alphanumeric(c) || c == '-' || c == '_' || c == '.' || c == '/' || c == ':' || c == '@' || c
        == '+' || c == '='
}

/// A shell takes a text as it is.
pub open spec fn is_plain(s: Seq<char>) -> bool {
    forall|i: int| 0 <= i < s.len() ==> is_shell_char(#[trigger] s[i])
}

/// What stands for a quote inside a quoted text: the text ends, a quote follows
/// in quotes of the other kind, and the text goes on.
pub open spec fn quoted_quote() -> Seq<char> {
    "'\"'\"'"@
}

/// A text as it is written for a shell.
pub open spec fn quoted(s: Seq<char>) -> Seq<char> {
    if s.len() == 0 {
        "''"@
    } else if is_plain(s) {
        s
    } else {
        "'"@ + text::replace_char(s, '\'', quoted_quote()) + "'"@
    }
}

/// A text as it is written for a shell.
pub fn shell_quote_posix(input: &str) -> (s: String)
    ensures
        s@ == quoted(input@),
{
    let n: usize = input.unicode_len();
    if n == 0 {
        return text::copy("''");
    }
    let mut i: usize = 0;
    while i < n
        invariant
            i <= n,
            n == input@.len(),
            n > 0,
            forall|j: int| 0 <= j < i ==> is_shell_char(#[trigger] input@[j]),
        decreases n - i,
    {
        let c = input.get_char(i);
        let fits = alphanumeric(c) || c == '-' || c == '_' || c == '.' || c == '/' || c == ':' || c
            == '@' || c == '+' || c == '=';
        if !fits {
            assert(!is_shell_char(input@[i as int]));
            return text::copy("'").concat(
                text::replace(input, '\'', "'\"'\"'").as_str(),
            ).concat("'");
        }
        i = i + 1;
    }
    text::copy(input)
}

/// How a shell is reading a word.
pub enum Quote {
    Bare,
    Single,
    Double,
}

/// The word that a shell reads; none where a quote is left open, or where a
/// character would be more than itself.
pub open spec fn shell_word(s: Seq<char>, quote: Quote) -> Option<Seq<char>>
    decreases s.len(),
{
    if s.len() == 0 {
        if quote is Bare {
            Some(Seq::empty())
        } else {
            None
        }
    } else {
        let rest = text::tail(s, 1);
        match quote {
            Quote::Bare => if s[0] == '\'' {
                shell_word(rest, Quote::Single)
            } else if s[0] == '"' {
                shell_word(rest, Quote::Double)
            } else if is_shell_char(s[0]) {
                with_first(s[0], shell_word(rest, Quote::Bare))
            } else {
                None
            },
            Quote::Single => if s[0] == '\'' {
                shell_word(rest, Quote::Bare)
            } else {
                with_first(s[0], shell_word(rest, Quote::Single))
            },
            Quote::Double => if s[0] == '"' {
                shell_word(rest, Quote::Bare)
            } else if s[0] == '$' || s[0] == '`' || s[0] == '\\' {
                None
            } else {
                with_first(s[0], shell_word(rest, Quote::Double))
            },
        }
    }
}

/// A word with one more character at its start.
pub open spec fn with_first(c: char, word: Option<Seq<char>>) -> Option<Seq<char>> {
    match word {
        Some(word) => Some(seq![c] + word),
        None => None,
    }
}

/// A word with more in front of it.
spec fn with_front(front: Seq<char>, word: Option<Seq<char>>) -> Option<Seq<char>> {
    match word {
        Some(word) => Some(front + word),
        None => None,
    }
}

proof fn lemma_plain_word(s: Seq<char>)
    requires
        is_plain(s),
    ensures
        shell_word(s, Quote::Bare) == Some(s),
    decreases s.len(),
{
    if s.len() > 0 {
        let rest = text::tail(s, 1);
        assert(is_shell_char(s[0]));
        assert forall|i: int| 0 <= i < rest.len() implies is_shell_char(#[trigger] rest[i]) by {
            assert(is_shell_char(s[i + 1]));
        }
        lemma_plain_word(rest);
        assert(seq![s[0]] + rest =~= s);
    }
}

proof fn lemma_quote_read(t: Seq<char>)
    ensures
        shell_word(quoted_quote() + t, Quote::Single) == with_first(
            '\'',
            shell_word(t, Quote::Single),
        ),
{
    reveal_strlit("'\"'\"'");
    let s0 = quoted_quote() + t;
    let s1 = text::tail(s0, 1);
    let s2 = text::tail(s1, 1);
    let s3 = text::tail(s2, 1);
    let s4 = text::tail(s3, 1);
    let s5 = text::tail(s4, 1);
    assert(s5 =~= t);
    assert(s0[0] == '\'' && s1[0] == '"' && s2[0] == '\'' && s3[0] == '"' && s4[0] == '\'');
    assert(shell_word(s4, Quote::Bare) == shell_word(s5, Quote::Single));
    assert(shell_word(s3, Quote::Double) == shell_word(s4, Quote::Bare));
    assert(shell_word(s2, Quote::Double) == with_first('\'', shell_word(s3, Quote::Double)));
    assert(shell_word(s1, Quote::Bare) == shell_word(s2, Quote::Double));
    assert(shell_word(s0, Quote::Single) == shell_word(s1, Quote::Bare));
}

proof fn lemma_quoted_word(s: Seq<char>, t: Seq<char>)
    ensures
        shell_word(
            text::replace_char(s, '\'', quoted_quote()) + t,
            Quote::Single,
        ) == with_front(s, shell_word(t, Quote::Single)),
    decreases s.len(),
{
    if s.len() == 0 {
        assert(text::replace_char(s, '\'', quoted_quote()) + t =~= t);
        if shell_word(t, Quote::Single) is Some {
            assert(s + shell_word(t, Quote::Single)->0 =~= shell_word(t, Quote::Single)->0);
        }
    } else {
        let front = text::replace_char(s.drop_last(), '\'', quoted_quote());
        let c = s.last();
        if c == '\'' {
            let more = quoted_quote() + t;
            assert(text::replace_char(s, '\'', quoted_quote()) + t =~= front + more);
            lemma_quoted_word(s.drop_last(), more);
            lemma_quote_read(t);
        } else {
            let more = seq![c] + t;
            assert(text::replace_char(s, '\'', quoted_quote()) + t =~= front + more);
            lemma_quoted_word(s.drop_last(), more);
            assert(text::tail(more, 1) =~= t);
            assert(shell_word(more, Quote::Single) == with_first(c, shell_word(t, Quote::Single)));
        }
        if shell_word(t, Quote::Single) is Some {
            let word = shell_word(t, Quote::Single)->0;
            assert(s.drop_last() + (seq![c] + word) =~= s + word);
        }
    }
}

/// A shell reads from a quoted text that very text.
pub proof fn law_shell_reads_what_was_quoted(s: Seq<char>)
    ensures
        shell_word(quoted(s), Quote::Bare) == Some(s),
{
    reveal_strlit("'");
    reveal_strlit("''");
    if s.len() == 0 {
        let rest = text::tail("''"@, 1);
        assert(rest.len() == 1 && rest[0] == '\'');
        assert(text::tail(rest, 1).len() == 0);
        assert(shell_word(text::tail(rest, 1), Quote::Bare) == Some(Seq::<char>::empty()));
        assert(shell_word(rest, Quote::Single) == Some(Seq::<char>::empty()));
        assert(s =~= Seq::<char>::empty());
    } else if is_plain(s) {
        lemma_plain_word(s);
    } else {
        let inner = text::replace_char(s, '\'', quoted_quote());
        assert(text::tail(quoted(s), 1) =~= inner + "'"@);
        lemma_quoted_word(s, "'"@);
        assert(text::tail("'"@, 1).len() == 0);
        assert(shell_word(text::tail("'"@, 1), Quote::Bare) == Some(Seq::<char>::empty()));
        assert(shell_word("'"@, Quote::Single) == Some(Seq::<char>::empty()));
        assert(s + Seq::<char>::empty() =~= s);
    }
}

/// What runs a command on Unix.
pub open spec fn unix_wrapper(target: Seq<char>, use_node: bool) -> Seq<char> {
    if use_node {
        "#!/bin/sh\nexec node "@ + quoted(target) + " \"$@\"\n"@
    } else {
        "#!/bin/sh\nexec "@ + quoted(target) + " \"$@\"\n"@
    }
}

/// What runs a command on Unix.
pub fn create_unix_wrapper(target: &str, use_node: bool) -> (script: String)
    ensures
        script@ == unix_wrapper(target@, use_node),
{
    let head = if use_node {
        text::copy("#!/bin/sh\nexec node ")
    } else {
        text::copy("#!/bin/sh\nexec ")
    };
    head.concat(shell_quote_posix(target).as_str()).concat(" \"$@\"\n")
}

/// What runs a command on Windows, for the command line.
pub open spec fn cmd_wrapper(target: Seq<char>, use_node: bool) -> Seq<char> {
    let path = text::replace_char(target, '"', "\"\""@);
    if use_node {
        "@ECHO off\r\nnode \""@ + path + "\" %*\r\n"@
    } else {
        "@ECHO off\r\n\""@ + path + "\" %*\r\n"@
    }
}

/// What runs a command on Windows, for the command line.
pub fn create_windows_cmd_wrapper(target: &str, use_node: bool) -> (script: String)
    ensures
        script@ == cmd_wrapper(target@, use_node),
{
    let head = if use_node {
        text::copy("@ECHO off\r\nnode \"")
    } else {
        text::copy("@ECHO off\r\n\"")
    };
    head.concat(text::replace(target, '"', "\"\"").as_str()).concat("\" %*\r\n")
}

/// What runs a command on Windows, for PowerShell.
pub open spec fn ps1_wrapper(target: Seq<char>, use_node: bool) -> Seq<char> {
    let path = text::replace_char(target, '\'', "''"@);
    if use_node {
        "& node '"@ + path + "' @args\r\n"@
    } else {
        "& '"@ + path + "' @args\r\n"@
    }
}

/// What runs a command on Windows, for PowerShell.
pub fn create_windows_ps1_wrapper(target: &str, use_node: bool) -> (script: String)
    ensures
        script@ == ps1_wrapper(target@, use_node),
{
    let head = if use_node {
        text::copy("& node '")
    } else {
        text::copy("& '")
    };
    head.concat(text::replace(target, '\'', "''").as_str()).concat("' @args\r\n")
}

/// What is put where commands are looked for: a link to the file, or a script
/// that runs it.
#[allow(inconsistent_fields)]
#[derive(Debug)]
pub enum BinFile {
    Symlink { path: String, target: String },
    Script { path: String, content: String },
}

/// What is put where commands are looked for: a link to a command, or a script that runs
/// it.
pub open spec fn is_unix_bin(
    file: BinFile,
    config: Npmrc,
    bin_dir: Seq<char>,
    bin_name: Seq<char>,
    target: Seq<char>,
    use_node: bool,
    on_windows: bool,
) -> bool {
    match file {
        BinFile::Symlink { path, target: linked } => {
            &&& config.links_executables() && !use_node
            &&& path@ == paths::joined(bin_dir, bin_name, on_windows)
            &&& linked@ == target
        },
        BinFile::Script { path, content } => {
            &&& !config.links_executables() || use_node
            &&& path@ == paths::joined(bin_dir, bin_name, on_windows)
            &&& content@ == unix_wrapper(target, use_node)
        },
    }
}

/// What is put where commands are looked for on Unix. A script for node is
/// wrapped in any case.
pub fn unix_bin_file(
    config: &Npmrc,
    bin_dir: &str,
    bin_name: &str,
    target: &str,
    use_node: bool,
    on_windows: bool,
) -> (file: BinFile)
    ensures
        is_unix_bin(file, *config, bin_dir@, bin_name@, target@, use_node, on_windows),
{
    let path = paths::join_paths(bin_dir, bin_name, on_windows);
    if config.prefer_symlinked_executables_enabled() && !use_node {
        BinFile::Symlink { path, target: text::copy(target) }
    } else {
        BinFile::Script { path, content: create_unix_wrapper(target, use_node) }
    }
}

/// What is put where commands are looked for on Windows: a script for the
/// command line and one for PowerShell.
pub open spec fn windows_files(
    bin_dir: Seq<char>,
    bin_name: Seq<char>,
    target: Seq<char>,
    use_node: bool,
    on_windows: bool,
) -> Seq<(Seq<char>, Seq<char>)> {
    let place = modules_manifest::without_verbatim_prefix(target);
    seq![
        (paths::joined(bin_dir, bin_name + ".cmd"@, on_windows), cmd_wrapper(place, use_node)),
        (paths::joined(bin_dir, bin_name + ".ps1"@, on_windows), ps1_wrapper(place, use_node)),
    ]
}

/// What is put where commands are looked for on Windows.
pub fn windows_bin_files(
    bin_dir: &str,
    bin_name: &str,
    target: &str,
    use_node: bool,
    on_windows: bool,
) -> (files: Vec<
    (String, String),
>)
    ensures
        files.deep_view() == windows_files(bin_dir@, bin_name@, target@, use_node, on_windows),
{
    let place = modules_manifest::normalize_windows_verbatim_path(target);
    let cmd = text::copy(bin_name).concat(".cmd");
    let ps1 = text::copy(bin_name).concat(".ps1");
    let mut files: Vec<(String, String)> = Vec::new();
    files.push(
        (
            paths::join_paths(bin_dir, cmd.as_str(), on_windows),
            create_windows_cmd_wrapper(place.as_str(), use_node),
        ),
    );
    files.push(
        (
            paths::join_paths(bin_dir, ps1.as_str(), on_windows),
            create_windows_ps1_wrapper(place.as_str(), use_node),
        ),
    );
    assert(files.deep_view() =~= windows_files(bin_dir@, bin_name@, target@, use_node, on_windows));
    files
}

/// What is told about a command whose file is not there.
pub fn missing_bin_target(target: &str) -> (message: String)
    ensures
        message@ == "bin target does not exist: "@ + target@,
{
    text::copy("bin target does not exist: ").concat(target)
}

/// Where commands are put.
pub fn bin_dir_of(config: &Npmrc, on_windows: bool) -> (dir: String)
    ensures
        dir@ == paths::joined(config.modules_dir@, ".bin"@, on_windows),
{
    paths::join_paths(config.modules_dir.as_str(), ".bin", on_windows)
}

/// The packages whose commands are linked: the direct dependencies in order,
/// each once.
pub open spec fn bin_package_dirs(
    config: Npmrc,
    manifest: &Json,
    groups: Seq<DependencyGroup>,
    on_windows: bool,
) -> Seq<Seq<char>> {
    sorted::in_order(
        pnpmfile::wishes(manifest, groups).map_values(|wish: pnpmfile::Wish| wish.1).to_set(),
    ).map_values(|name: Seq<char>| paths::joined(config.modules_dir@, name, on_windows))
}

/// The packages whose commands are linked.
pub fn bin_packages(
    config: &Npmrc,
    manifest: &Json,
    dependency_groups: &Vec<DependencyGroup>,
    on_windows: bool,
) -> (dirs:
    Vec<String>)
    ensures
        dirs.deep_view() == bin_package_dirs(*config, manifest, dependency_groups@, on_windows),
{
    let names = sorted::sorted_texts(
        &install::direct_dependency_names(manifest, dependency_groups),
    );
    let ghost all = bin_package_dirs(*config, manifest, dependency_groups@, on_windows);
    let mut dirs: Vec<String> = Vec::new();
    let mut i: usize = 0;
    while i < names.len()
        invariant
            i <= names@.len(),
            all == names.deep_view().map_values(
                |name: Seq<char>| paths::joined(config.modules_dir@, name, on_windows),
            ),
            dirs.deep_view() == all.take(i as int),
        decreases names@.len() - i,
    {
        let ghost before = dirs.deep_view();
        dirs.push(paths::join_paths(config.modules_dir.as_str(), names[i].as_str(), on_windows));
        proof {
            assert(names.deep_view()[i as int] == names@[i as int]@);
            assert(all.take(i + 1) =~= all.take(i as int).push(all[i as int]));
            assert(dirs.deep_view() =~= before.push(all[i as int]));
        }
        i = i + 1;
    }
    assert(all.take(i as int) =~= all);
    dirs
}

proof fn lemma_safe_bins(
    manifest_dir: Seq<char>,
    canonical: Map<Seq<char>, Seq<char>>,
    bins: Seq<(Seq<char>, Seq<char>)>,
    i: int,
    on_windows: bool,
)
    requires
        0 <= i < safe_bins(manifest_dir, canonical, bins, on_windows).len(),
    ensures
        ({
            let bin = safe_bins(manifest_dir, canonical, bins, on_windows)[i];
            is_bin_name(bin.0) && really_within(
                canonical,
                manifest_dir,
                paths::joined(manifest_dir, bin.1, on_windows),
                on_windows,
            )
        }),
    decreases bins.len(),
{
    if i < safe_bins(manifest_dir, canonical, bins.drop_last(), on_windows).len() {
        lemma_safe_bins(manifest_dir, canonical, bins.drop_last(), i, on_windows);
    }
}

proof fn lemma_same_bins(
    manifest_dir: Seq<char>,
    canonical: Map<Seq<char>, Seq<char>>,
    other: Map<Seq<char>, Seq<char>>,
    bins: Seq<(Seq<char>, Seq<char>)>,
    on_windows: bool,
)
    requires
        real_path(canonical, manifest_dir) == real_path(other, manifest_dir),
        forall|i: int|
            0 <= i < bins.len() ==> real_path(
                canonical,
                paths::joined(manifest_dir, (#[trigger] bins[i]).1, on_windows),
            ) == real_path(other, paths::joined(manifest_dir, bins[i].1, on_windows)),
    ensures
        safe_bins(
            manifest_dir,
            canonical,
            bins,
            on_windows,
        ) == safe_bins(manifest_dir, other, bins, on_windows),
    decreases bins.len(),
{
    if bins.len() > 0 {
        let rest = bins.drop_last();
        assert forall|i: int| 0 <= i < rest.len() implies real_path(
            canonical,
            paths::joined(manifest_dir, (#[trigger] rest[i]).1, on_windows),
        ) == real_path(other, paths::joined(manifest_dir, rest[i].1, on_windows)) by {
            assert(rest[i] == bins[i]);
        }
        lemma_same_bins(manifest_dir, canonical, other, rest, on_windows);
        assert(bins.last() == bins[bins.len() - 1]);
    }
}

/// The commands of a package are decided by its manifest, by the files that were
/// found and by where the probes really lie.
pub proof fn law_probes_decide_bins(
    manifest_dir: Seq<char>,
    manifest: &Json,
    canonical: Map<Seq<char>, Seq<char>>,
    other: Map<Seq<char>, Seq<char>>,
    files: Seq<Seq<char>>,
    on_windows: bool,
)
    requires
        forall|path: Seq<char>| #[trigger]
            bin_paths(
                manifest_dir,
                manifest,
                on_windows,
            ).contains(path) ==> real_path(canonical, path)
                == real_path(other, path),
    ensures
        bins(manifest_dir, manifest, canonical, files, on_windows) == bins(
            manifest_dir,
            manifest,
            other,
            files,
            on_windows,
        ),
{
    let probes = bin_paths(manifest_dir, manifest, on_windows);
    match named_bins(manifest) {
        Some(named) => {
            assert(probes[0] == manifest_dir);
            assert(probes.contains(manifest_dir));
            assert forall|i: int| 0 <= i < named.len() implies real_path(
                canonical,
                paths::joined(manifest_dir, (#[trigger] named[i]).1, on_windows),
            ) == real_path(other, paths::joined(manifest_dir, named[i].1, on_windows)) by {
                let path = paths::joined(manifest_dir, named[i].1, on_windows);
                assert(probes[i + 1] == path);
                assert(probes.contains(path));
            }
            lemma_same_bins(manifest_dir, canonical, other, named, on_windows);
        },
        None => {
            if let Some(dir) = bin_directory(manifest) {
                let path = paths::joined(manifest_dir, dir, on_windows);
                assert(probes[0] == manifest_dir);
                assert(probes[1] == path);
                assert(probes.contains(manifest_dir));
                assert(probes.contains(path));
            }
        },
    }
}

/// Every command that a manifest names and that is linked has a safe name, and
/// its file really lies in the package.
pub proof fn law_linked_bins_lie_in_the_package(
    manifest_dir: Seq<char>,
    manifest: &Json,
    canonical: Map<Seq<char>, Seq<char>>,
    files: Seq<Seq<char>>,
    i: int,
    on_windows: bool,
)
    requires
        named_bins(manifest) is Some,
        0 <= i < bins(manifest_dir, manifest, canonical, files, on_windows).len(),
    ensures
        is_bin_name(bins(manifest_dir, manifest, canonical, files, on_windows)[i].0),
        really_within(
            canonical,
            manifest_dir,
            paths::joined(
                manifest_dir,
                bins(manifest_dir, manifest, canonical, files, on_windows)[i].1,
                on_windows,
            ),
            on_windows,
        ),
{
    lemma_safe_bins(manifest_dir, canonical, named_bins(manifest)->0, i, on_windows);
}

proof fn lemma_safe_bins_hold(
    manifest_dir: Seq<char>,
    canonical: Map<Seq<char>, Seq<char>>,
    bins: Seq<(Seq<char>, Seq<char>)>,
    on_windows: bool,
    i: int,
    bin: (Seq<char>, Seq<char>),
)
    ensures
        0 <= i < bins.len() && safe_bin(manifest_dir, canonical, bins[i], on_windows) == Some(bin)
            ==> safe_bins(manifest_dir, canonical, bins, on_windows).contains(bin),
        safe_bins(manifest_dir, canonical, bins, on_windows).contains(bin) ==> exists|k: int|
            0 <= k < bins.len() && safe_bin(
                manifest_dir,
                canonical,
                #[trigger] bins[k],
                on_windows,
            ) == Some(bin),
    decreases bins.len(),
{
    if bins.len() > 0 {
        let rest = bins.drop_last();
        lemma_safe_bins_hold(manifest_dir, canonical, rest, on_windows, i, bin);
        let before = safe_bins(manifest_dir, canonical, rest, on_windows);
        assert(bins[bins.len() - 1] == bins.last());
        if i < rest.len() && 0 <= i {
            assert(rest[i] == bins[i]);
        }
        if before.contains(bin) {
            let k = choose|k: int|
                0 <= k < rest.len() && safe_bin(
                    manifest_dir,
                    canonical,
                    #[trigger] rest[k],
                    on_windows,
                ) == Some(bin);
            assert(bins[k] == rest[k]);
        }
        if let Some(last) = safe_bin(manifest_dir, canonical, bins.last(), on_windows) {
            crate::reach::lemma_push_contains(before, last);
            assert(before.push(last).contains(bin) <==> before.contains(bin) || bin == last);
        }
    }
}

/// A command that a package names is linked by its name, without its scope, exactly where
/// the name holds nothing but letters, digits and a few signs, or is `$`, and the file that
/// it leads to really lies in the package.
pub proof fn law_named_commands_are_linked(
    entries: Seq<(Seq<char>, Seq<char>)>,
    manifest_dir: Seq<char>,
    canonical: Map<Seq<char>, Seq<char>>,
    named: Seq<(Seq<char>, Seq<char>)>,
    on_windows: bool,
    i: int,
    scope: Seq<char>,
    name: Seq<char>,
)
    requires
        entries == safe_bins(manifest_dir, canonical, named, on_windows),
        0 <= i < named.len(),
        named[i].0 == name && name.len() > 0 && name[0] != '@' || named[i].0 == seq!['@'] + scope
            + seq!['/'] + name && !scope.contains('/'),
    ensures
        ({
            let place = paths::joined(manifest_dir, named[i].1, on_windows);
            let safe = name == "$"@ || forall|k: int|
                0 <= k < name.len() ==> is_alphanumeric(#[trigger] name[k]) || "-_.!~*'()"@.contains(
                    name[k],
                );
            safe && canonical.dom().contains(manifest_dir) && canonical.dom().contains(place)
                && paths::is_within(canonical[manifest_dir], canonical[place], on_windows)
                ==> entries.contains((name, named[i].1))
        }),
        forall|bin: (Seq<char>, Seq<char>)| #[trigger]
            entries.contains(bin) ==> canonical.dom().contains(
                paths::joined(manifest_dir, bin.1, on_windows),
            ) && paths::is_within(
                canonical[manifest_dir],
                canonical[paths::joined(manifest_dir, bin.1, on_windows)],
                on_windows,
            ) && (bin.0 == "$"@ || forall|k: int|
                0 <= k < bin.0.len() ==> is_alphanumeric(#[trigger] bin.0[k])
                    || "-_.!~*'()"@.contains(bin.0[k])),
{
    reveal_strlit("@");
    reveal_strlit("-_.!~*'()");
    let signs = "-_.!~*'()"@;
    assert(signs[0] == '-' && signs[1] == '_' && signs[2] == '.' && signs[3] == '!' && signs[4]
        == '~' && signs[5] == '*' && signs[6] == '\'' && signs[7] == '(' && signs[8] == ')');
    assert(signs.len() == 9);
    assert forall|c: char| #[trigger] signs.contains(c) <==> (c == '-' || c == '_' || c == '.' || c
        == '!' || c == '~' || c == '*' || c == '\'' || c == '(' || c == ')') by {
        if signs.contains(c) {
            let k = signs.index_of(c);
            assert(signs[k] == c);
        }
    }
    assert("@"@ =~= seq!['@']);
    let command = named[i].0;
    if command == name && name.len() > 0 && name[0] != '@' {
        if text::starts_with(name, "@"@) {
            assert(name.subrange(0, 1)[0] == name[0]);
        }
        assert(unscoped(command) == Some(name));
    } else {
        assert(command.subrange(0, 1) =~= "@"@);
        let rest = scope + seq!['/'] + name;
        assert(text::tail(command, 1) =~= rest);
        assert forall|k: int| 0 <= k < scope.len() implies rest[k] != '/' by {
            assert(scope.contains(scope[k]));
        }
        text::lemma_first_index_is(rest, '/', scope.len() as int);
        assert(text::tail(rest, (scope.len() + 1) as int) =~= name);
        assert(unscoped(command) == Some(name));
    }
    lemma_safe_bins_hold(manifest_dir, canonical, named, on_windows, i, (name, named[i].1));
    assert forall|bin: (Seq<char>, Seq<char>)| #[trigger]
        entries.contains(bin) implies canonical.dom().contains(
        paths::joined(manifest_dir, bin.1, on_windows),
    ) && paths::is_within(
        canonical[manifest_dir],
        canonical[paths::joined(manifest_dir, bin.1, on_windows)],
        on_windows,
    ) && (bin.0 == "$"@ || forall|k: int|
        0 <= k < bin.0.len() ==> is_alphanumeric(#[trigger] bin.0[k]) || signs.contains(
            bin.0[k],
        )) by {
        lemma_safe_bins_hold(manifest_dir, canonical, named, on_windows, i, bin);
    }
}

/// The commands of a package are those that it names, and the files of the directory that
/// it names for them only where it names none; one without a name of its own goes by that
/// of the package, without its scope.
pub proof fn law_commands_of_a_manifest(
    manifest: &Json,
    target: Seq<char>,
    package_name: Seq<char>,
    manifest_dir: Seq<char>,
    canonical: Map<Seq<char>, Seq<char>>,
    on_windows: bool,
)
    ensures
        match (json::child(manifest, "bin"@), json::child(manifest, "name"@)) {
            (Some(Json::Text(file)), Some(Json::Text(name))) => named_bins(manifest) == Some(
                seq![(default_name(name@), file@)],
            ),
            _ => true,
        },
        json::child(manifest, "bin"@) is Some && (json::child(manifest, "bin"@)->0 is Text
            || json::child(manifest, "bin"@)->0 is Object) ==> walked_directory(
            manifest_dir,
            manifest,
            canonical,
            on_windows,
        ) is None,
        !target.contains('/') ==> default_name(package_name.push('/') + target) == target,
        !target.contains('/') ==> default_name(target) == target,
{
    if !target.contains('/') {
        let whole = package_name.push('/') + target;
        let m = package_name.len() as int;
        assert forall|k: int| m < k < whole.len() implies whole[k] != '/' by {
            assert(whole[k] == target[k - m - 1]);
            assert(target.contains(target[k - m - 1]));
        }
        text::lemma_last_index_is(whole, '/', m);
        assert(text::tail(whole, m + 1) =~= target);
        assert forall|k: int| 0 <= k < target.len() implies target[k] != '/' by {
            assert(target.contains(target[k]));
        }
        text::lemma_last_index(target, '/');
        assert(text::last_index(target, '/') == -1);
    }
}

/// A file is run by node where its name ends like that of a script or its first line asks
/// for node; nothing else is.
pub proof fn law_scripts_are_run_by_node(
    yes: bool,
    target: Seq<char>,
    content: Option<Seq<char>>,
    on_windows: bool,
    stem: Seq<char>,
)
    requires
        yes == is_run_by_node(target, content, on_windows),
    ensures
        stem.len() > 0 && (paths::file_name(target, on_windows) == Some(stem + ".js"@)
            || paths::file_name(target, on_windows) == Some(stem + ".cjs"@) || paths::file_name(
            target,
            on_windows,
        ) == Some(stem + ".mjs"@)) ==> yes,
        content is Some && text::starts_with(content->0, "#!"@) && !content->0.contains('\n')
            && text::contains_text(content->0, "node"@) ==> yes,
        paths::file_name(target, on_windows) is None && content is None ==> !yes,
        paths::file_name(target, on_windows) is None && content is Some && !text::starts_with(
            content->0,
            "#!"@,
        ) ==> !yes,
{
    reveal_strlit(".js");
    reveal_strlit(".cjs");
    reveal_strlit(".mjs");
    reveal_strlit("js");
    reveal_strlit("cjs");
    reveal_strlit("mjs");
    reveal_strlit("#!");
    let m = stem.len() as int;
    text::lemma_last_index_is(stem + ".js"@, '.', m);
    text::lemma_last_index_is(stem + ".cjs"@, '.', m);
    text::lemma_last_index_is(stem + ".mjs"@, '.', m);
    assert((stem + ".js"@).subrange(0, m) =~= stem);
    assert((stem + ".cjs"@).subrange(0, m) =~= stem);
    assert((stem + ".mjs"@).subrange(0, m) =~= stem);
    assert(text::tail(stem + ".js"@, m + 1) =~= "js"@);
    assert(text::tail(stem + ".cjs"@, m + 1) =~= "cjs"@);
    assert(text::tail(stem + ".mjs"@, m + 1) =~= "mjs"@);
    if let Some(said) = content {
        text::lemma_first_index(said, '\n');
        if !said.contains('\n') {
            assert(text::first_index(said, '\n') == said.len());
            assert(first_line(said) == said);
        }
        let i = text::first_index(said, '\n');
        if text::split_once(said, '\n') is Some && text::starts_with(first_line(said), "#!"@) {
            assert(first_line(said) =~= said.subrange(0, i));
            assert(said.subrange(0, 2) =~= first_line(said).subrange(0, 2));
        }
    }
}

/// A command is linked to where links are preferred and node need not run it; else a
/// script runs it, with node where that has to, and hands every argument on.
pub proof fn law_commands_are_put_in_place(
    file: BinFile,
    config: Npmrc,
    bin_dir: Seq<char>,
    bin_name: Seq<char>,
    target: Seq<char>,
    use_node: bool,
    on_windows: bool,
)
    requires
        is_unix_bin(file, config, bin_dir, bin_name, target, use_node, on_windows),
    ensures
        ({
            let prefers = match config.prefer_symlinked_executables {
                Some(prefers) => prefers,
                None => config.node_linker is Hoisted,
            };
            &&& file is Symlink <==> prefers && !use_node
            &&& file matches BinFile::Symlink { path, target: linked } ==> path@ == paths::joined(
                bin_dir,
                bin_name,
                on_windows,
            ) && linked@ == target
            &&& file matches BinFile::Script { path, content } ==> path@ == paths::joined(
                bin_dir,
                bin_name,
                on_windows,
            ) && content@ == "#!/bin/sh\nexec "@ + (if use_node {
                "node "@
            } else {
                Seq::empty()
            }) + quoted(target) + " \"$@\"\n"@
        }),
{
    reveal_strlit("#!/bin/sh\nexec node ");
    reveal_strlit("#!/bin/sh\nexec ");
    reveal_strlit("node ");
    assert("#!/bin/sh\nexec node "@ =~= "#!/bin/sh\nexec "@ + "node "@);
    assert("#!/bin/sh\nexec "@ + Seq::<char>::empty() =~= "#!/bin/sh\nexec "@);
}

/// Commands are looked for in every direct dependency that is installed, where
/// `node_modules` has it.
pub proof fn law_commands_of_all_direct_dependencies(
    dirs: Seq<Seq<char>>,
    config: Npmrc,
    manifest: &Json,
    groups: Seq<DependencyGroup>,
    on_windows: bool,
    wish: pnpmfile::Wish,
)
    requires
        dirs == bin_package_dirs(config, manifest, groups, on_windows),
        pnpmfile::wishes(manifest, groups).contains(wish),
    ensures
        dirs.contains(paths::joined(config.modules_dir@, wish.1, on_windows)),
{
    let all = pnpmfile::wishes(manifest, groups);
    let names = all.map_values(|wish: pnpmfile::Wish| wish.1);
    let i = all.index_of(wish);
    assert(names[i] == wish.1);
    assert(names.to_set().contains(wish.1));
    vstd::seq_lib::seq_to_set_is_finite(names);
    sorted::lemma_listed(names.to_set());
    let listed = sorted::in_order(names.to_set());
    assert(listed.to_set().contains(wish.1));
    let k = listed.index_of(wish.1);
    assert(dirs[k] == paths::joined(config.modules_dir@, wish.1, on_windows));
}

} // verus!
