//! The patches that a project has for packages.
use crate::json;
use crate::json::Json;
use crate::json::JsonModel;
use crate::paths;
use crate::semver;
use crate::semver::{Version, VersionModel};
use crate::sorted;
use crate::table;
use crate::table::{Table, TextMap};
use crate::text;
use crate::value::Value;
use vstd::prelude::*;
use vstd::string::*;

verus! {

/// A patch for a package: under which key the project has it, where it lies, and
/// whether it has to fit.
#[derive(Debug)]
pub struct SelectedPatch {
    pub key: String,
    pub file: String,
    pub strict: bool,
}

/// The mathematical value of a [`SelectedPatch`].
pub struct PatchModel {
    pub key: Seq<char>,
    pub file: Seq<char>,
    pub strict: bool,
}

impl DeepView for SelectedPatch {
    type V = PatchModel;

    open spec fn deep_view(&self) -> PatchModel {
        PatchModel { key: self.key@, file: self.file@, strict: self.strict }
    }
}

impl Value for SelectedPatch {
    fn duplicate(&self) -> SelectedPatch {
        SelectedPatch { key: self.key.clone(), file: self.file.clone(), strict: self.strict }
    }

    fn same(&self, other: &SelectedPatch) -> bool {
        self.key.same(&other.key) && self.file.same(&other.file) && self.strict == other.strict
    }
}

/// The patches for one package: for single versions, for ranges of versions, and
/// for all of them.
#[derive(Debug)]
pub struct PatchGroup {
    pub exact: TextMap<SelectedPatch>,
    pub range: Vec<(String, SelectedPatch)>,
    pub all: Option<SelectedPatch>,
}

/// The mathematical value of a [`PatchGroup`].
#[verifier::ext_equal]
pub struct GroupModel {
    pub exact: Map<Seq<char>, PatchModel>,
    pub range: Seq<(Seq<char>, PatchModel)>,
    pub all: Option<PatchModel>,
}

impl DeepView for PatchGroup {
    type V = GroupModel;

    open spec fn deep_view(&self) -> GroupModel {
        GroupModel {
            exact: self.exact.deep_view(),
            range: self.range.deep_view(),
            all: self.all.deep_view(),
        }
    }
}

impl Value for PatchGroup {
    fn duplicate(&self) -> PatchGroup {
        PatchGroup {
            exact: self.exact.duplicate(),
            range: self.range.duplicate(),
            all: self.all.duplicate(),
        }
    }

    fn same(&self, other: &PatchGroup) -> bool {
        self.exact.same(&other.exact) && self.range.same(&other.range) && self.all.same(&other.all)
    }
}

/// The patches of a project by the names of the packages.
pub type PatchGroups = TextMap<PatchGroup>;

/// What a key of the patches stands for: the name of a package, and which of its
/// versions.
pub open spec fn patch_target(key: Seq<char>) -> (Seq<char>, Option<Seq<char>>) {
    let scoped = match text::stripped_prefix(key, "@"@) {
        Some(rest) => match text::split_once(rest, '/') {
            Some((scope, tail)) => match text::rsplit_once(tail, '@') {
                Some((name, version)) => if version.len() > 0 {
                    Some(("@"@ + scope + "/"@ + name, version))
                } else {
                    None
                },
                None => None,
            },
            None => None,
        },
        None => None,
    };
    match scoped {
        Some((name, version)) => (name, Some(version)),
        None => match text::rsplit_once(key, '@') {
            Some((name, version)) => if name.len() > 0 && version.len() > 0 {
                (name, Some(version))
            } else {
                (key, None)
            },
            None => (key, None),
        },
    }
}

/// What a key of the patches stands for.
pub fn parse_patched_dependency_key(key: &str) -> (target: (String, Option<String>))
    ensures
        (target.0@, target.1.deep_view()) == patch_target(key@),
{
    if let Some(rest) = text::strip_prefix(key, "@") {
        if let Some((scope, tail)) = text::split_at_first(rest, '/') {
            if let Some((name, version)) = text::split_at_last(tail, '@') {
                if version.unicode_len() > 0 {
                    return (
                        text::copy("@").concat(scope).concat("/").concat(name),
                        Some(text::copy(version)),
                    );
                }
            }
        }
    }
    if let Some((name, version)) = text::split_at_last(key, '@') {
        if name.unicode_len() > 0 && version.unicode_len() > 0 {
            return (text::copy(name), Some(text::copy(version)));
        }
    }
    (text::copy(key), None)
}

/// Where a patch lies.
pub fn resolve_patch_file(lockfile_dir: &str, file: &str, on_windows: bool) -> (path: String)
    ensures
        path@ == paths::joined(lockfile_dir@, file@, on_windows),
{
    paths::join_paths(lockfile_dir, file, on_windows)
}

/// No patches.
pub open spec fn no_patches() -> GroupModel {
    GroupModel { exact: Map::empty(), range: Seq::empty(), all: None }
}

/// The patches for one package, so far.
pub open spec fn patches_so_far(groups: Map<Seq<char>, GroupModel>, name: Seq<char>) -> GroupModel {
    if groups.dom().contains(name) {
        groups[name]
    } else {
        no_patches()
    }
}

/// What is said about a selector that is neither a version nor a range.
pub open spec fn no_range_message(selector: Seq<char>) -> Seq<char> {
    selector + " is not a valid semantic version range."@
}

/// The patches for a package with one more.
pub open spec fn with_selected(
    group: GroupModel,
    selector: Option<Seq<char>>,
    key: Seq<char>,
    file: Seq<char>,
) -> GroupModel {
    match selector {
        Some(selector) => {
            let patch = PatchModel { key, file, strict: true };
            if semver::parsed_version(selector) is Some {
                GroupModel { exact: group.exact.insert(selector, patch), ..group }
            } else if text::trimmed(selector) == "*"@ {
                GroupModel { all: Some(patch), ..group }
            } else {
                GroupModel { range: group.range.push((selector, patch)), ..group }
            }
        },
        None => GroupModel { all: Some(PatchModel { key, file, strict: false }), ..group },
    }
}

/// A key of the patches that stands for nothing.
pub open spec fn is_bad_key(key: Seq<char>) -> bool {
    match patch_target(key).1 {
        Some(selector) => semver::parsed_version(selector) is None && !semver::range_parses(
            selector,
        ),
        None => false,
    }
}

/// The patches of a project, package by package; or what is said about the first
/// key that stands for nothing.
pub open spec fn grouped(
    lockfile_dir: Seq<char>,
    entries: Seq<(Seq<char>, Seq<char>)>,
    on_windows: bool,
) -> Result<
    Map<Seq<char>, GroupModel>,
    Seq<char>,
>
    decreases entries.len(),
{
    if entries.len() == 0 {
        Ok(Map::empty())
    } else {
        match grouped(lockfile_dir, entries.drop_last(), on_windows) {
            Err(message) => Err(message),
            Ok(groups) => {
                let (key, file) = entries.last();
                let (name, selector) = patch_target(key);
                if is_bad_key(key) {
                    Err(no_range_message(selector->0))
                } else {
                    Ok(
                        groups.insert(
                            name,
                            with_selected(
                                patches_so_far(groups, name),
                                selector,
                                key,
                                paths::joined(lockfile_dir, file, on_windows),
                            ),
                        ),
                    )
                }
            },
        }
    }
}

/// The entries of a map in the order of their keys.
pub open spec fn in_key_order(map: Map<Seq<char>, Seq<char>>) -> Seq<(Seq<char>, Seq<char>)> {
    sorted::in_order(map.dom()).map_values(|key: Seq<char>| (key, map[key]))
}

/// The versions that keys stand for can be read as ranges or refused as such.
pub open spec fn selectors_readable(map: Map<Seq<char>, Seq<char>>) -> bool {
    forall|key: Seq<char>| #[trigger]
        map.dom().contains(key) ==> (patch_target(key).1 matches Some(selector)
            ==> !semver::range_is_unreadable(selector))
}

/// The ranges of patches can be read.
pub open spec fn ranges_readable(groups: Map<Seq<char>, GroupModel>) -> bool {
    forall|name: Seq<char>, i: int|
        groups.dom().contains(name) && 0 <= i < groups[name].range.len()
            ==> !semver::range_is_unreadable((#[trigger] groups[name].range[i]).0)
}

fn add_patch(
    group: PatchGroup,
    selector: Option<String>,
    key: String,
    file: String,
) -> (result: Result<PatchGroup, String>)
    requires
        selector is Some ==> !semver::range_is_unreadable(selector->0@),
    ensures
        match result {
            Ok(result) => !(selector is Some && semver::parsed_version(selector->0@) is None
                && !semver::range_parses(selector->0@)) && result.deep_view() == with_selected(
                group.deep_view(),
                selector.deep_view(),
                key@,
                file@,
            ),
            Err(message) => selector is Some && semver::parsed_version(selector->0@) is None
                && !semver::range_parses(selector->0@) && message@ == no_range_message(
                selector->0@,
            ),
        },
{
    let ghost before = group.deep_view();
    let mut group = group;
    let selector = match selector {
        Some(selector) => selector,
        None => {
            group.all = Some(SelectedPatch { key, file, strict: false });
            return Ok(group);
        },
    };
    let patch = SelectedPatch { key, file, strict: true };
    if Version::parse(selector.as_str()).is_some() {
        group.exact.insert(selector, patch);
        return Ok(group);
    }
    if !semver::parses_as_range(selector.as_str()) {
        return Err(selector.concat(" is not a valid semantic version range."));
    }
    if text::same_text(text::trim_blanks(selector.as_str()), "*") {
        group.all = Some(patch);
    } else {
        let ghost entry = (selector@, patch.deep_view());
        group.range.push((selector, patch));
        assert(group.range.deep_view() =~= before.range.push(entry));
    }
    Ok(group)
}

/// The patches of a project, package by package, in the order of the keys.
pub fn group_patched_dependencies(
    lockfile_dir: &str,
    patched_dependencies: &TextMap<String>,
    on_windows: bool,
) -> (groups:
    Result<PatchGroups, String>)
    requires
        selectors_readable(patched_dependencies.deep_view()),
    ensures
        match groups {
            Ok(groups) => grouped(
                lockfile_dir@,
                in_key_order(patched_dependencies.deep_view()),
                on_windows,
            ) == Ok::<Map<Seq<char>, GroupModel>, Seq<char>>(groups.deep_view())
                && ranges_readable(groups.deep_view()),
            Err(message) => grouped(
                lockfile_dir@,
                in_key_order(patched_dependencies.deep_view()),
                on_windows,
            ) == Err::<Map<Seq<char>, GroupModel>, Seq<char>>(message@),
        },
{
    let keys = sorted::sorted_keys(patched_dependencies);
    let ghost map = patched_dependencies.deep_view();
    let ghost entries = in_key_order(map);
    let mut groups: PatchGroups = Table::new();
    let mut i: usize = 0;
    assert(entries.take(0).len() == 0);
    while i < keys.len()
        invariant
            i <= keys@.len(),
            map == patched_dependencies.deep_view(),
            keys.deep_view() == sorted::in_order(map.dom()),
            keys.deep_view().to_set() == map.dom(),
            entries == in_key_order(map),
            selectors_readable(map),
            grouped(lockfile_dir@, entries.take(i as int), on_windows) == Ok::<
                Map<Seq<char>, GroupModel>,
                Seq<char>,
            >(groups.deep_view()),
            ranges_readable(groups.deep_view()),
        decreases keys@.len() - i,
    {
        let key = &keys[i];
        proof {
            assert(keys.deep_view()[i as int] == key@);
            assert(keys.deep_view().to_set().contains(key@));
            assert(entries.take(i + 1).drop_last() =~= entries.take(i as int));
            assert(entries[i as int] == (key@, map[key@]));
        }
        let file = patched_dependencies.get(key).unwrap();
        let (name, selector) = parse_patched_dependency_key(key.as_str());
        let path = resolve_patch_file(lockfile_dir, file.as_str(), on_windows);
        let group = match groups.get(&name) {
            Some(group) => group.duplicate(),
            None => {
                let group = PatchGroup { exact: Table::new(), range: Vec::new(), all: None };
                assert(group.deep_view() =~= no_patches());
                group
            },
        };
        let ghost before = groups.deep_view();
        let ghost held = group.deep_view();
        let ghost chosen = selector.deep_view();
        match add_patch(group, selector, key.clone(), path) {
            Ok(group) => {
                proof {
                    assert forall|n: Seq<char>, j: int|
                        before.insert(name@, group.deep_view()).dom().contains(n) && 0 <= j
                            < before.insert(name@, group.deep_view())[n].range.len() implies
                        !semver::range_is_unreadable(
                        (#[trigger] before.insert(name@, group.deep_view())[n].range[j]).0,
                    ) by {
                        if n == name@ {
                            if j < held.range.len() {
                                assert(before.dom().contains(name@));
                                assert(held.range[j] == before[name@].range[j]);
                            }
                        } else {
                            assert(before[n].range[j] == before.insert(
                                name@,
                                group.deep_view(),
                            )[n].range[j]);
                        }
                    }
                }
                groups.insert(name, group);
            },
            Err(message) => {
                proof {
                    lemma_grouped_stops(lockfile_dir@, entries, i + 1, on_windows);
                }
                return Err(message);
            },
        }
        i = i + 1;
    }
    assert(entries.take(i as int) =~= entries);
    Ok(groups)
}

/// Once a key stands for nothing, the keys behind it do not matter.
proof fn lemma_grouped_stops(
    lockfile_dir: Seq<char>,
    entries: Seq<(Seq<char>, Seq<char>)>,
    n: int,
    on_windows: bool,
)
    requires
        0 <= n <= entries.len(),
        grouped(lockfile_dir, entries.take(n), on_windows) is Err,
    ensures
        grouped(
            lockfile_dir,
            entries,
            on_windows,
        ) == grouped(lockfile_dir, entries.take(n), on_windows),
    decreases entries.len() - n,
{
    if n < entries.len() {
        assert(entries.take(n + 1).drop_last() =~= entries.take(n));
        lemma_grouped_stops(lockfile_dir, entries, n + 1, on_windows);
    } else {
        assert(entries.take(n) =~= entries);
    }
}

/// The ranges that a version belongs to, and their patches.
pub open spec fn fitting(ranges: Seq<(Seq<char>, PatchModel)>, version: VersionModel) -> Seq<
    (Seq<char>, PatchModel),
>
    decreases ranges.len(),
{
    if ranges.len() == 0 {
        Seq::empty()
    } else if semver::range_parses(ranges.last().0) && semver::range_admits(
        ranges.last().0,
        version,
    ) {
        fitting(ranges.drop_last(), version).push(ranges.last())
    } else {
        fitting(ranges.drop_last(), version)
    }
}

/// What is said where more than one range fits.
pub open spec fn ambiguous_message(
    ranges: Seq<(Seq<char>, PatchModel)>,
    name: Seq<char>,
    version: Seq<char>,
) -> Seq<char> {
    "Unable to choose between "@ + text::decimal(ranges.len()) + " version ranges to patch "@ + name
        + "@"@ + version + ": "@ + text::join(
        ranges.map_values(|range: (Seq<char>, PatchModel)| range.0),
        ", "@,
    )
}

/// The patch for a version of a package, given the patches for the package.
pub open spec fn patch_of_group(group: GroupModel, name: Seq<char>, version: Seq<char>) -> Result<
    Option<PatchModel>,
    Seq<char>,
> {
    if group.exact.dom().contains(version) {
        Ok(Some(group.exact[version]))
    } else {
        match semver::parsed_version(version) {
            None => Err(
                "parse package version `"@ + version + "` for "@ + name + ": "@
                    + semver::version_refusal(version),
            ),
            Some(parsed) => {
                let fits = fitting(group.range, parsed);
                if fits.len() > 1 {
                    Err(ambiguous_message(fits, name, version))
                } else if fits.len() == 1 {
                    Ok(Some(fits[0].1))
                } else {
                    Ok(group.all)
                }
            },
        }
    }
}

/// The patch for a version of a package.
pub open spec fn patch_for(
    groups: Map<Seq<char>, GroupModel>,
    name: Seq<char>,
    version: Seq<char>,
) -> Result<Option<PatchModel>, Seq<char>> {
    if groups.dom().contains(name) {
        patch_of_group(groups[name], name, version)
    } else {
        Ok(None)
    }
}

/// A result as a mathematical value.
pub open spec fn patch_result(result: Result<Option<SelectedPatch>, String>) -> Result<
    Option<PatchModel>,
    Seq<char>,
> {
    match result {
        Ok(patch) => Ok(patch.deep_view()),
        Err(message) => Err(message@),
    }
}

/// The positions of the ranges that a version belongs to.
fn fitting_ranges(range: &Vec<(String, SelectedPatch)>, version: &Version) -> (fits: Vec<usize>)
    requires
        forall|i: int|
            0 <= i < range.deep_view().len() ==> !semver::range_is_unreadable(
                (#[trigger] range.deep_view()[i]).0,
            ),
    ensures
        forall|k: int| 0 <= k < fits@.len() ==> (#[trigger] fits@[k]) < range@.len(),
        fits@.map_values(|i: usize| range.deep_view()[i as int]) == fitting(
            range.deep_view(),
            version.deep_view(),
        ),
{
    let ghost all = range.deep_view();
    let ghost place = |i: usize| all[i as int];
    let mut fits: Vec<usize> = Vec::new();
    let mut i: usize = 0;
    assert(fits@.map_values(place) =~= fitting(all.take(0), version.deep_view()));
    while i < range.len()
        invariant
            i <= range@.len(),
            all == range.deep_view(),
            place == (|i: usize| all[i as int]),
            forall|j: int|
                0 <= j < all.len() ==> !semver::range_is_unreadable((#[trigger] all[j]).0),
            forall|k: int| 0 <= k < fits@.len() ==> (#[trigger] fits@[k]) < range@.len(),
            fits@.map_values(place) == fitting(all.take(i as int), version.deep_view()),
        decreases range@.len() - i,
    {
        let ghost before = fits@;
        proof {
            assert(all.take(i + 1).drop_last() =~= all.take(i as int));
            assert(all[i as int].0 == range@[i as int].0@);
        }
        if let Some(true) = semver::satisfies(version, range[i].0.as_str()) {
            fits.push(i);
            assert(fits@.map_values(place) =~= before.map_values(place).push(all[i as int]));
        }
        i = i + 1;
    }
    proof {
        assert(all.take(i as int) =~= all);
        assert(fits@.map_values(|i: usize| range.deep_view()[i as int]) =~= fits@.map_values(
            place,
        ));
    }
    fits
}

/// The patch for a version of a package: one for that very version, else the
/// one whose range it belongs to, else the one for all versions. Two ranges that
/// it belongs to are an error.
pub fn get_patch_info(groups: &PatchGroups, package_name: &str, package_version: &str) -> (patch:
    Result<Option<SelectedPatch>, String>)
    requires
        ranges_readable(groups.deep_view()),
    ensures
        patch_result(patch) == patch_for(groups.deep_view(), package_name@, package_version@),
{
    let group = match groups.get_text(package_name) {
        Some(group) => group,
        None => {
            return Ok(None);
        },
    };
    let ghost model = group.deep_view();
    assert(model == groups.deep_view()[package_name@]);
    if let Some(patch) = group.exact.get_text(package_version) {
        return Ok(Some(patch.duplicate()));
    }
    let version = match semver::read_version(package_version) {
        Ok(version) => version,
        Err(error) => {
            return Err(
                text::copy("parse package version `").concat(package_version).concat(
                    "` for ",
                ).concat(package_name).concat(": ").concat(error.as_str()),
            );
        },
    };
    proof {
        assert forall|i: int| 0 <= i < group.range.deep_view().len() implies
            !semver::range_is_unreadable((#[trigger] group.range.deep_view()[i]).0) by {
            assert(groups.deep_view()[package_name@].range[i] == group.range.deep_view()[i]);
        }
    }
    let fits = fitting_ranges(&group.range, &version);
    let ghost all = fitting(model.range, version.deep_view());
    let ghost texts = all.map_values(|range: (Seq<char>, PatchModel)| range.0);
    assert(all.len() == fits@.len());
    if fits.len() > 1 {
        let mut ranges: Vec<String> = Vec::new();
        let mut i: usize = 0;
        while i < fits.len()
            invariant
                i <= fits@.len(),
                forall|k: int| 0 <= k < fits@.len() ==> (#[trigger] fits@[k]) < group.range@.len(),
                all == fits@.map_values(|i: usize| group.range.deep_view()[i as int]),
                texts == all.map_values(|range: (Seq<char>, PatchModel)| range.0),
                ranges.deep_view() == texts.take(i as int),
            decreases fits@.len() - i,
        {
            let ghost before = ranges.deep_view();
            let k: usize = fits[i];
            proof {
                assert(all[i as int] == group.range.deep_view()[k as int]);
                assert(group.range.deep_view()[k as int].0 == group.range@[k as int].0@);
                assert(texts.take(i + 1) =~= texts.take(i as int).push(texts[i as int]));
            }
            ranges.push(group.range[k].0.clone());
            assert(ranges.deep_view() =~= before.push(texts[i as int]));
            i = i + 1;
        }
        assert(texts.take(i as int) =~= texts);
        return Err(
            text::copy("Unable to choose between ").concat(
                text::decimal_text(fits.len() as u128).as_str(),
            ).concat(" version ranges to patch ").concat(package_name).concat("@").concat(
                package_version,
            ).concat(": ").concat(text::join_texts(&ranges, ", ").as_str()),
        );
    }
    if fits.len() == 1 {
        let k: usize = fits[0];
        proof {
            assert(all[0] == group.range.deep_view()[k as int]);
            assert(group.range.deep_view()[k as int].1 == group.range@[k as int].1.deep_view());
        }
        return Ok(Some(group.range[k].1.duplicate()));
    }
    Ok(group.all.duplicate())
}

/// Why the patches of a manifest cannot be read.
pub open spec fn is_patches_error(manifest_path: Seq<char>, patches: Json, message: Seq<char>) -> bool {
    match patches {
        Json::Object(fields) => exists|i: int|
            #![trigger fields@[i]]
            0 <= i < fields@.len() && is_first_bad_field(fields@, i) && message == manifest_path
                + ": pnpm.patchedDependencies[\""@ + fields@[i].0@ + "\"] must be a string"@,
        _ => message == manifest_path + ": pnpm.patchedDependencies must be an object"@,
    }
}

/// A field is the first one that is no text.
pub open spec fn is_first_bad_field(fields: Seq<(String, Json)>, i: int) -> bool {
    0 <= i < fields.len() && !(fields[i].1 is Text) && texts_before(fields, i)
}

/// The first fields are texts.
pub open spec fn texts_before(fields: Seq<(String, Json)>, n: int) -> bool {
    forall|j: int| 0 <= j < n ==> (#[trigger] fields[j]).1 is Text
}

/// The patches of a manifest can be read.
pub open spec fn patches_are_texts(patches: Json) -> bool {
    match patches {
        Json::Object(fields) => texts_before(fields@, fields@.len() as int),
        _ => false,
    }
}

/// The patches that a manifest names.
pub open spec fn named_patches(manifest: Option<&Json>) -> Option<&Json> {
    match manifest {
        Some(manifest) => match json::child(manifest, "pnpm"@) {
            Some(pnpm) => json::child(pnpm, "patchedDependencies"@),
            None => None,
        },
        None => None,
    }
}

/// What can be told of the patches that a manifest names.
pub open spec fn is_raw(
    manifest_path: Seq<char>,
    manifest: Option<&Json>,
    result: Result<TextMap<String>, String>,
) -> bool {
    match named_patches(manifest) {
        None => result is Ok && result->Ok_0.deep_view() == Map::<Seq<char>, Seq<char>>::empty(),
        Some(patches) => match result {
            Ok(map) => patches_are_texts(*patches) && map.deep_view() == json::text_map(
                Some(patches.deep_view()),
            ),
            Err(message) => !patches_are_texts(*patches) && is_patches_error(
                manifest_path,
                *patches,
                message@,
            ),
        },
    }
}

/// The patches that a manifest names, each with where it lies.
pub fn raw_patched_dependencies(manifest_path: &str, manifest: Option<&Json>) -> (result: Result<
    TextMap<String>,
    String,
>)
    ensures
        is_raw(manifest_path@, manifest, result),
{
    let patches = match manifest {
        Some(manifest) => match manifest.get("pnpm") {
            Some(pnpm) => pnpm.get("patchedDependencies"),
            None => None,
        },
        None => None,
    };
    let patches = match patches {
        Some(patches) => patches,
        None => {
            return Ok(Table::new());
        },
    };
    let fields = match patches {
        Json::Object(fields) => fields,
        _ => {
            return Err(
                text::copy(manifest_path).concat(
                    ": pnpm.patchedDependencies must be an object",
                ),
            );
        },
    };
    let mut i: usize = 0;
    while i < fields.len()
        invariant
            i <= fields@.len(),
            texts_before(fields@, i as int),
            *patches == Json::Object(*fields),
            named_patches(manifest) == Some(patches),
        decreases fields@.len() - i,
    {
        match &fields[i].1 {
            Json::Text(_) => {},
            _ => {
                assert(is_first_bad_field(fields@, i as int));
                return Err(
                    text::copy(manifest_path).concat(": pnpm.patchedDependencies[\"").concat(
                        fields[i].0.as_str(),
                    ).concat("\"] must be a string"),
                );
            },
        }
        i = i + 1;
    }
    Ok(json::json_string_map(Some(patches)))
}

/// Texts as structured values.
pub open spec fn as_texts(map: Map<Seq<char>, Seq<char>>) -> Map<Seq<char>, JsonModel> {
    Map::new(|key: Seq<char>| map.dom().contains(key), |key: Seq<char>| JsonModel::Text(map[key]))
}

fn texts_as_json(map: &TextMap<String>) -> (texts: TextMap<Json>)
    ensures
        texts.deep_view() == as_texts(map.deep_view()),
{
    let ghost pairs = map.pairs();
    let mut texts: TextMap<Json> = Table::new();
    let n: usize = map.len();
    let mut i: usize = 0;
    assert(as_texts(table::map_of(pairs.take(0))) =~= texts.deep_view());
    while i < n
        invariant
            i <= n,
            n == pairs.len(),
            pairs == map.pairs(),
            table::keys(pairs).no_duplicates(),
            texts.deep_view() == as_texts(table::map_of(pairs.take(i as int))),
        decreases n - i,
    {
        let value = Json::Text(map.value_at(i).clone());
        proof {
            table::lemma_take_next(pairs, i as int);
        }
        texts.insert(map.key_at(i).clone(), value);
        assert(texts.deep_view() =~= as_texts(table::map_of(pairs.take(i + 1))));
        i = i + 1;
    }
    assert(pairs.take(i as int) =~= pairs);
    texts
}

/// The patches of a project as a lockfile keeps them, given what its manifest
/// names: none where there are no patches, and an error where a key stands for
/// nothing.
pub fn manifest_patched_dependencies_for_lockfile(
    lockfile_dir: &str,
    patched_dependencies: &TextMap<String>,
    on_windows: bool,
) -> (result: Result<Option<TextMap<Json>>, String>)
    requires
        selectors_readable(patched_dependencies.deep_view()),
    ensures
        ({
            let map = patched_dependencies.deep_view();
            let groups = grouped(lockfile_dir@, in_key_order(map), on_windows);
            match result {
                Ok(None) => map == Map::<Seq<char>, Seq<char>>::empty(),
                Ok(Some(kept)) => map != Map::<Seq<char>, Seq<char>>::empty() && groups is Ok
                    && kept.deep_view() == as_texts(map),
                Err(message) => map != Map::<Seq<char>, Seq<char>>::empty() && groups is Err
                    && groups->Err_0 == message@,
            }
        }),
{
    if patched_dependencies.is_empty() {
        return Ok(None);
    }
    match group_patched_dependencies(lockfile_dir, patched_dependencies, on_windows) {
        Ok(_) => Ok(Some(texts_as_json(patched_dependencies))),
        Err(message) => Err(message),
    }
}

/// The patch that a project has for a version of a package.
pub open spec fn selected(
    lockfile_dir: Seq<char>,
    map: Map<Seq<char>, Seq<char>>,
    name: Seq<char>,
    version: Seq<char>,
    on_windows: bool,
) -> Result<Option<PatchModel>, Seq<char>> {
    match grouped(lockfile_dir, in_key_order(map), on_windows) {
        Err(message) => Err(message),
        Ok(groups) => patch_for(groups, name, version),
    }
}

/// The patch that a project has for a version of a package, given what its
/// manifest names.
pub fn selected_patch_for_package(
    lockfile_dir: &str,
    patched_dependencies: &TextMap<String>,
    package_name: &str,
    package_version: &str,
    on_windows: bool,
) -> (patch: Result<Option<SelectedPatch>, String>)
    requires
        selectors_readable(patched_dependencies.deep_view()),
    ensures
        patch_result(patch) == selected(
            lockfile_dir@,
            patched_dependencies.deep_view(),
            package_name@,
            package_version@,
            on_windows,
        ),
{
    match group_patched_dependencies(lockfile_dir, patched_dependencies, on_windows) {
        Ok(groups) => get_patch_info(&groups, package_name, package_version),
        Err(message) => Err(message),
    }
}

/// What is told about a patch that does not fit.
pub open spec fn refused_patch(
    file: Seq<char>,
    name: Seq<char>,
    version: Seq<char>,
    stderr: Seq<char>,
) -> Seq<char> {
    let head = "Could not apply patch "@ + file + " to "@ + name + "@"@ + version;
    if text::trimmed(stderr).len() == 0 {
        head
    } else {
        head + ": "@ + text::trimmed(stderr)
    }
}

fn refused_patch_message(patch: &SelectedPatch, name: &str, version: &str, stderr: &str) -> (message:
    String)
    ensures
        message@ == refused_patch(patch.file@, name@, version@, stderr@),
{
    let head = text::copy("Could not apply patch ").concat(patch.file.as_str()).concat(
        " to ",
    ).concat(name).concat("@").concat(version);
    let said = text::trim_blanks(stderr);
    if said.unicode_len() == 0 {
        head
    } else {
        head.concat(": ").concat(said)
    }
}

/// What is done once it was tried whether a patch fits: it is applied; what is
/// wrong is an error; or it is only told.
#[allow(inconsistent_fields)]
#[derive(Debug)]
pub enum PatchStep {
    Apply,
    Refuse { message: String },
    Warn { message: String },
}

/// What is done once it was tried whether a patch fits. A patch that does not
/// have to fit is left out.
pub fn patch_step(
    patch: &SelectedPatch,
    package_name: &str,
    package_version: &str,
    fits: bool,
    stderr: &str,
) -> (step: PatchStep)
    ensures
        ({
            let said = refused_patch(patch.file@, package_name@, package_version@, stderr@);
            match step {
                PatchStep::Apply => fits,
                PatchStep::Refuse { message } => !fits && patch.strict && message@ == said,
                PatchStep::Warn { message } => !fits && !patch.strict && message@ == said,
            }
        }),
{
    if fits {
        return PatchStep::Apply;
    }
    let message = refused_patch_message(patch, package_name, package_version, stderr);
    if patch.strict {
        PatchStep::Refuse { message }
    } else {
        PatchStep::Warn { message }
    }
}

/// What comes of applying a patch.
pub fn patch_applied(
    patch: &SelectedPatch,
    package_name: &str,
    package_version: &str,
    succeeded: bool,
    stderr: &str,
) -> (result: Result<(), String>)
    ensures
        match result {
            Ok(_) => succeeded,
            Err(message) => !succeeded && message@ == refused_patch(
                patch.file@,
                package_name@,
                package_version@,
                stderr@,
            ),
        },
{
    if succeeded {
        Ok(())
    } else {
        Err(refused_patch_message(patch, package_name, package_version, stderr))
    }
}

/// A patch for one version is taken before any other for the package, and it has
/// to fit.
pub proof fn law_exact_patch_comes_first(
    groups: Map<Seq<char>, GroupModel>,
    name: Seq<char>,
    version: Seq<char>,
)
    requires
        groups.dom().contains(name),
        groups[name].exact.dom().contains(version),
    ensures
        patch_for(groups, name, version) == Ok::<Option<PatchModel>, Seq<char>>(
            Some(groups[name].exact[version]),
        ),
{
}

/// Every patch for one version or for a range has to fit.
pub open spec fn selectors_are_strict(groups: Map<Seq<char>, GroupModel>) -> bool {
    forall|name: Seq<char>| #[trigger]
        groups.dom().contains(name) ==> group_is_strict(groups[name])
}

/// Every patch for one version or for a range of a package has to fit.
pub open spec fn group_is_strict(group: GroupModel) -> bool {
    &&& forall|version: Seq<char>| #[trigger]
        group.exact.dom().contains(version) ==> group.exact[version].strict
    &&& forall|i: int| 0 <= i < group.range.len() ==> (#[trigger] group.range[i]).1.strict
}

/// A patch that was chosen for one version or for a range has to fit; only one
/// that a bare name stands for need not.
pub proof fn law_selected_patches_are_strict(
    lockfile_dir: Seq<char>,
    entries: Seq<(Seq<char>, Seq<char>)>,
    on_windows: bool,
)
    requires
        grouped(lockfile_dir, entries, on_windows) is Ok,
    ensures
        selectors_are_strict(grouped(lockfile_dir, entries, on_windows)->Ok_0),
    decreases entries.len(),
{
    if entries.len() > 0 {
        law_selected_patches_are_strict(lockfile_dir, entries.drop_last(), on_windows);
        let groups = grouped(lockfile_dir, entries.drop_last(), on_windows)->Ok_0;
        let (name, selector) = patch_target(entries.last().0);
        let before = patches_so_far(groups, name);
        assert(group_is_strict(before));
        let after = with_selected(
            before,
            selector,
            entries.last().0,
            paths::joined(lockfile_dir, entries.last().1, on_windows),
        );
        assert(group_is_strict(after)) by {
            assert forall|i: int| 0 <= i < after.range.len() implies (
            #[trigger] after.range[i]).1.strict by {
                if i < before.range.len() {
                    assert(after.range[i] == before.range[i]);
                }
            }
        }
    }
}

proof fn lemma_scoped_key_joins(
    scope: Seq<char>,
    name: Seq<char>,
    version: Seq<char>,
    rest: Seq<char>,
    tail: Seq<char>,
)
    requires
        tail == name + "@"@ + version,
        rest == scope + "/"@ + tail,
    ensures
        "@"@ + rest == "@"@ + scope + "/"@ + name + "@"@ + version,
{
    reveal_strlit("@");
    reveal_strlit("/");
    assert("@"@ + rest =~= "@"@ + scope + "/"@ + name + "@"@ + version);
}

proof fn lemma_parted_at_last(s: Seq<char>)
    ensures
        text::rsplit_once(s, '@') matches Some((name, version)) ==> s == name + "@"@ + version,
{
    reveal_strlit("@");
    text::lemma_last_index(s, '@');
    if let Some((name, version)) = text::rsplit_once(s, '@') {
        assert(s =~= name + "@"@ + version);
    }
}

proof fn lemma_parted_at_first(s: Seq<char>)
    ensures
        text::split_once(s, '/') matches Some((scope, tail)) ==> s == scope + "/"@ + tail,
        text::stripped_prefix(s, "@"@) matches Some(rest) ==> s == "@"@ + rest,
{
    reveal_strlit("/");
    text::lemma_first_index(s, '/');
    if let Some((scope, tail)) = text::split_once(s, '/') {
        assert(s =~= scope + "/"@ + tail);
    }
    if let Some(rest) = text::stripped_prefix(s, "@"@) {
        assert(s =~= "@"@ + rest);
    }
}

/// What a key of the patches stands for makes the key up again, with an `@`
/// between the name and the versions.
pub proof fn law_patch_key_parts_join(key: Seq<char>)
    ensures
        match patch_target(key) {
            (name, Some(selector)) => selector.len() > 0 && key == name + "@"@ + selector,
            (name, None) => key == name,
        },
{
    lemma_parted_at_last(key);
    lemma_parted_at_first(key);
    if let Some(rest) = text::stripped_prefix(key, "@"@) {
        lemma_parted_at_first(rest);
        if let Some((scope, tail)) = text::split_once(rest, '/') {
            lemma_parted_at_last(tail);
            if let Some((name, version)) = text::rsplit_once(tail, '@') {
                lemma_scoped_key_joins(scope, name, version, rest, tail);
            }
        }
    }
}

/// A key with a version behind its last `@` is for that version of the package before it;
/// one without is for the package as a whole. The `@` of a scope parts nothing.
pub proof fn law_patch_keys(name: Seq<char>, version: Seq<char>)
    requires
        name.len() > 0,
        version.len() > 0,
        !version.contains('@'),
        !version.contains('/'),
        !name.contains('@'),
    ensures
        patch_target(name + "@"@ + version) == (name, Some(version)),
        patch_target(name) == (name, None::<Seq<char>>),
{
    reveal_strlit("@");
    let key = name + "@"@ + version;
    let m = name.len() as int;
    assert forall|j: int| m < j < key.len() implies key[j] != '@' by {
        assert(key[j] == version[j - m - 1]);
        assert(version.contains(version[j - m - 1]));
    }
    assert(key[m] == '@');
    text::lemma_last_index_is(key, '@', m);
    assert(key.subrange(0, m) =~= name);
    assert(text::tail(key, m + 1) =~= version);
    assert(name[0] != '@') by {
        assert(name.contains(name[0]));
    }
    assert(!text::starts_with(key, "@"@)) by {
        if text::starts_with(key, "@"@) {
            assert(key.subrange(0, 1)[0] == key[0]);
        }
    }
    assert(!text::starts_with(name, "@"@)) by {
        if text::starts_with(name, "@"@) {
            assert(name.subrange(0, 1)[0] == name[0]);
        }
    }
    assert forall|j: int| 0 <= j < name.len() implies name[j] != '@' by {
        assert(name.contains(name[j]));
    }
    text::lemma_last_index(name, '@');
    assert(text::last_index(name, '@') == -1);
}

proof fn lemma_exact_patch(
    lockfile_dir: Seq<char>,
    entries: Seq<(Seq<char>, Seq<char>)>,
    on_windows: bool,
    i: int,
)
    requires
        0 <= i < entries.len(),
        grouped(lockfile_dir, entries, on_windows) is Ok,
        patch_target(entries[i].0).1 is Some,
        semver::parsed_version(patch_target(entries[i].0).1->0) is Some,
        forall|j: int|
            i < j < entries.len() ==> patch_target((#[trigger] entries[j]).0) != patch_target(
                entries[i].0,
            ),
    ensures
        ({
            let (name, selector) = patch_target(entries[i].0);
            let groups = grouped(lockfile_dir, entries, on_windows)->Ok_0;
            &&& groups.dom().contains(name)
            &&& groups[name].exact.dom().contains(selector->0)
            &&& groups[name].exact[selector->0] == (PatchModel {
                key: entries[i].0,
                file: paths::joined(lockfile_dir, entries[i].1, on_windows),
                strict: true,
            })
        }),
    decreases entries.len(),
{
    let rest = entries.drop_last();
    let n = entries.len() - 1;
    assert(entries.last() == entries[n]);
    if i < n {
        assert(rest[i] == entries[i]);
        assert forall|j: int| i < j < rest.len() implies patch_target((#[trigger] rest[j]).0)
            != patch_target(rest[i].0) by {
            assert(rest[j] == entries[j]);
        }
        lemma_exact_patch(lockfile_dir, rest, on_windows, i);
        assert(patch_target(entries[n].0) != patch_target(entries[i].0));
    }
}

/// A patch for one version of a package is the one that is selected for that version, in
/// the file that is named for it, whatever other patches there are.
pub proof fn law_patch_for_a_version_is_selected(
    patch: Result<Option<SelectedPatch>, String>,
    lockfile_dir: Seq<char>,
    map: Map<Seq<char>, Seq<char>>,
    name: Seq<char>,
    version: Seq<char>,
    on_windows: bool,
    key: Seq<char>,
)
    requires
        patch_result(patch) == selected(lockfile_dir, map, name, version, on_windows),
        map.dom().finite(),
        map.dom().contains(key),
        patch_target(key) == (name, Some(version)),
        semver::parsed_version(version) is Some,
    ensures
        patch is Ok ==> patch->Ok_0.deep_view() == Some(
            PatchModel {
                key,
                file: paths::joined(lockfile_dir, map[key], on_windows),
                strict: true,
            },
        ),
{
    let entries = in_key_order(map);
    let names = sorted::in_order(map.dom());
    sorted::lemma_listed(map.dom());
    sorted::lemma_sorted_distinct(names);
    assert(names.to_set().contains(key));
    let i = names.index_of(key);
    assert(entries[i] == (key, map[key]));
    if grouped(lockfile_dir, entries, on_windows) is Ok {
        assert forall|j: int| i < j < entries.len() implies patch_target((#[trigger] entries[j]).0)
            != patch_target(entries[i].0) by {
            law_patch_key_parts_join(entries[j].0);
            law_patch_key_parts_join(entries[i].0);
            assert(names[j] != names[i]);
        }
        lemma_exact_patch(lockfile_dir, entries, on_windows, i);
    }
}

proof fn lemma_fitting(
    ranges: Seq<(Seq<char>, PatchModel)>,
    version: VersionModel,
    range: (Seq<char>, PatchModel),
)
    ensures
        fitting(ranges, version).contains(range) <==> ranges.contains(range)
            && semver::range_parses(range.0) && semver::range_admits(range.0, version),
        fitting(ranges, version).len() <= ranges.len(),
    decreases ranges.len(),
{
    if ranges.len() > 0 {
        let rest = ranges.drop_last();
        lemma_fitting(rest, version, range);
        assert(ranges =~= rest.push(ranges.last()));
        crate::reach::lemma_push_contains(rest, ranges.last());
        crate::reach::lemma_push_contains(fitting(rest, version), ranges.last());
        assert(ranges.contains(range) <==> rest.contains(range) || range == ranges.last());
        assert(fitting(rest, version).push(ranges.last()).contains(range) <==> fitting(
            rest,
            version,
        ).contains(range) || range == ranges.last());
    }
}

/// Where no patch is for the version itself, the one whose range admits it is selected;
/// where several ranges do, the choice is refused; where none does, the patch for the
/// package as a whole is selected, if there is one. A package without patches gets none.
pub proof fn law_patch_by_range(
    patch: Result<Option<SelectedPatch>, String>,
    groups: Map<Seq<char>, GroupModel>,
    name: Seq<char>,
    version: Seq<char>,
    i: int,
    j: int,
)
    requires
        patch_result(patch) == patch_for(groups, name, version),
    ensures
        !groups.dom().contains(name) ==> patch is Ok && patch->Ok_0 is None,
        groups.dom().contains(name) && !groups[name].exact.dom().contains(version)
            && semver::parsed_version(version) is None ==> patch is Err,
        groups.dom().contains(name) && !groups[name].exact.dom().contains(version)
            && semver::parsed_version(version) is Some ==> {
            let parsed = semver::parsed_version(version)->0;
            let ranges = groups[name].range;
            let fits = |k: int|
                0 <= k < ranges.len() && semver::range_parses(ranges[k].0) && semver::range_admits(
                    ranges[k].0,
                    parsed,
                );
            &&& (forall|k: int| !#[trigger] fits(k)) ==> patch is Ok && patch->Ok_0.deep_view()
                == groups[name].all
            &&& fits(i) && (patch is Ok) ==> patch->Ok_0 is Some && exists|k: int|
                #[trigger] fits(k) && patch->Ok_0.deep_view() == Some(ranges[k].1)
            &&& fits(i) && fits(j) && ranges[i] != ranges[j] ==> patch is Err
        },
{
    if groups.dom().contains(name) && !groups[name].exact.dom().contains(version)
        && semver::parsed_version(version) is Some {
        let parsed = semver::parsed_version(version)->0;
        let ranges = groups[name].range;
        let chosen = fitting(ranges, parsed);
        let fits = |k: int|
            0 <= k < ranges.len() && semver::range_parses(ranges[k].0) && semver::range_admits(
                ranges[k].0,
                parsed,
            );
        if chosen.len() > 0 {
            lemma_fitting(ranges, parsed, chosen[0]);
            assert(chosen.contains(chosen[0]));
            let k = ranges.index_of(chosen[0]);
            assert(fits(k));
        }
        if fits(i) {
            lemma_fitting(ranges, parsed, ranges[i]);
            assert(ranges.contains(ranges[i]));
            assert(chosen.contains(ranges[i]));
            if fits(j) && ranges[i] != ranges[j] {
                lemma_fitting(ranges, parsed, ranges[j]);
                assert(ranges.contains(ranges[j]));
                assert(chosen.contains(ranges[j]));
                let a = chosen.index_of(ranges[i]);
                let b = chosen.index_of(ranges[j]);
                assert(a != b);
            }
        }
    }
}

/// A key for one version of a package of a scope is for that version of that package.
pub proof fn law_scoped_patch_keys(scope: Seq<char>, name: Seq<char>, version: Seq<char>)
    requires
        !scope.contains('/'),
        version.len() > 0,
        !version.contains('@'),
    ensures
        patch_target("@"@ + scope + "/"@ + name + "@"@ + version) == (
            "@"@ + scope + "/"@ + name,
            Some(version),
        ),
{
    reveal_strlit("@");
    reveal_strlit("/");
    let key = "@"@ + scope + "/"@ + name + "@"@ + version;
    let tail = name + "@"@ + version;
    let rest = scope + "/"@ + tail;
    assert(key =~= "@"@ + rest);
    assert(key.subrange(0, 1) =~= "@"@);
    assert(text::tail(key, 1) =~= rest);
    let s = scope.len() as int;
    assert forall|k: int| 0 <= k < s implies rest[k] != '/' by {
        assert(scope.contains(scope[k]));
    }
    assert(rest[s] == '/');
    text::lemma_first_index_is(rest, '/', s);
    assert(rest.subrange(0, s) =~= scope);
    assert(text::tail(rest, s + 1) =~= tail);
    let m = name.len() as int;
    assert forall|j: int| m < j < tail.len() implies tail[j] != '@' by {
        assert(tail[j] == version[j - m - 1]);
        assert(version.contains(version[j - m - 1]));
    }
    assert(tail[m] == '@');
    text::lemma_last_index_is(tail, '@', m);
    assert(tail.subrange(0, m) =~= name);
    assert(text::tail(tail, m + 1) =~= version);
}

} // verus!
