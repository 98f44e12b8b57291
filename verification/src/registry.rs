//! What a registry tells of a package.
use crate::semver;
use crate::semver::{Version, VersionModel};
use crate::table::TextMap;
use crate::text;
use vstd::prelude::*;
use vstd::string::*;

verus! {

/// One version of a package, as a registry tells of it.
#[derive(Debug)]
pub struct PackageVersion {
    pub name: String,
    pub version: Version,
    pub tarball: String,
    pub integrity: Option<String>,
    pub virtual_store_name: String,
    pub regular_dependencies: TextMap<String>,
    pub optional_dependencies: TextMap<String>,
    pub peer_dependencies: Option<TextMap<String>>,
    pub optional_peers: Vec<String>,
    pub engines: Option<TextMap<String>>,
    pub cpu: Option<Vec<String>>,
    pub os: Option<Vec<String>>,
    pub libc: Option<Vec<String>>,
    pub deprecated: Option<String>,
    pub has_bin: bool,
}

/// The mathematical value of a [`PackageVersion`].
pub struct PackageVersionModel {
    pub name: Seq<char>,
    pub version: VersionModel,
    pub tarball: Seq<char>,
    pub integrity: Option<Seq<char>>,
    pub virtual_store_name: Seq<char>,
    pub regular_dependencies: Seq<(Seq<char>, Seq<char>)>,
    pub optional_dependencies: Seq<(Seq<char>, Seq<char>)>,
    pub peer_dependencies: Option<Seq<(Seq<char>, Seq<char>)>>,
    pub optional_peers: Seq<Seq<char>>,
    pub engines: Option<Map<Seq<char>, Seq<char>>>,
    pub cpu: Option<Seq<Seq<char>>>,
    pub os: Option<Seq<Seq<char>>>,
    pub libc: Option<Seq<Seq<char>>>,
    pub deprecated: Option<Seq<char>>,
    pub has_bin: bool,
}

/// The ranges of the peers of a package, in their order.
pub open spec fn peer_pairs(peers: Option<TextMap<String>>) -> Option<Seq<(Seq<char>, Seq<char>)>> {
    match peers {
        Some(peers) => Some(peers.pairs()),
        None => None,
    }
}

impl DeepView for PackageVersion {
    type V = PackageVersionModel;

    open spec fn deep_view(&self) -> PackageVersionModel {
        PackageVersionModel {
            name: self.name@,
            version: self.version.deep_view(),
            tarball: self.tarball@,
            integrity: self.integrity.deep_view(),
            virtual_store_name: self.virtual_store_name@,
            regular_dependencies: self.regular_dependencies.pairs(),
            optional_dependencies: self.optional_dependencies.pairs(),
            peer_dependencies: peer_pairs(self.peer_dependencies),
            optional_peers: self.optional_peers.deep_view(),
            engines: self.engines.deep_view(),
            cpu: self.cpu.deep_view(),
            os: self.os.deep_view(),
            libc: self.libc.deep_view(),
            deprecated: self.deprecated.deep_view(),
            has_bin: self.has_bin,
        }
    }
}

/// A version of a package by its name and number.
pub open spec fn package_id(name: Seq<char>, version: VersionModel) -> Seq<char> {
    name + "@"@ + semver::version_text(version)
}

impl PackageVersion {
    /// The package by its name and version.
    pub fn id(&self) -> (id: String)
        ensures
            id@ == package_id(self.name@, self.version.deep_view()),
    {
        self.name.clone().concat("@").concat(self.version.text().as_str())
    }
}

/// What a registry tells of all versions of a package: each by its number, and
/// which of them is the latest.
#[derive(Debug)]
pub struct Package {
    pub name: String,
    pub versions: Vec<(String, PackageVersion)>,
    pub latest: usize,
}

impl Package {
    /// There is a latest version, and no number stands twice.
    pub open spec fn well_formed(self) -> bool {
        self.latest < self.versions@.len() && forall|i: int, j: int|
            0 <= i < j < self.versions@.len() ==> (#[trigger] self.versions@[i]).0@ != (
            #[trigger] self.versions@[j]).0@
    }
}

/// The place of the version with a number.
pub open spec fn version_index(package: Package, number: Seq<char>, from: int) -> Option<int>
    decreases package.versions@.len() - from,
{
    if from >= package.versions@.len() {
        None
    } else if package.versions@[from].0@ == number {
        Some(from)
    } else {
        version_index(package, number, from + 1)
    }
}

/// The place of the version with a number.
pub fn find_version(package: &Package, number: &str) -> (found: Option<usize>)
    ensures
        match found {
            Some(i) => version_index(*package, number@, 0) == Some(i as int) && i
                < package.versions@.len(),
            None => version_index(*package, number@, 0) is None,
        },
{
    let mut i: usize = 0;
    while i < package.versions.len()
        invariant
            i <= package.versions@.len(),
            version_index(*package, number@, 0) == version_index(*package, number@, i as int),
        decreases package.versions@.len() - i,
    {
        if text::same_text(package.versions[i].0.as_str(), number) {
            return Some(i);
        }
        i = i + 1;
    }
    None
}

/// What was asked for of a package: a version, its latest one, or a range.
pub enum RequestModel {
    Version(Seq<char>),
    Latest,
    Range,
}

/// What a text asks for.
pub open spec fn request_of(requested: Seq<char>) -> RequestModel {
    match semver::parsed_version(requested) {
        Some(version) => RequestModel::Version(semver::version_text(version)),
        None => if requested == "latest"@ {
            RequestModel::Latest
        } else {
            RequestModel::Range
        },
    }
}

/// The preferred version with a number is admitted by a range.
pub open spec fn is_preferred(package: Package, number: Seq<char>, range: Seq<char>) -> bool {
    match version_index(package, number, 0) {
        Some(i) => semver::range_admits(range, package.versions@[i].1.version.deep_view()),
        None => false,
    }
}

/// The highest one of the first `n` preferred versions that a range admits.
pub open spec fn best_preferred(
    package: Package,
    preferred: Seq<Seq<char>>,
    range: Seq<char>,
    n: int,
) -> Option<int>
    decreases n,
{
    if n <= 0 {
        None
    } else {
        let before = best_preferred(package, preferred, range, n - 1);
        if is_preferred(package, preferred[n - 1], range) {
            let i = version_index(package, preferred[n - 1], 0)->0;
            match before {
                Some(b) => if semver::version_less(
                    package.versions@[i].1.version.deep_view(),
                    package.versions@[b].1.version.deep_view(),
                ) {
                    Some(b)
                } else {
                    Some(i)
                },
                None => Some(i),
            }
        } else {
            before
        }
    }
}

/// The version that a text stands for, given the highest one of those that it
/// admits as a range.
pub open spec fn resolved_index(
    package: Package,
    requested: Seq<char>,
    preferred: Option<Seq<Seq<char>>>,
    pinned: Option<int>,
) -> Option<int> {
    match request_of(requested) {
        RequestModel::Version(number) => version_index(package, number, 0),
        RequestModel::Latest => Some(package.latest as int),
        RequestModel::Range => match preferred {
            Some(preferred) => if semver::range_parses(requested) && best_preferred(
                package,
                preferred,
                requested,
                preferred.len() as int,
            ) is Some {
                best_preferred(package, preferred, requested, preferred.len() as int)
            } else {
                pinned
            },
            None => pinned,
        },
    }
}

/// The highest one of the preferred versions that a range admits.
fn find_preferred(package: &Package, preferred: &Vec<String>, range: &str) -> (found: Option<usize>)
    requires
        !semver::range_is_unreadable(range@),
    ensures
        match found {
            Some(i) => semver::range_parses(range@) && best_preferred(
                *package,
                preferred.deep_view(),
                range@,
                preferred@.len() as int,
            ) == Some(i as int) && i < package.versions@.len(),
            None => !semver::range_parses(range@) || best_preferred(
                *package,
                preferred.deep_view(),
                range@,
                preferred@.len() as int,
            ) is None,
        },
{
    if !semver::parses_as_range(range) {
        return None;
    }
    let ghost all = preferred.deep_view();
    let mut best: Option<usize> = None;
    let mut k: usize = 0;
    while k < preferred.len()
        invariant
            k <= preferred@.len(),
            all == preferred.deep_view(),
            semver::range_parses(range@),
            !semver::range_is_unreadable(range@),
            match best {
                Some(i) => best_preferred(*package, all, range@, k as int) == Some(i as int) && i
                    < package.versions@.len(),
                None => best_preferred(*package, all, range@, k as int) is None,
            },
        decreases preferred@.len() - k,
    {
        assert(all[k as int] == preferred@[k as int]@);
        if let Some(i) = find_version(package, preferred[k].as_str()) {
            if let Some(true) = semver::satisfies(&package.versions[i].1.version, range) {
                best = match best {
                    Some(b) => if package.versions[i].1.version.stands_before(
                        &package.versions[b].1.version,
                    ) {
                        Some(b)
                    } else {
                        Some(i)
                    },
                    None => Some(i),
                };
            }
        }
        k = k + 1;
    }
    best
}

/// The version of a package that a text stands for: the one with that number,
/// the latest one, or one of a range. Of those a preferred one comes first, the
/// highest if there are several, and then the one that is pinned, which is
/// given. A range that cannot be read without harm is left out.
pub fn resolve_package_version_from_metadata(
    package: &Package,
    requested_range: &str,
    preferred_versions: Option<&Vec<String>>,
    pinned: Option<usize>,
) -> (found: Option<usize>)
    requires
        package.well_formed(),
        preferred_versions is Some ==> !semver::range_is_unreadable(requested_range@),
    ensures
        match found {
            Some(i) => resolved_index(
                *package,
                requested_range@,
                preferred_versions.deep_view(),
                match pinned {
                    Some(p) => Some(p as int),
                    None => None,
                },
            ) == Some(i as int),
            None => resolved_index(
                *package,
                requested_range@,
                preferred_versions.deep_view(),
                match pinned {
                    Some(p) => Some(p as int),
                    None => None,
                },
            ) is None,
        },
{
    if let Some(version) = Version::parse(requested_range) {
        return find_version(package, version.text().as_str());
    }
    if text::same_text(requested_range, "latest") {
        return Some(package.latest);
    }
    if let Some(preferred) = preferred_versions {
        if let Some(i) = find_preferred(package, preferred, requested_range) {
            return Some(i);
        }
    }
    pinned
}

/// Why a package could not be had from a registry.
#[derive(Debug)]
pub struct MissingVersionRelease {
    pub version: String,
    pub package: String,
}

/// The version of a package that a text stands for, or what is missing: a
/// number as it is written, or the range.
pub fn resolve_requested_version(
    package: &Package,
    requested_name: &str,
    requested_range: &str,
    pinned: Option<usize>,
) -> (found: Result<usize, MissingVersionRelease>)
    requires
        package.well_formed(),
    ensures
        ({
            let expected = resolved_index(
                *package,
                requested_range@,
                None,
                match pinned {
                    Some(p) => Some(p as int),
                    None => None,
                },
            );
            match found {
                Ok(i) => expected == Some(i as int),
                Err(missing) => expected is None && missing.package@ == requested_name@
                    && missing.version@ == (match request_of(requested_range@) {
                    RequestModel::Version(number) => number,
                    _ => requested_range@,
                }),
            }
        }),
{
    match resolve_package_version_from_metadata(package, requested_range, None, pinned) {
        Some(i) => Ok(i),
        None => {
            let version = match Version::parse(requested_range) {
                Some(version) => version.text(),
                None => text::copy(requested_range),
            };
            Err(MissingVersionRelease { version, package: text::copy(requested_name) })
        },
    }
}

proof fn lemma_best_preferred(
    package: Package,
    preferred: Seq<Seq<char>>,
    range: Seq<char>,
    n: int,
    k: int,
)
    requires
        0 <= k < n <= preferred.len(),
        is_preferred(package, preferred[k], range),
    ensures
        best_preferred(package, preferred, range, n) is Some,
        !semver::version_less(
            package.versions@[best_preferred(
                package,
                preferred,
                range,
                n,
            )->0].1.version.deep_view(),
            package.versions@[version_index(package, preferred[k], 0)->0].1.version.deep_view(),
        ),
    decreases n,
{
    let i = version_index(package, preferred[n - 1], 0)->0;
    let here = package.versions@[i].1.version.deep_view();
    let other = package.versions@[version_index(
        package,
        preferred[k],
        0,
    )->0].1.version.deep_view();
    if k < n - 1 {
        lemma_best_preferred(package, preferred, range, n - 1, k);
        let b = best_preferred(package, preferred, range, n - 1)->0;
        let before = package.versions@[b].1.version.deep_view();
        semver::law_version_precedence(here, before, other);
        semver::law_version_precedence(here, other, before);
        semver::law_version_precedence(before, here, other);
        semver::law_version_precedence(before, other, here);
        semver::law_version_precedence(other, here, before);
        semver::law_version_precedence(other, before, here);
    } else {
        semver::law_version_precedence(here, here, here);
        if let Some(b) = best_preferred(package, preferred, range, n - 1) {
            let before = package.versions@[b].1.version.deep_view();
            semver::law_version_precedence(here, before, here);
        }
    }
}

/// Of the preferred versions that a range admits, none stands above the one
/// that is taken.
pub proof fn law_preferred_is_highest(
    package: Package,
    requested: Seq<char>,
    preferred: Seq<Seq<char>>,
    pinned: Option<int>,
    k: int,
)
    requires
        request_of(requested) is Range,
        semver::range_parses(requested),
        0 <= k < preferred.len(),
        is_preferred(package, preferred[k], requested),
    ensures
        resolved_index(package, requested, Some(preferred), pinned) is Some,
        !semver::version_less(
            package.versions@[resolved_index(
                package,
                requested,
                Some(preferred),
                pinned,
            )->0].1.version.deep_view(),
            package.versions@[version_index(package, preferred[k], 0)->0].1.version.deep_view(),
        ),
{
    lemma_best_preferred(package, preferred, requested, preferred.len() as int, k);
}

/// What a specifier with the `npm:` protocol stands for: a package, and what is
/// asked for of it.
pub open spec fn npm_alias(range: Seq<char>) -> Option<(Seq<char>, Seq<char>)> {
    match text::stripped_prefix(range, "npm:"@) {
        None => None,
        Some(alias) => match text::rsplit_once(alias, '@') {
            Some((name, version)) if name.len() > 0 => Some((name, version)),
            _ => Some((alias, "latest"@)),
        },
    }
}

/// What a specifier with the `npm:` protocol stands for.
pub fn parse_npm_alias<'a>(version_range: &'a str) -> (parts: Option<(&'a str, &'a str)>)
    ensures
        match parts {
            Some((name, version)) => npm_alias(version_range@) == Some((name@, version@)),
            None => npm_alias(version_range@) is None,
        },
{
    match text::strip_prefix(version_range, "npm:") {
        None => None,
        Some(alias) => match text::split_at_last(alias, '@') {
            Some((name, version)) if name.unicode_len() > 0 => Some((name, version)),
            _ => Some((alias, "latest")),
        },
    }
}

/// The package that a dependency stands for, and what is asked for of it.
pub open spec fn requested_package(name: Seq<char>, range: Seq<char>) -> (Seq<char>, Seq<char>) {
    match npm_alias(range) {
        Some(parts) => parts,
        None => (name, range),
    }
}

/// The package that a dependency stands for, and what is asked for of it.
pub fn parse_request<'a>(name: &'a str, version_range: &'a str) -> (parts: (&'a str, &'a str))
    ensures
        (parts.0@, parts.1@) == requested_package(name@, version_range@),
{
    match parse_npm_alias(version_range) {
        Some(parts) => parts,
        None => (name, version_range),
    }
}

/// Where a registry keeps the tarball of a version.
pub open spec fn registry_tarball(registry: Seq<char>, name: Seq<char>, version: VersionModel) -> Seq<
    char,
> {
    let bare = match text::rsplit_once(name, '/') {
        Some((_, bare)) => bare,
        None => name,
    };
    text::trim_end_char(registry, '/') + "/"@ + name + "/-/"@ + bare + "-"@ + semver::version_text(
        version,
    ) + ".tgz"@
}

/// Where the registry of a package keeps the tarball of a version.
pub fn expected_registry_tarball(registry: &str, package_version: &PackageVersion) -> (url: String)
    ensures
        url@ == registry_tarball(
            registry@,
            package_version.name@,
            package_version.version.deep_view(),
        ),
{
    let name = package_version.name.as_str();
    let bare = match text::split_at_last(name, '/') {
        Some((_, bare)) => bare,
        None => name,
    };
    text::copy(text::trim_end(registry, '/')).concat("/").concat(name).concat("/-/").concat(
        bare,
    ).concat("-").concat(package_version.version.text().as_str()).concat(".tgz")
}

proof fn lemma_version_index(package: Package, number: Seq<char>, from: int)
    requires
        0 <= from,
    ensures
        version_index(package, number, from) matches Some(i) ==> from <= i
            < package.versions@.len() && package.versions@[i].0@ == number,
        version_index(package, number, from) is None ==> forall|i: int|
            from <= i < package.versions@.len() ==> (#[trigger] package.versions@[i]).0@ != number,
    decreases package.versions@.len() - from,
{
    if from < package.versions@.len() {
        lemma_version_index(package, number, from + 1);
    }
}

/// What a version, `latest` or a range is resolved to: the release of that number if
/// there is one, the one that is the latest, or, for a range that no preferred version
/// belongs to, what the registry has pinned for it.
pub proof fn law_request_is_resolved(
    found: Option<int>,
    package: Package,
    requested: Seq<char>,
    preferred: Option<Seq<Seq<char>>>,
    pinned: Option<int>,
)
    requires
        found == resolved_index(package, requested, preferred, pinned),
        package.well_formed(),
    ensures
        semver::parsed_version(requested) matches Some(version) ==> {
            let number = semver::version_text(version);
            &&& found matches Some(i) ==> 0 <= i < package.versions@.len()
                && package.versions@[i].0@ == number
            &&& found is None ==> forall|i: int|
                0 <= i < package.versions@.len() ==> (#[trigger] package.versions@[i]).0@ != number
        },
        semver::parsed_version(requested) is None && requested == "latest"@ ==> found == Some(
            package.latest as int,
        ),
        semver::parsed_version(requested) is None && requested != "latest"@ && preferred is None
            ==> found == pinned,
{
    if let Some(version) = semver::parsed_version(requested) {
        lemma_version_index(package, semver::version_text(version), 0);
    }
}

/// A version that is preferred, released and in the range that is asked for comes before
/// what the registry has pinned: then a preferred one is taken that the range admits;
/// else what is pinned.
pub proof fn law_preferred_versions_come_first(
    found: Option<int>,
    package: Package,
    range: Seq<char>,
    preferred: Seq<Seq<char>>,
    pinned: Option<int>,
    k: int,
    i: int,
)
    requires
        found == resolved_index(package, range, Some(preferred), pinned),
        package.well_formed(),
        semver::parsed_version(range) is None,
        range != "latest"@,
        semver::range_parses(range),
        0 <= k < preferred.len(),
        0 <= i < package.versions@.len(),
    ensures
        package.versions@[i].0@ == preferred[k] && semver::range_admits(
            range,
            package.versions@[i].1.version.deep_view(),
        ) ==> {
            &&& found matches Some(f) && 0 <= f < package.versions@.len()
                && preferred.contains(package.versions@[f].0@) && semver::range_admits(
                range,
                package.versions@[f].1.version.deep_view(),
            )
        },
        (forall|a: int, b: int|
            0 <= a < preferred.len() && 0 <= b < package.versions@.len() && (#[trigger]
            package.versions@[b]).0@ == #[trigger] preferred[a] ==> !semver::range_admits(
                range,
                package.versions@[b].1.version.deep_view(),
            )) ==> found == pinned,
{
    lemma_best_is_preferred(package, preferred, range, preferred.len() as int);
    lemma_version_index(package, preferred[k], 0);
    if package.versions@[i].0@ == preferred[k] && semver::range_admits(
        range,
        package.versions@[i].1.version.deep_view(),
    ) {
        let j = version_index(package, preferred[k], 0)->0;
        assert(package.versions@[j].0@ == package.versions@[i].0@);
        assert(i == j);
        assert(is_preferred(package, preferred[k], range));
    }
    if forall|a: int, b: int|
        0 <= a < preferred.len() && 0 <= b < package.versions@.len() && (#[trigger]
        package.versions@[b]).0@ == #[trigger] preferred[a] ==> !semver::range_admits(
            range,
            package.versions@[b].1.version.deep_view(),
        ) {
        assert forall|a: int| 0 <= a < preferred.len() implies !#[trigger] is_preferred(
            package,
            preferred[a],
            range,
        ) by {
            lemma_version_index(package, preferred[a], 0);
        }
    }
}

proof fn lemma_best_is_preferred(
    package: Package,
    preferred: Seq<Seq<char>>,
    range: Seq<char>,
    n: int,
)
    requires
        0 <= n <= preferred.len(),
    ensures
        best_preferred(package, preferred, range, n) is Some <==> exists|a: int|
            0 <= a < n && #[trigger] is_preferred(package, preferred[a], range),
        best_preferred(package, preferred, range, n) matches Some(f) ==> 0 <= f
            < package.versions@.len() && preferred.contains(package.versions@[f].0@)
            && semver::range_admits(range, package.versions@[f].1.version.deep_view()),
    decreases n,
{
    if n > 0 {
        lemma_best_is_preferred(package, preferred, range, n - 1);
        lemma_version_index(package, preferred[n - 1], 0);
    }
}

/// A request for a package under another name is one for that package in that version;
/// without a version it is for the latest one; any other request is as it stands.
pub proof fn law_alias_requests(name: Seq<char>, target: Seq<char>, version: Seq<char>)
    requires
        target.len() > 0,
        forall|k: int| 1 <= k < target.len() ==> target[k] != '@',
        !version.contains('@'),
    ensures
        requested_package(name, "npm:"@ + target.push('@') + version) == (target, version),
        target[0] != '@' ==> requested_package(name, "npm:"@ + target) == (target, "latest"@),
        target[0] == '@' ==> requested_package(name, "npm:"@ + target) == (target, "latest"@),
        !text::starts_with(version, "npm:"@) ==> requested_package(name, version) == (
            name,
            version,
        ),
{
    reveal_strlit("npm:");
    let whole = "npm:"@ + target.push('@') + version;
    let rest = target.push('@') + version;
    let m = target.len() as int;
    assert(whole =~= "npm:"@ + rest);
    assert(whole.subrange(0, 4) =~= "npm:"@);
    assert(text::tail(whole, 4) =~= rest);
    assert forall|j: int| m < j < rest.len() implies rest[j] != '@' by {
        assert(rest[j] == version[j - m - 1]);
        assert(version.contains(version[j - m - 1]));
    }
    assert(rest[m] == '@');
    text::lemma_last_index_is(rest, '@', m);
    assert(rest.subrange(0, m) =~= target);
    assert(text::tail(rest, m + 1) =~= version);
    let bare = "npm:"@ + target;
    assert(bare.subrange(0, 4) =~= "npm:"@);
    assert(text::tail(bare, 4) =~= target);
    text::lemma_last_index(target, '@');
    assert(text::last_index(target, '@') <= 0);
    if text::rsplit_once(target, '@') is Some {
        assert((text::rsplit_once(target, '@')->0).0.len() == 0);
    }
}

} // verus!
