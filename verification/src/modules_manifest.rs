//! What an installation leaves in `node_modules` about itself.
use crate::config;
use crate::config::Npmrc;
use crate::create_virtual_store;
use crate::lockfile;
use crate::lockfile::{DependencyGroup, DependencyPath, PackageMap};
use crate::paths;
use crate::slashed;
use crate::sorted;
use crate::table;
use crate::table::{Table, TextMap};
use crate::text;
use crate::value;
use crate::value::Value;
use vstd::prelude::*;
use vstd::string::*;

verus! {

/// How long the name of a directory in the virtual store may be.
pub open spec fn default_max_length(on_windows: bool) -> u16 {
    if on_windows {
        60
    } else {
        120
    }
}

/// How long the name of a directory in the virtual store may be, unless
/// something else is said. Windows has less room for paths.
pub fn default_virtual_store_dir_max_length(on_windows: bool) -> (n: u16)
    ensures
        n == default_max_length(on_windows),
{
    if on_windows {
        60
    } else {
        120
    }
}

/// The groups of dependencies that were installed.
#[derive(Debug, Clone, Copy, PartialEq, Eq, Structural)]
pub struct IncludedDependencies {
    pub dependencies: bool,
    pub dev_dependencies: bool,
    pub optional_dependencies: bool,
}

/// What an installation leaves in `node_modules` about itself.
#[derive(Debug)]
pub struct ModulesManifest {
    pub hoist_pattern: Option<Vec<String>>,
    pub hoisted_dependencies: Option<TextMap<TextMap<String>>>,
    pub injected_deps: Option<TextMap<Vec<String>>>,
    pub layout_version: Option<u8>,
    pub node_linker: Option<String>,
    pub package_manager: Option<String>,
    pub pending_builds: Vec<String>,
    pub pruned_at: Option<String>,
    pub public_hoist_pattern: Option<Vec<String>>,
    pub shamefully_hoist: Option<bool>,
    pub registries: Option<TextMap<String>>,
    pub store_dir: Option<String>,
    pub ignored_builds: Vec<String>,
    pub virtual_store_dir: Option<String>,
    pub virtual_store_dir_max_length: Option<u16>,
    pub included: Option<IncludedDependencies>,
    pub skipped: Vec<String>,
}

/// The groups that are installed.
pub open spec fn included_of(groups: Seq<DependencyGroup>) -> IncludedDependencies {
    IncludedDependencies {
        dependencies: groups.contains(DependencyGroup::Prod),
        dev_dependencies: groups.contains(DependencyGroup::Dev),
        optional_dependencies: groups.contains(DependencyGroup::Optional),
    }
}

fn has_group(groups: &Vec<DependencyGroup>, group: DependencyGroup) -> (yes: bool)
    ensures
        yes == groups@.contains(group),
{
    let mut i: usize = 0;
    while i < groups.len()
        invariant
            i <= groups@.len(),
            forall|j: int| 0 <= j < i ==> groups@[j] != group,
        decreases groups@.len() - i,
    {
        if groups[i] == group {
            assert(groups@[i as int] == group);
            return true;
        }
        i = i + 1;
    }
    false
}

/// The groups that are installed.
pub fn included_dependencies(dependency_groups: &Vec<DependencyGroup>) -> (included:
    IncludedDependencies)
    ensures
        included == included_of(dependency_groups@),
{
    IncludedDependencies {
        dependencies: has_group(dependency_groups, DependencyGroup::Prod),
        dev_dependencies: has_group(dependency_groups, DependencyGroup::Dev),
        optional_dependencies: has_group(dependency_groups, DependencyGroup::Optional),
    }
}

/// The number that a text stands for: digits alone, or behind one `+`.
pub open spec fn parsed_number(s: Seq<char>) -> Option<int> {
    let digits = if s.len() > 0 && s[0] == '+' {
        text::tail(s, 1)
    } else {
        s
    };
    if digits.len() > 0 && is_numeral(digits) && numeral_value(digits) <= u64::MAX {
        Some(numeral_value(digits))
    } else {
        None
    }
}

/// There are digits alone.
pub open spec fn is_numeral(s: Seq<char>) -> bool {
    forall|i: int| 0 <= i < s.len() ==> '0' <= #[trigger] s[i] <= '9'
}

/// The number that a run of digits stands for.
pub open spec fn numeral_value(s: Seq<char>) -> int
    decreases s.len(),
{
    if s.len() == 0 {
        0
    } else {
        numeral_value(s.drop_last()) * 10 + (s.last() as int - 48)
    }
}

proof fn lemma_numeral_grows(s: Seq<char>, n: int)
    requires
        0 <= n <= s.len(),
        is_numeral(s),
    ensures
        0 <= numeral_value(s.take(n)) <= numeral_value(s),
    decreases s.len() - n,
{
    if n < s.len() {
        lemma_numeral_grows(s, n + 1);
        assert(s.take(n + 1).drop_last() =~= s.take(n));
        assert(s.take(n + 1).last() == s[n]);
        lemma_numeral_positive(s.take(n));
    } else {
        assert(s.take(n) =~= s);
        lemma_numeral_positive(s);
    }
}

proof fn lemma_numeral_positive(s: Seq<char>)
    requires
        is_numeral(s),
    ensures
        numeral_value(s) >= 0,
    decreases s.len(),
{
    if s.len() > 0 {
        assert forall|i: int| 0 <= i < s.drop_last().len() implies '0' <= #[trigger] s.drop_last()[i]
            <= '9' by {
            assert(s[i] == s.drop_last()[i]);
        }
        lemma_numeral_positive(s.drop_last());
        assert('0' <= s[s.len() - 1] <= '9');
    }
}

/// The number that a text stands for.
pub fn parse_number(s: &str) -> (n: Option<u64>)
    ensures
        match n {
            Some(n) => parsed_number(s@) == Some(n as int),
            None => parsed_number(s@) is None,
        },
{
    let chars = text::chars_of(s);
    let start: usize = if chars.len() > 0 && chars[0] == '+' {
        1
    } else {
        0
    };
    let ghost digits = if s@.len() > 0 && s@[0] == '+' {
        text::tail(s@, 1)
    } else {
        s@
    };
    let count: usize = chars.len();
    assert(digits =~= chars@.subrange(start as int, count as int));
    if start == count {
        return None;
    }
    let mut i: usize = start;
    while i < count
        invariant
            start <= i <= count,
            start < count,
            count == chars@.len(),
            digits == chars@.subrange(start as int, count as int),
            forall|j: int| 0 <= j < i - start ==> '0' <= #[trigger] digits[j] <= '9',
            parsed_number(s@) == (if digits.len() > 0 && is_numeral(digits) && numeral_value(digits)
                <= u64::MAX {
                Some(numeral_value(digits))
            } else {
                None
            }),
        decreases count - i,
    {
        assert(digits[i - start] == chars@[i as int]);
        if !('0' <= chars[i] && chars[i] <= '9') {
            return None;
        }
        i = i + 1;
    }
    assert(is_numeral(digits));
    let mut value: u64 = 0;
    let mut k: usize = start;
    assert(digits.take(0) =~= Seq::<char>::empty());
    while k < count
        invariant
            start <= k <= count,
            start < count,
            count == chars@.len(),
            digits == chars@.subrange(start as int, count as int),
            is_numeral(digits),
            value == numeral_value(digits.take(k - start)),
            parsed_number(s@) == (if digits.len() > 0 && is_numeral(digits) && numeral_value(digits)
                <= u64::MAX {
                Some(numeral_value(digits))
            } else {
                None
            }),
        decreases count - k,
    {
        assert(digits[k - start] == chars@[k as int]);
        let d: u64 = (chars[k] as u32 - 48) as u64;
        proof {
            let next = digits.take(k + 1 - start);
            assert(next.drop_last() =~= digits.take(k - start));
            assert(next.last() == chars@[k as int]);
            lemma_numeral_grows(digits, k + 1 - start);
        }
        if value > (u64::MAX - d) / 10 {
            return None;
        }
        value = value * 10 + d;
        k = k + 1;
    }
    assert(digits.take(count - start) =~= digits);
    Some(value)
}

/// The second since the epoch that `httpdate` reads in a text.
pub uninterp spec fn http_date_seconds(s: Seq<char>) -> Option<u64>;

/// Reads a date with `httpdate::parse_http_date`. The result is named: it is a
/// function of the text alone. A date that can be read lies at or behind the
/// epoch.
#[verifier::external_body]
fn read_http_date(s: &str) -> (seconds: Option<u64>)
    ensures
        seconds == http_date_seconds(s@),
{
    let date = httpdate::parse_http_date(s).ok()?;
    date.duration_since(std::time::UNIX_EPOCH).ok().map(|since| since.as_secs())
}

/// How `httpdate` writes the second since the epoch.
pub uninterp spec fn http_date_text(seconds: u64) -> Seq<char>;

/// Writes a date with `httpdate::fmt_http_date`, which takes dates before the
/// year 10000. The result is named: it is a function of the second alone. A
/// comma stands behind the three letters of the weekday, and what is written
/// reads back as the same second.
#[verifier::external_body]
fn write_http_date(seconds: u64) -> (s: String)
    requires
        seconds < 253402300800,
    ensures
        s@ == http_date_text(seconds),
        s@.len() == 29,
        s@[3] == ',',
        http_date_seconds(s@) == Some(seconds),
{
    let since = std::time::Duration::from_secs(seconds);
    httpdate::fmt_http_date(std::time::UNIX_EPOCH + since)
}

/// The second that a mark in a manifest stands for: a number, or a date.
pub open spec fn mark_seconds(pruned_at: Seq<char>) -> Option<int> {
    match parsed_number(pruned_at) {
        Some(n) => Some(n),
        None => match http_date_seconds(pruned_at) {
            Some(n) => Some(n as int),
            None => None,
        },
    }
}

/// The mark for a second.
fn write_mark(seconds: u64) -> (mark: String)
    requires
        seconds < 253402300800,
    ensures
        mark@ == http_date_text(seconds),
        mark_seconds(mark@) == Some(seconds as int),
{
    let mark = write_http_date(seconds);
    proof {
        let digits = if mark@[0] == '+' {
            text::tail(mark@, 1)
        } else {
            mark@
        };
        let comma: int = if mark@[0] == '+' {
            2
        } else {
            3
        };
        assert(digits[comma] == ',');
        assert(!is_numeral(digits));
        assert(parsed_number(mark@) is None);
    }
    mark
}

/// A mark was set so long ago that it does not count any more. One that cannot
/// be read does not count; one that lies in the future does.
pub open spec fn is_expired(pruned_at: Seq<char>, max_age_minutes: u64, now: u64) -> bool {
    match mark_seconds(pruned_at) {
        None => true,
        Some(then) => {
            let limit = if max_age_minutes * 60 <= u64::MAX {
                max_age_minutes * 60
            } else {
                u64::MAX as int
            };
            then <= now && now - then >= limit
        },
    }
}

/// Whether a mark was set so long ago that it does not count any more. A time
/// that lies beyond the reach of the clock cannot be asked for.
pub fn cache_expired(pruned_at: &str, modules_cache_max_age_minutes: u64, now: u64) -> (expired: bool)
    requires
        parsed_number(pruned_at@) is Some ==> parsed_number(pruned_at@)->0 <= i64::MAX,
    ensures
        expired == is_expired(pruned_at@, modules_cache_max_age_minutes, now),
{
    let parsed = match parse_number(pruned_at) {
        Some(n) => Some(n),
        None => read_http_date(pruned_at),
    };
    match parsed {
        None => true,
        Some(then) => {
            if then > now {
                false
            } else {
                let limit: u64 = if modules_cache_max_age_minutes > u64::MAX / 60 {
                    u64::MAX
                } else {
                    modules_cache_max_age_minutes * 60
                };
                now - then >= limit
            }
        },
    }
}

/// The directories of the virtual store that belong to no package are to be
/// removed.
pub open spec fn prunes(pruned_at: Option<Seq<char>>, max_age_minutes: u64, now: u64) -> bool {
    match pruned_at {
        None => true,
        Some(pruned_at) => max_age_minutes == 0 || is_expired(pruned_at, max_age_minutes, now),
    }
}

/// Whether the directories of the virtual store that belong to no package are
/// to be removed.
pub fn should_prune_orphaned_virtual_store_entries(
    manifest: Option<&ModulesManifest>,
    modules_cache_max_age_minutes: u64,
    now: u64,
) -> (prune: bool)
    requires
        modules_cache_max_age_minutes > 0 && manifest is Some && manifest->0.pruned_at is Some
            && parsed_number(manifest->0.pruned_at->0@) is Some ==> parsed_number(
            manifest->0.pruned_at->0@,
        )->0 <= i64::MAX,
    ensures
        prune == prunes(
            match manifest {
                Some(manifest) => manifest.pruned_at.deep_view(),
                None => None,
            },
            modules_cache_max_age_minutes,
            now,
        ),
{
    match manifest {
        None => true,
        Some(manifest) => match &manifest.pruned_at {
            None => true,
            Some(pruned_at) => modules_cache_max_age_minutes == 0 || cache_expired(
                pruned_at.as_str(),
                modules_cache_max_age_minutes,
                now,
            ),
        },
    }
}

/// A path without the mark that Windows puts before long ones.
pub open spec fn without_verbatim_prefix(path: Seq<char>) -> Seq<char> {
    match text::stripped_prefix(path, "\\\\?\\UNC\\"@) {
        Some(rest) => "\\\\"@ + rest,
        None => match text::stripped_prefix(path, "\\\\?\\"@) {
            Some(rest) => rest,
            None => path,
        },
    }
}

/// A path without the mark that Windows puts before long ones.
pub fn normalize_windows_verbatim_path(path: &str) -> (normal: String)
    ensures
        normal@ == without_verbatim_prefix(path@),
{
    match text::strip_prefix(path, "\\\\?\\UNC\\") {
        Some(rest) => text::copy("\\\\").concat(rest),
        None => match text::strip_prefix(path, "\\\\?\\") {
            Some(rest) => text::copy(rest),
            None => text::copy(path),
        },
    }
}

/// The program that is said to have installed.
pub open spec fn package_manager_of(pnpm_version: Option<Seq<char>>, own_version: Seq<char>) -> Seq<
    char,
> {
    match pnpm_version {
        Some(version) => "pnpm@"@ + version,
        None => "pacquet@"@ + own_version,
    }
}

/// The program that is said to have installed: pnpm, where it can be asked for
/// its version.
pub fn detect_pnpm_package_manager(pnpm_version: Option<&str>, own_version: &str) -> (name: String)
    ensures
        name@ == package_manager_of(pnpm_version.deep_view(), own_version@),
{
    match pnpm_version {
        Some(version) => text::copy("pnpm@").concat(version),
        None => text::copy("pacquet@").concat(own_version),
    }
}

/// The version in what pnpm printed when it was asked for it.
pub open spec fn printed_version(output: Seq<char>) -> Option<Seq<char>> {
    if text::trimmed(output).len() > 0 {
        Some(text::trimmed(output))
    } else {
        None
    }
}

/// The version in what pnpm printed when it was asked for it.
pub fn pnpm_version_in(output: &str) -> (version: Option<&str>)
    ensures
        version.deep_view() == printed_version(output@),
{
    let version = text::trim_blanks(output);
    if version.unicode_len() > 0 {
        Some(version)
    } else {
        None
    }
}

/// The program that is said to have installed, once it was asked for. The first
/// answer stays.
#[derive(Debug)]
pub struct PackageManagerName {
    answer: Option<String>,
}

impl PackageManagerName {
    /// The answer, if there is one.
    pub closed spec fn known(&self) -> Option<Seq<char>> {
        self.answer.deep_view()
    }

    /// Nothing was asked for yet.
    pub fn new() -> (name: PackageManagerName)
        ensures
            name.known() is None,
    {
        PackageManagerName { answer: None }
    }

    /// Whether there is an answer.
    pub fn is_known(&self) -> (yes: bool)
        ensures
            yes == (self.known() is Some),
    {
        self.answer.is_some()
    }

    /// The answer. The version of pnpm counts where there is none yet.
    pub fn settle(&mut self, pnpm_version: Option<&str>, own_version: &str) -> (name: String)
        ensures
            name@ == settled(old(self).known(), pnpm_version.deep_view(), own_version@),
            final(self).known() == Some(name@),
    {
        match &self.answer {
            Some(answer) => answer.clone(),
            None => {
                let answer = detect_pnpm_package_manager(pnpm_version, own_version);
                self.answer = Some(answer.clone());
                answer
            },
        }
    }
}

/// The program that is said to have installed, given what was said before.
pub open spec fn settled(
    known: Option<Seq<char>>,
    pnpm_version: Option<Seq<char>>,
    own_version: Seq<char>,
) -> Seq<char> {
    match known {
        Some(answer) => answer,
        None => package_manager_of(pnpm_version, own_version),
    }
}

/// What is known after the first `n` times that somebody asked, each time with
/// the version of pnpm that was found then.
pub open spec fn known_after(
    found: Seq<Option<Seq<char>>>,
    own_version: Seq<char>,
    n: int,
) -> Option<Seq<char>>
    decreases n,
{
    if n <= 0 {
        None
    } else {
        Some(settled(known_after(found, own_version, n - 1), found[n - 1], own_version))
    }
}

/// However often somebody asks, the answer is that of the first time.
pub proof fn law_first_answer_stays(
    found: Seq<Option<Seq<char>>>,
    own_version: Seq<char>,
    n: int,
)
    requires
        1 <= n <= found.len(),
    ensures
        known_after(found, own_version, n) == Some(package_manager_of(found[0], own_version)),
    decreases n,
{
    reveal_with_fuel(known_after, 2);
    if n > 1 {
        law_first_answer_stays(found, own_version, n - 1);
    }
}

/// How a package is called in the manifest: its key without the leading `/`.
pub open spec fn package_id(path: DependencyPath) -> Seq<char> {
    match path.custom_registry {
        Some(registry) => registry@ + "/"@ + lockfile::specifier_text(path.package_specifier),
        None => lockfile::specifier_text(path.package_specifier),
    }
}

/// How a package is called in the manifest.
pub fn modules_manifest_package_id(dependency_path: &DependencyPath) -> (id: String)
    ensures
        id@ == package_id(*dependency_path),
{
    let specifier = dependency_path.package_specifier.text();
    match &dependency_path.custom_registry {
        Some(registry) => registry.clone().concat("/").concat(specifier.as_str()),
        None => specifier,
    }
}

/// A text without one leading `/`.
pub open spec fn without_slash(s: Seq<char>) -> Seq<char> {
    if s.len() > 0 && s[0] == '/' {
        text::tail(s, 1)
    } else {
        s
    }
}

fn strip_slash(s: String) -> (rest: String)
    ensures
        rest@ == without_slash(s@),
{
    if text::has_first_char(s.as_str(), '/') {
        let n: usize = s.as_str().unicode_len();
        text::copy(s.as_str().substring_char(1, n))
    } else {
        s
    }
}

/// The virtual store as it is written down: seen from `node_modules`, or on
/// Windows where it really lies.
pub open spec fn store_dir_seen(
    modules_dir: Seq<char>,
    virtual_store_dir: Seq<char>,
    place_on_windows: Option<Seq<char>>,
) -> Seq<char> {
    match place_on_windows {
        Some(place) => without_verbatim_prefix(place),
        None => match paths::stripped(modules_dir, virtual_store_dir, false) {
            Some(rest) => if rest.len() == 0 {
                "."@
            } else {
                rest
            },
            None => virtual_store_dir,
        },
    }
}

/// The virtual store as it is written down. On Windows `place_on_windows` tells
/// where it really lies.
pub fn relative_virtual_store_dir(
    modules_dir: &str,
    virtual_store_dir: &str,
    place_on_windows: Option<&str>,
) -> (dir: String)
    ensures
        dir@ == store_dir_seen(modules_dir@, virtual_store_dir@, place_on_windows.deep_view()),
{
    if let Some(place) = place_on_windows {
        return normalize_windows_verbatim_path(place);
    }
    match paths::strip_base(modules_dir, virtual_store_dir, false) {
        Some(rest) => if rest.as_str().unicode_len() == 0 {
            text::copy(".")
        } else {
            rest
        },
        None => text::copy(virtual_store_dir),
    }
}

/// Where the virtual store lies that a manifest names.
pub open spec fn resolved_store_dir(
    modules_dir: Seq<char>,
    named: Option<Seq<char>>,
    on_windows: bool,
) -> Seq<char> {
    paths::joined(
        modules_dir,
        match named {
            Some(dir) => dir,
            None => ".pnpm"@,
        },
        on_windows,
    )
}

impl ModulesManifest {
    /// Where the virtual store lies.
    pub fn resolved_virtual_store_dir(&self, modules_dir: &str, on_windows: bool) -> (dir: String)
        ensures
            dir@ == resolved_store_dir(
                modules_dir@,
                self.virtual_store_dir.deep_view(),
                on_windows,
            ),
    {
        match &self.virtual_store_dir {
            None => paths::join_paths(modules_dir, ".pnpm", on_windows),
            Some(dir) => paths::join_paths(modules_dir, dir.as_str(), on_windows),
        }
    }

    /// How long the name of a directory in the virtual store may be.
    pub fn virtual_store_dir_max_length(&self, on_windows: bool) -> (n: u16)
        ensures
            n == (match self.virtual_store_dir_max_length {
                Some(n) => n,
                None => default_max_length(on_windows),
            }),
    {
        match self.virtual_store_dir_max_length {
            Some(n) => n,
            None => default_virtual_store_dir_max_length(on_windows),
        }
    }
}

/// A manifest is another one with what that leaves out filled in.
pub open spec fn is_completed(
    complete: ModulesManifest,
    manifest: ModulesManifest,
    modules_dir: Seq<char>,
    now: u64,
    on_windows: bool,
) -> bool {
    &&& complete.virtual_store_dir.deep_view() == Some(
        resolved_store_dir(modules_dir, manifest.virtual_store_dir.deep_view(), on_windows),
    )
    &&& complete.public_hoist_pattern.deep_view() == (match manifest.public_hoist_pattern {
        Some(_) => manifest.public_hoist_pattern.deep_view(),
        None => match manifest.shamefully_hoist {
            Some(true) => Some(seq!["*"@]),
            Some(false) => Some(Seq::empty()),
            None => None,
        },
    })
    &&& complete.pruned_at.deep_view() == (match manifest.pruned_at {
        Some(_) => manifest.pruned_at.deep_view(),
        None => Some(http_date_text(now)),
    })
    &&& manifest.pruned_at is None ==> mark_seconds(complete.pruned_at->0@) == Some(now as int)
    &&& complete.virtual_store_dir_max_length == Some(
        match manifest.virtual_store_dir_max_length {
            Some(n) => n,
            None => default_max_length(on_windows),
        },
    )
    &&& complete == (ModulesManifest {
        virtual_store_dir: complete.virtual_store_dir,
        public_hoist_pattern: complete.public_hoist_pattern,
        pruned_at: complete.pruned_at,
        virtual_store_dir_max_length: complete.virtual_store_dir_max_length,
        ..manifest
    })
}

/// A manifest that was read, with what it leaves out filled in.
pub fn complete_modules_manifest(
    manifest: ModulesManifest,
    modules_dir: &str,
    now: u64,
    on_windows: bool,
) -> (complete: ModulesManifest)
    requires
        manifest.pruned_at is None ==> now < 253402300800,
    ensures
        is_completed(complete, manifest, modules_dir@, now, on_windows),
{
    let virtual_store_dir = manifest.resolved_virtual_store_dir(modules_dir, on_windows);
    let max_length = manifest.virtual_store_dir_max_length(on_windows);
    let public_hoist_pattern = match manifest.public_hoist_pattern {
        Some(patterns) => Some(patterns),
        None => match manifest.shamefully_hoist {
            Some(true) => {
                let mut patterns: Vec<String> = Vec::new();
                patterns.push(text::copy("*"));
                assert(patterns.deep_view() =~= seq!["*"@]);
                Some(patterns)
            },
            Some(false) => {
                let patterns: Vec<String> = Vec::new();
                assert(patterns.deep_view() =~= Seq::empty());
                Some(patterns)
            },
            None => None,
        },
    };
    let pruned_at = match manifest.pruned_at {
        Some(pruned_at) => Some(pruned_at),
        None => Some(write_mark(now)),
    };
    ModulesManifest {
        hoist_pattern: manifest.hoist_pattern,
        hoisted_dependencies: manifest.hoisted_dependencies,
        injected_deps: manifest.injected_deps,
        layout_version: manifest.layout_version,
        node_linker: manifest.node_linker,
        package_manager: manifest.package_manager,
        pending_builds: manifest.pending_builds,
        pruned_at,
        public_hoist_pattern,
        shamefully_hoist: manifest.shamefully_hoist,
        registries: manifest.registries,
        store_dir: manifest.store_dir,
        ignored_builds: manifest.ignored_builds,
        virtual_store_dir: Some(virtual_store_dir),
        virtual_store_dir_max_length: Some(max_length),
        included: manifest.included,
        skipped: manifest.skipped,
    }
}

/// What lies in a directory of hoisted packages: its name, whether it is a
/// directory, the names of what lies in it if it is one of a scope, and whether
/// what it leads to is there.
#[derive(Debug)]
pub struct HoistDirEntry {
    pub name: String,
    pub is_dir: bool,
    pub resolves: bool,
    pub scoped: Vec<(String, bool)>,
}

/// A hoisted package: the name that it goes by, and whether it is there.
#[derive(Debug)]
pub struct HoistEntry {
    pub alias: String,
    pub resolves: bool,
}

impl HoistEntry {
    pub open spec fn pair(self) -> (Seq<char>, bool) {
        (self.alias@, self.resolves)
    }
}

/// Hoisted packages, each with the name that it goes by and whether it is there.
pub open spec fn entry_pairs(entries: Seq<HoistEntry>) -> Seq<(Seq<char>, bool)> {
    entries.map_values(|entry: HoistEntry| entry.pair())
}

/// The hoisted packages of a scope.
pub open spec fn scoped_aliases(scope: Seq<char>, scoped: Seq<(String, bool)>) -> Seq<
    (Seq<char>, bool),
> {
    scoped.map_values(|entry: (String, bool)| (scope + "/"@ + entry.0@, entry.1))
}

/// The hoisted packages that an entry of a directory stands for.
pub open spec fn aliases_of(entry: HoistDirEntry) -> Seq<(Seq<char>, bool)> {
    if entry.name@ == ".bin"@ || entry.name@ == ".pnpm"@ {
        Seq::empty()
    } else if entry.name@.len() > 0 && entry.name@[0] == '@' && entry.is_dir {
        scoped_aliases(entry.name@, entry.scoped@)
    } else {
        let alias = match text::stripped_prefix(entry.name@, ".ignored_"@) {
            Some(rest) => rest,
            None => entry.name@,
        };
        seq![(alias, entry.resolves)]
    }
}

/// The hoisted packages in a directory.
pub open spec fn dir_aliases(entries: Seq<HoistDirEntry>) -> Seq<(Seq<char>, bool)>
    decreases entries.len(),
{
    if entries.len() == 0 {
        Seq::empty()
    } else {
        dir_aliases(entries.drop_last()) + aliases_of(entries.last())
    }
}

/// The hoisted packages in a directory, given what lies in it.
pub fn collect_hoist_dir_entries(listing: &Vec<HoistDirEntry>) -> (entries: Vec<HoistEntry>)
    ensures
        entry_pairs(entries@) == dir_aliases(listing@),
{
    let mut entries: Vec<HoistEntry> = Vec::new();
    let mut i: usize = 0;
    assert(entry_pairs(entries@) =~= dir_aliases(listing@.take(0)));
    while i < listing.len()
        invariant
            i <= listing@.len(),
            entry_pairs(entries@) == dir_aliases(listing@.take(i as int)),
        decreases listing@.len() - i,
    {
        let ghost before = entries@;
        assert(listing@.take(i + 1).drop_last() =~= listing@.take(i as int));
        let entry = &listing[i];
        let name = entry.name.as_str();
        if text::same_text(name, ".bin") || text::same_text(name, ".pnpm") {
            assert(dir_aliases(listing@.take(i + 1)) =~= dir_aliases(listing@.take(i as int)));
        } else if text::has_first_char(name, '@') && entry.is_dir {
            let mut k: usize = 0;
            while k < entry.scoped.len()
                invariant
                    k <= entry.scoped@.len(),
                    name@ == entry.name@,
                    entry_pairs(entries@) == entry_pairs(before) + scoped_aliases(
                        name@,
                        entry.scoped@.take(k as int),
                    ),
                decreases entry.scoped@.len() - k,
            {
                let ghost held = entries@;
                let alias = text::copy(name).concat("/").concat(entry.scoped[k].0.as_str());
                entries.push(HoistEntry { alias, resolves: entry.scoped[k].1 });
                proof {
                    assert(entry_pairs(entries@) =~= entry_pairs(held).push(
                        (name@ + "/"@ + entry.scoped@[k as int].0@, entry.scoped@[k as int].1),
                    ));
                    assert(scoped_aliases(name@, entry.scoped@.take(k + 1)) =~= scoped_aliases(
                        name@,
                        entry.scoped@.take(k as int),
                    ).push(
                        (name@ + "/"@ + entry.scoped@[k as int].0@, entry.scoped@[k as int].1),
                    ));
                    assert(entry_pairs(entries@) =~= entry_pairs(before) + scoped_aliases(
                        name@,
                        entry.scoped@.take(k + 1),
                    ));
                }
                k = k + 1;
            }
            assert(entry.scoped@.take(k as int) =~= entry.scoped@);
        } else {
            let alias = match text::strip_prefix(name, ".ignored_") {
                Some(rest) => rest,
                None => name,
            };
            entries.push(HoistEntry { alias: text::copy(alias), resolves: entry.resolves });
            assert(entry_pairs(entries@) =~= entry_pairs(before) + aliases_of(*entry));
        }
        i = i + 1;
    }
    assert(listing@.take(i as int) =~= listing@);
    entries
}

/// The hoisted packages by their keys: for each the names that it goes by, and
/// whether they are private or public.
pub type HoistedModel = Map<Seq<char>, Map<Seq<char>, Seq<char>>>;

/// One more name for a package.
pub open spec fn with_alias(
    hoisted: HoistedModel,
    key: Seq<char>,
    alias: Seq<char>,
    visibility: Seq<char>,
) -> HoistedModel {
    let before = if hoisted.dom().contains(key) {
        hoisted[key]
    } else {
        Map::empty()
    };
    hoisted.insert(key, before.insert(alias, visibility))
}

fn add_alias(
    hoisted: &mut TextMap<TextMap<String>>,
    key: String,
    alias: &str,
    visibility: &str,
)
    ensures
        final(hoisted).deep_view() == with_alias(
            old(hoisted).deep_view(),
            key@,
            alias@,
            visibility@,
        ),
{
    let mut aliases: TextMap<String> = match hoisted.get(&key) {
        Some(before) => before.duplicate(),
        None => Table::new(),
    };
    aliases.insert(text::copy(alias), text::copy(visibility));
    hoisted.insert(key, aliases);
}

/// The last one of the first `n` packages with a name.
pub open spec fn named_package(packages: PackageMap, name: Seq<char>, n: int) -> Option<int>
    decreases n,
{
    if n <= 0 {
        None
    } else if lockfile::specifier_name(packages.pairs()[n - 1].0.specifier) == name {
        Some(n - 1)
    } else {
        named_package(packages, name, n - 1)
    }
}

/// The key under which a hoisted package is listed.
pub open spec fn hoisted_key(packages: PackageMap, alias: Seq<char>) -> Option<Seq<char>> {
    match named_package(packages, alias, packages.pairs().len() as int) {
        Some(i) => Some(without_slash(lockfile::path_text(packages.key(i)))),
        None => None,
    }
}

/// A hoisted package that is listed: it is there, is known, and is no direct
/// dependency.
pub open spec fn is_listed(
    packages: PackageMap,
    direct: Seq<Seq<char>>,
    entry: (Seq<char>, bool),
) -> bool {
    !direct.contains(entry.0) && entry.1 && hoisted_key(packages, entry.0) is Some
}

/// The hoisted packages with those that were found.
pub open spec fn with_found(
    hoisted: HoistedModel,
    packages: PackageMap,
    direct: Seq<Seq<char>>,
    entries: Seq<(Seq<char>, bool)>,
    visibility: Seq<char>,
) -> HoistedModel
    decreases entries.len(),
{
    if entries.len() == 0 {
        hoisted
    } else {
        let before = with_found(hoisted, packages, direct, entries.drop_last(), visibility);
        let entry = entries.last();
        if is_listed(packages, direct, entry) {
            with_alias(before, hoisted_key(packages, entry.0)->0, entry.0, visibility)
        } else {
            before
        }
    }
}

/// Some of the packages that were found is listed.
pub open spec fn finds_any(
    packages: PackageMap,
    direct: Seq<Seq<char>>,
    entries: Seq<(Seq<char>, bool)>,
) -> bool {
    exists|i: int| 0 <= i < entries.len() && is_listed(packages, direct, #[trigger] entries[i])
}

/// The key under which a hoisted package is listed.
fn find_hoisted_key(packages: &PackageMap, alias: &str) -> (key: Option<String>)
    ensures
        key.deep_view() == hoisted_key(*packages, alias@),
{
    let count: usize = packages.len();
    let mut n: usize = count;
    while n > 0
        invariant
            count == packages.pairs().len(),
            n <= count,
            named_package(*packages, alias@, count as int) == named_package(
                *packages,
                alias@,
                n as int,
            ),
        decreases n,
    {
        let key = packages.key_at(n - 1);
        if text::same_text(key.package_specifier.name(), alias) {
            return Some(strip_slash(key.text()));
        }
        n = n - 1;
    }
    None
}

/// Lists the hoisted packages that were found, and tells whether there was any.
pub fn collect_hoisted_dependencies(
    entries: &Vec<HoistEntry>,
    packages: &PackageMap,
    direct_dependency_names: &Vec<String>,
    visibility: &str,
    hoisted: &mut TextMap<TextMap<String>>,
) -> (added_any: bool)
    ensures
        final(hoisted).deep_view() == with_found(
            old(hoisted).deep_view(),
            *packages,
            direct_dependency_names.deep_view(),
            entry_pairs(entries@),
            visibility@,
        ),
        added_any == finds_any(
            *packages,
            direct_dependency_names.deep_view(),
            entry_pairs(entries@),
        ),
{
    let ghost all = entry_pairs(entries@);
    let ghost direct = direct_dependency_names.deep_view();
    let ghost before = hoisted.deep_view();
    let mut added_any = false;
    let mut i: usize = 0;
    assert(all.take(0) =~= Seq::empty());
    while i < entries.len()
        invariant
            i <= entries@.len(),
            all == entry_pairs(entries@),
            direct == direct_dependency_names.deep_view(),
            hoisted.deep_view() == with_found(
                before,
                *packages,
                direct,
                all.take(i as int),
                visibility@,
            ),
            added_any == (exists|j: int|
                0 <= j < i && is_listed(*packages, direct, #[trigger] all[j])),
        decreases entries@.len() - i,
    {
        let alias = entries[i].alias.as_str();
        proof {
            assert(all.take(i + 1).drop_last() =~= all.take(i as int));
            assert(all.take(i + 1).last() == all[i as int]);
            assert(all[i as int] == entries@[i as int].pair());
        }
        if !value::list_contains(direct_dependency_names, alias) && entries[i].resolves {
            if let Some(key) = find_hoisted_key(packages, alias) {
                add_alias(hoisted, key, alias, visibility);
                added_any = true;
                assert(is_listed(*packages, direct, all[i as int]));
            }
        }
        i = i + 1;
    }
    assert(all.take(i as int) =~= all);
    added_any
}

/// The hoisted packages with those chosen by the patterns, one after the other.
pub open spec fn with_chosen(
    hoisted: HoistedModel,
    packages: PackageMap,
    direct: Seq<Seq<char>>,
    chosen: Map<Seq<char>, int>,
    names: Seq<Seq<char>>,
    visibility: Seq<char>,
) -> HoistedModel
    decreases names.len(),
{
    if names.len() == 0 {
        hoisted
    } else {
        let before = with_chosen(
            hoisted,
            packages,
            direct,
            chosen,
            names.drop_last(),
            visibility,
        );
        let name = names.last();
        if direct.contains(name) {
            before
        } else {
            with_alias(
                before,
                without_slash(
                    lockfile::name_ver_peer_text(
                        create_virtual_store::registry_package(packages, chosen[name]),
                    ),
                ),
                name,
                visibility,
            )
        }
    }
}

/// The packages that the patterns choose.
pub open spec fn chosen_packages(
    config: Npmrc,
    packages: PackageMap,
    patterns: Seq<Seq<char>>,
) -> Map<Seq<char>, int> {
    create_virtual_store::hoisted_packages(
        packages,
        config.dedupe_peer_dependents,
        patterns,
        packages.pairs().len() as int,
    )
}

/// The hoisted packages of one kind: those that were found or, if none was, the
/// ones that the patterns choose.
pub open spec fn with_kind(
    hoisted: HoistedModel,
    config: Npmrc,
    packages: PackageMap,
    direct: Seq<Seq<char>>,
    found: Seq<(Seq<char>, bool)>,
    patterns: Seq<Seq<char>>,
    visibility: Seq<char>,
) -> HoistedModel {
    if finds_any(packages, direct, found) {
        with_found(hoisted, packages, direct, found, visibility)
    } else {
        let chosen = chosen_packages(config, packages, patterns);
        with_chosen(
            with_found(hoisted, packages, direct, found, visibility),
            packages,
            direct,
            chosen,
            sorted::in_order(chosen.dom()),
            visibility,
        )
    }
}

/// The hoisted packages that a manifest lists.
pub open spec fn hoisted_of(
    config: Npmrc,
    packages: Option<PackageMap>,
    direct: Seq<Seq<char>>,
    found_private: Seq<(Seq<char>, bool)>,
    found_public: Seq<(Seq<char>, bool)>,
) -> Option<HoistedModel> {
    if packages is None || !config.symlink {
        None
    } else {
        let inner = if config.hoist || config.shamefully_hoist {
            with_kind(
                Map::empty(),
                config,
                packages->0,
                direct,
                found_private,
                config.hoist_pattern.deep_view(),
                "private"@,
            )
        } else {
            Map::empty()
        };
        let all = if config.public_hoist_pattern@.len() > 0 {
            with_kind(
                inner,
                config,
                packages->0,
                direct,
                found_public,
                config.public_hoist_pattern.deep_view(),
                "public"@,
            )
        } else {
            inner
        };
        if all == Map::<Seq<char>, Map<Seq<char>, Seq<char>>>::empty() {
            None
        } else {
            Some(all)
        }
    }
}

/// No package is listed under one of some names.
pub open spec fn lists_none_of(hoisted: HoistedModel, names: Seq<Seq<char>>) -> bool {
    forall|key: Seq<char>, alias: Seq<char>|
        #![trigger hoisted[key].dom().contains(alias)]
        hoisted.dom().contains(key) && hoisted[key].dom().contains(alias) ==> !names.contains(alias)
}

proof fn lemma_found_lists_none(
    hoisted: HoistedModel,
    packages: PackageMap,
    direct: Seq<Seq<char>>,
    entries: Seq<(Seq<char>, bool)>,
    visibility: Seq<char>,
)
    requires
        lists_none_of(hoisted, direct),
    ensures
        lists_none_of(with_found(hoisted, packages, direct, entries, visibility), direct),
    decreases entries.len(),
{
    if entries.len() > 0 {
        lemma_found_lists_none(hoisted, packages, direct, entries.drop_last(), visibility);
    }
}

proof fn lemma_chosen_lists_none(
    hoisted: HoistedModel,
    packages: PackageMap,
    direct: Seq<Seq<char>>,
    chosen: Map<Seq<char>, int>,
    names: Seq<Seq<char>>,
    visibility: Seq<char>,
)
    requires
        lists_none_of(hoisted, direct),
    ensures
        lists_none_of(with_chosen(hoisted, packages, direct, chosen, names, visibility), direct),
    decreases names.len(),
{
    if names.len() > 0 {
        lemma_chosen_lists_none(
            hoisted,
            packages,
            direct,
            chosen,
            names.drop_last(),
            visibility,
        );
    }
}

proof fn lemma_kind_lists_none(
    hoisted: HoistedModel,
    config: Npmrc,
    packages: PackageMap,
    direct: Seq<Seq<char>>,
    found: Seq<(Seq<char>, bool)>,
    patterns: Seq<Seq<char>>,
    visibility: Seq<char>,
)
    requires
        lists_none_of(hoisted, direct),
    ensures
        lists_none_of(
            with_kind(hoisted, config, packages, direct, found, patterns, visibility),
            direct,
        ),
{
    let chosen = chosen_packages(config, packages, patterns);
    lemma_found_lists_none(hoisted, packages, direct, found, visibility);
    lemma_chosen_lists_none(
        with_found(hoisted, packages, direct, found, visibility),
        packages,
        direct,
        chosen,
        sorted::in_order(chosen.dom()),
        visibility,
    );
}

/// A direct dependency is never listed as a hoisted package.
pub proof fn law_direct_dependencies_are_not_hoisted(
    config: Npmrc,
    packages: PackageMap,
    direct: Seq<Seq<char>>,
    found_private: Seq<(Seq<char>, bool)>,
    found_public: Seq<(Seq<char>, bool)>,
)
    ensures
        hoisted_of(config, Some(packages), direct, found_private, found_public) matches Some(all)
            ==> lists_none_of(all, direct),
{
    let none: HoistedModel = Map::empty();
    lemma_kind_lists_none(
        none,
        config,
        packages,
        direct,
        found_private,
        config.hoist_pattern.deep_view(),
        "private"@,
    );
    let inner = if config.hoist || config.shamefully_hoist {
        with_kind(
            none,
            config,
            packages,
            direct,
            found_private,
            config.hoist_pattern.deep_view(),
            "private"@,
        )
    } else {
        none
    };
    lemma_kind_lists_none(
        inner,
        config,
        packages,
        direct,
        found_public,
        config.public_hoist_pattern.deep_view(),
        "public"@,
    );
}

fn add_kind(
    hoisted: &mut TextMap<TextMap<String>>,
    config: &Npmrc,
    packages: &PackageMap,
    direct_dependency_names: &Vec<String>,
    found: &Vec<HoistEntry>,
    hoist_patterns: &Vec<String>,
    visibility: &str,
)
    ensures
        final(hoisted).deep_view() == with_kind(
            old(hoisted).deep_view(),
            *config,
            *packages,
            direct_dependency_names.deep_view(),
            entry_pairs(found@),
            hoist_patterns.deep_view(),
            visibility@,
        ),
{
    if collect_hoisted_dependencies(found, packages, direct_dependency_names, visibility, hoisted) {
        return;
    }
    let ghost before = hoisted.deep_view();
    let ghost direct = direct_dependency_names.deep_view();
    let ghost chosen = chosen_packages(*config, *packages, hoist_patterns.deep_view());
    let selected = create_virtual_store::select_hoisted_packages(
        packages,
        config.dedupe_peer_dependents,
        hoist_patterns,
    );
    let ghost names = selected.names.deep_view();
    let mut k: usize = 0;
    assert(names.take(0) =~= Seq::empty());
    while k < selected.names.len()
        invariant
            k <= selected.names@.len(),
            names == selected.names.deep_view(),
            names.to_set() == chosen.dom(),
            selected.positions@.len() == names.len(),
            selected.names@.len() == names.len(),
            chosen == chosen_packages(*config, *packages, hoist_patterns.deep_view()),
            forall|j: int|
                0 <= j < selected.positions@.len() ==> #[trigger] selected.positions@[j]
                    == chosen[names[j]] && selected.positions@[j] < packages.pairs().len(),
            direct == direct_dependency_names.deep_view(),
            hoisted.deep_view() == with_chosen(
                before,
                *packages,
                direct,
                chosen,
                names.take(k as int),
                visibility@,
            ),
        decreases selected.names@.len() - k,
    {
        let name = selected.names[k].as_str();
        let position = selected.positions[k];
        proof {
            assert(names[k as int] == name@);
            assert(names.to_set().contains(names[k as int]));
            assert(names.take(k + 1).drop_last() =~= names.take(k as int));
            assert(names.take(k + 1).last() == name@);
            create_virtual_store::lemma_hoisted_registry(
                *packages,
                config.dedupe_peer_dependents,
                hoist_patterns.deep_view(),
                name@,
                packages.pairs().len() as int,
            );
        }
        if !value::list_contains(direct_dependency_names, name) {
            let key = strip_slash(packages.key_at(position).package_specifier.text());
            add_alias(hoisted, key, name, visibility);
        }
        k = k + 1;
    }
    assert(names.take(k as int) =~= names);
}

/// The hoisted packages that a manifest lists. What was found inside the
/// virtual store and in `node_modules` counts before what the patterns choose.
pub fn hoisted_dependencies(
    config: &Npmrc,
    packages: Option<&PackageMap>,
    direct_dependency_names: &Vec<String>,
    found_private: &Vec<HoistEntry>,
    found_public: &Vec<HoistEntry>,
) -> (hoisted: Option<TextMap<TextMap<String>>>)
    ensures
        hoisted.deep_view() == hoisted_of(
            *config,
            match packages {
                Some(packages) => Some(*packages),
                None => None,
            },
            direct_dependency_names.deep_view(),
            entry_pairs(found_private@),
            entry_pairs(found_public@),
        ),
{
    let packages = match packages {
        Some(packages) if config.symlink => packages,
        _ => {
            return None;
        },
    };
    let mut hoisted: TextMap<TextMap<String>> = Table::new();
    if config.hoist || config.shamefully_hoist {
        add_kind(
            &mut hoisted,
            config,
            packages,
            direct_dependency_names,
            found_private,
            &config.hoist_pattern,
            "private",
        );
    }
    if config.public_hoist_pattern.len() > 0 {
        add_kind(
            &mut hoisted,
            config,
            packages,
            direct_dependency_names,
            found_public,
            &config.public_hoist_pattern,
            "public",
        );
    }
    if hoisted.is_empty() {
        None
    } else {
        Some(hoisted)
    }
}

/// The optional packages that do not fit the machine, by what they are called
/// in the manifest.
pub open spec fn unfit_packages(packages: PackageMap, unfit: Seq<bool>, n: int) -> Set<Seq<char>>
    decreases n,
{
    if n <= 0 {
        Set::empty()
    } else {
        let before = unfit_packages(packages, unfit, n - 1);
        if packages.pairs()[n - 1].1.optional == Some(true) && unfit[n - 1] {
            before.insert(package_id(packages.key(n - 1)))
        } else {
            before
        }
    }
}

/// What was skipped, in order: what is said to be, and the optional packages
/// that do not fit the machine.
pub fn skipped_packages(
    skipped: &Vec<String>,
    packages: Option<&PackageMap>,
    unfit: &Vec<bool>,
) -> (all: Vec<String>)
    requires
        packages is Some ==> unfit@.len() == packages->0.pairs().len(),
    ensures
        all.deep_view() == sorted::in_order(
            match packages {
                Some(packages) => skipped.deep_view().to_set().union(
                    unfit_packages(*packages, unfit@, packages.pairs().len() as int),
                ),
                None => skipped.deep_view().to_set(),
            },
        ),
{
    let mut all = sorted::sorted_texts(skipped);
    let ghost first = skipped.deep_view().to_set();
    if let Some(packages) = packages {
        let n: usize = packages.len();
        let mut i: usize = 0;
        assert(first.union(Set::empty()) =~= first);
        while i < n
            invariant
                n == packages.pairs().len(),
                unfit@.len() == n,
                i <= n,
                sorted::is_sorted(all.deep_view()),
                all.deep_view().to_set() == first.union(
                    unfit_packages(*packages, unfit@, i as int),
                ),
            decreases n - i,
        {
            let ghost before = unfit_packages(*packages, unfit@, i as int);
            let optional = match packages.value_at(i).optional {
                Some(optional) => optional,
                None => false,
            };
            if optional && unfit[i] {
                let id = modules_manifest_package_id(packages.key_at(i));
                sorted::insert_in_order(&mut all, id.as_str());
                assert(first.union(before).insert(id@) =~= first.union(before.insert(id@)));
            }
            i = i + 1;
        }
    }
    proof {
        sorted::lemma_in_order(all.deep_view());
    }
    all
}

/// What an installation is told about its surroundings. On Windows it is told
/// where the virtual store really lies.
pub struct Surroundings {
    pub package_manager: String,
    pub registries: TextMap<String>,
    pub store_dir: String,
    pub now: u64,
    pub place_on_windows: Option<String>,
}

/// A manifest tells the settings of an installation.
pub open spec fn tells_settings(
    manifest: ModulesManifest,
    modules_dir: Seq<char>,
    config: Npmrc,
    groups: Seq<DependencyGroup>,
    store_dir: Seq<char>,
    place_on_windows: Option<Seq<char>>,
) -> bool {
    &&& manifest.node_linker.deep_view() == Some(config::linker_name(config.node_linker))
    &&& manifest.store_dir.deep_view() == Some(store_dir)
    &&& manifest.virtual_store_dir.deep_view() == Some(
        store_dir_seen(modules_dir, config.virtual_store_dir@, place_on_windows),
    )
    &&& manifest.included == Some(included_of(groups))
    &&& manifest.hoist_pattern.deep_view() == (if config.hoist_pattern@.len() > 0 {
        Some(config.hoist_pattern.deep_view())
    } else {
        None
    })
    &&& manifest.public_hoist_pattern.deep_view() == Some(config.public_hoist_pattern.deep_view())
    &&& manifest.virtual_store_dir_max_length == Some(default_max_length(place_on_windows is Some))
}

/// A manifest is what an installation leaves.
pub open spec fn is_built(
    manifest: ModulesManifest,
    modules_dir: Seq<char>,
    config: Npmrc,
    groups: Seq<DependencyGroup>,
    skipped: Vec<String>,
    hoisted: Option<TextMap<TextMap<String>>>,
    surroundings: Surroundings,
) -> bool {
    &&& tells_settings(
        manifest,
        modules_dir,
        config,
        groups,
        surroundings.store_dir@,
        surroundings.place_on_windows.deep_view(),
    )
    &&& manifest.hoisted_dependencies == hoisted
    &&& manifest.injected_deps.deep_view() == Some(Map::<Seq<char>, Seq<Seq<char>>>::empty())
    &&& manifest.layout_version == Some(5u8)
    &&& manifest.package_manager == Some(surroundings.package_manager)
    &&& manifest.pending_builds@.len() == 0
    &&& manifest.pruned_at.deep_view() == Some(http_date_text(surroundings.now))
    &&& mark_seconds(manifest.pruned_at->0@) == Some(surroundings.now as int)
    &&& manifest.shamefully_hoist is None
    &&& manifest.registries == Some(surroundings.registries)
    &&& manifest.ignored_builds@.len() == 0
    &&& manifest.skipped == skipped
}

/// The manifest that an installation leaves.
pub fn build_modules_manifest(
    modules_dir: &str,
    config: &Npmrc,
    dependency_groups: &Vec<DependencyGroup>,
    skipped: Vec<String>,
    hoisted: Option<TextMap<TextMap<String>>>,
    surroundings: Surroundings,
) -> (manifest: ModulesManifest)
    requires
        surroundings.now < 253402300800,
    ensures
        is_built(
            manifest,
            modules_dir@,
            *config,
            dependency_groups@,
            skipped,
            hoisted,
            surroundings,
        ),
{
    let pruned_at = write_mark(surroundings.now);
    let place_on_windows = match &surroundings.place_on_windows {
        Some(place) => Some(place.as_str()),
        None => None,
    };
    let virtual_store_dir = relative_virtual_store_dir(
        modules_dir,
        config.virtual_store_dir.as_str(),
        place_on_windows,
    );
    let max_length = default_virtual_store_dir_max_length(place_on_windows.is_some());
    ModulesManifest {
        hoist_pattern: if config.hoist_pattern.len() > 0 {
            Some(config.hoist_pattern.duplicate())
        } else {
            None
        },
        hoisted_dependencies: hoisted,
        injected_deps: Some(Table::new()),
        layout_version: Some(5),
        node_linker: Some(text::copy(config::node_linker_name(config))),
        package_manager: Some(surroundings.package_manager),
        pending_builds: Vec::new(),
        pruned_at: Some(pruned_at),
        public_hoist_pattern: Some(config.public_hoist_pattern.duplicate()),
        shamefully_hoist: None,
        registries: Some(surroundings.registries),
        store_dir: Some(surroundings.store_dir),
        ignored_builds: Vec::new(),
        virtual_store_dir: Some(virtual_store_dir),
        virtual_store_dir_max_length: Some(max_length),
        included: Some(included_dependencies(dependency_groups)),
        skipped,
    }
}

/// The patterns that a manifest holds.
pub open spec fn patterns_of(patterns: Option<Vec<String>>) -> Seq<Seq<char>> {
    match patterns {
        Some(patterns) => patterns.deep_view(),
        None => Seq::empty(),
    }
}

/// What is in `node_modules` was put there under the settings of now.
pub open spec fn is_compatible(
    manifest: ModulesManifest,
    config: Npmrc,
    store_dir: Seq<char>,
    groups: Seq<DependencyGroup>,
    on_windows: bool,
) -> bool {
    &&& manifest.node_linker.deep_view() == Some(config::linker_name(config.node_linker))
    &&& manifest.store_dir.deep_view() == Some(store_dir)
    &&& paths::components(
        resolved_store_dir(config.modules_dir@, manifest.virtual_store_dir.deep_view(), on_windows),
        on_windows,
    ) == paths::components(config.virtual_store_dir@, on_windows)
    &&& manifest.included == Some(included_of(groups))
    &&& patterns_of(manifest.hoist_pattern) == config.hoist_pattern.deep_view()
    &&& patterns_of(manifest.public_hoist_pattern) == config.public_hoist_pattern.deep_view()
    &&& match manifest.virtual_store_dir_max_length {
        Some(n) => n == default_max_length(on_windows),
        None => true,
    }
}

fn same_patterns(held: &Option<Vec<String>>, wanted: &Vec<String>) -> (same: bool)
    ensures
        same == (patterns_of(*held) == wanted.deep_view()),
{
    match held {
        Some(held) => held.same(wanted),
        None => {
            let empty = wanted.len() == 0;
            proof {
                if empty {
                    assert(wanted.deep_view() =~= Seq::empty());
                } else {
                    assert(wanted.deep_view().len() > 0);
                }
            }
            empty
        },
    }
}

/// Whether what is in `node_modules` was put there under the settings of now.
pub fn modules_manifest_is_compatible(
    manifest: &ModulesManifest,
    config: &Npmrc,
    expected_store_dir: &str,
    dependency_groups: &Vec<DependencyGroup>,
    on_windows: bool,
) -> (compatible: bool)
    ensures
        compatible == is_compatible(
            *manifest,
            *config,
            expected_store_dir@,
            dependency_groups@,
            on_windows,
        ),
{
    let same_linker = match &manifest.node_linker {
        Some(linker) => text::same_text(linker.as_str(), config::node_linker_name(config)),
        None => false,
    };
    let same_store = match &manifest.store_dir {
        Some(store_dir) => text::same_text(store_dir.as_str(), expected_store_dir),
        None => false,
    };
    if !same_linker || !same_store {
        return false;
    }
    let resolved = manifest.resolved_virtual_store_dir(config.modules_dir.as_str(), on_windows);
    if !paths::path_components(resolved.as_str(), on_windows).same(
        &paths::path_components(config.virtual_store_dir.as_str(), on_windows),
    ) {
        return false;
    }
    let included = included_dependencies(dependency_groups);
    let same_groups = match manifest.included {
        Some(before) => before == included,
        None => false,
    };
    same_groups && same_patterns(&manifest.hoist_pattern, &config.hoist_pattern) && same_patterns(
        &manifest.public_hoist_pattern,
        &config.public_hoist_pattern,
    ) && manifest.virtual_store_dir_max_length(on_windows) == default_virtual_store_dir_max_length(
        on_windows,
    )
}

/// An entry of `node_modules` is removed when the settings have changed: all
/// but hidden ones, except for what an installation itself put there.
pub open spec fn is_removed(
    name: Seq<char>,
    path: Seq<char>,
    virtual_store_dir: Seq<char>,
    on_windows: bool,
) -> bool {
    !(name.len() > 0 && name[0] == '.') || name == ".bin"@ || name == ".modules.yaml"@
        || paths::components(path, on_windows) == paths::components(virtual_store_dir, on_windows)
}

/// Whether an entry of `node_modules` is removed when the settings have changed.
pub fn should_remove_entry(
    name: &str,
    path: &str,
    virtual_store_dir: &str,
    on_windows: bool,
) -> (remove: bool)
    ensures
        remove == is_removed(name@, path@, virtual_store_dir@, on_windows),
{
    !text::has_first_char(name, '.') || text::same_text(name, ".bin") || text::same_text(
        name,
        ".modules.yaml",
    ) || paths::path_components(
        path,
        on_windows,
    ).same(&paths::path_components(virtual_store_dir, on_windows))
}

/// A mark that was just set stays valid until its age is reached, and no longer;
/// with no age allowed it never is.
pub proof fn law_mark_expires_with_age(then: u64, max_age_minutes: u64, now: u64, mark: Seq<char>)
    requires
        mark_seconds(mark) == Some(then as int),
        then <= now,
        max_age_minutes * 60 <= u64::MAX,
    ensures
        prunes(Some(mark), max_age_minutes, now) <==> now - then >= max_age_minutes * 60,
{
}

/// The place of the virtual store that is written down leads back to it: on Windows
/// it is where the virtual store lies by the settings, and elsewhere that lies in
/// `node_modules` or its path starts at the root.
pub open spec fn place_leads_back(config: Npmrc, place_on_windows: Option<Seq<char>>) -> bool {
    match place_on_windows {
        Some(place) => {
            &&& paths::is_absolute(without_verbatim_prefix(place), true)
            &&& paths::same_path(without_verbatim_prefix(place), config.virtual_store_dir@, true)
        },
        None => {
            ||| paths::is_within(config.modules_dir@, config.virtual_store_dir@, false)
            ||| paths::is_absolute(config.virtual_store_dir@, false)
        },
    }
}

/// What an installation leaves in `node_modules` about itself is accepted by the
/// next one with the same settings, where the place of the virtual store leads back
/// to it.
pub proof fn law_written_manifest_is_compatible(
    manifest: ModulesManifest,
    config: Npmrc,
    groups: Seq<DependencyGroup>,
    store_dir: Seq<char>,
    place_on_windows: Option<Seq<char>>,
)
    requires
        tells_settings(
            manifest,
            config.modules_dir@,
            config,
            groups,
            store_dir,
            place_on_windows,
        ),
        config.modules_dir@.len() > 0,
        place_leads_back(config, place_on_windows),
    ensures
        is_compatible(manifest, config, store_dir, groups, place_on_windows is Some),
{
    let dir = config.modules_dir@;
    let store = config.virtual_store_dir@;
    let seen = store_dir_seen(dir, store, place_on_windows);
    if place_on_windows is None && paths::is_within(dir, store, false) {
        slashed::law_stripped_leads_back(dir, store);
        if slashed::stripped(dir, store)->0.len() == 0 {
            reveal_strlit(".");
            slashed::lemma_joined_here(dir);
            assert(slashed::stripped(dir, store)->0 =~= Seq::<char>::empty());
            assert(seen =~= seq!['.']);
        }
    }
    assert(paths::same_path(
        resolved_store_dir(dir, Some(seen), place_on_windows is Some),
        store,
        place_on_windows is Some,
    ));
    if config.hoist_pattern@.len() == 0 {
        assert(config.hoist_pattern.deep_view() =~= Seq::<Seq<char>>::empty());
    }
}

/// Where the virtual store starts at the root, it is found where it lies when
/// the manifest is read again.
proof fn lemma_store_dir_read_again(modules_dir: Seq<char>, store: Seq<char>)
    requires
        slashed::is_absolute(store),
    ensures
        slashed::is_absolute(
            resolved_store_dir(
                modules_dir,
                Some(store_dir_seen(modules_dir, store, None)),
                false,
            ),
        ),
        slashed::same_path(
            resolved_store_dir(
                modules_dir,
                Some(store_dir_seen(modules_dir, store, None)),
                false,
            ),
            store,
        ),
{
    let seen = store_dir_seen(modules_dir, store, None);
    if modules_dir.len() == 0 {
        let n = store.len() as int;
        text::lemma_first_index_is(modules_dir, '/', 0);
        slashed::lemma_trimmed_same(store, n);
        assert(store.subrange(0, n) =~= store);
        slashed::lemma_no_components(modules_dir);
        assert(slashed::components(store).skip(0) =~= slashed::components(store));
        assert(slashed::components(store).take(0) =~= slashed::components(modules_dir));
        assert(slashed::components(store)[0] == seq!['/']);
    } else if !slashed::is_absolute(modules_dir) {
        slashed::lemma_root_is_not_within(modules_dir, store);
    } else if slashed::is_within(modules_dir, store) {
        slashed::law_stripped_leads_back(modules_dir, store);
        if slashed::stripped(modules_dir, store)->0.len() == 0 {
            reveal_strlit(".");
            slashed::lemma_joined_here(modules_dir);
            assert(slashed::stripped(modules_dir, store)->0 =~= Seq::<char>::empty());
            assert(seen =~= seq!['.']);
        }
    }
}

/// What an installation leaves in `node_modules` about itself is what is read
/// again: the settings, the groups, what was skipped, and where the virtual store
/// lies. On Windows that is the place that was found on disk, without the mark for
/// long paths; elsewhere it is where the settings have it, by a path that starts at
/// the root.
pub proof fn law_manifest_reads_back(
    manifest: ModulesManifest,
    complete: ModulesManifest,
    modules_dir: Seq<char>,
    config: Npmrc,
    groups: Seq<DependencyGroup>,
    listed: Seq<Seq<char>>,
    skipped: Vec<String>,
    hoisted: Option<TextMap<TextMap<String>>>,
    surroundings: Surroundings,
    now: u64,
)
    requires
        skipped.deep_view() == sorted::in_order(listed.to_set()),
        is_built(manifest, modules_dir, config, groups, skipped, hoisted, surroundings),
        is_completed(
            complete,
            manifest,
            modules_dir,
            now,
            surroundings.place_on_windows is Some,
        ),
        match surroundings.place_on_windows {
            Some(place) => paths::is_absolute(without_verbatim_prefix(place@), true),
            None => paths::is_absolute(config.virtual_store_dir@, false),
        },
    ensures
        complete.layout_version == Some(5u8),
        complete.node_linker.deep_view() == Some(config::linker_name(config.node_linker)),
        complete.public_hoist_pattern.deep_view() == Some(config.public_hoist_pattern.deep_view()),
        patterns_of(complete.hoist_pattern) == config.hoist_pattern.deep_view(),
        complete.included == Some(included_of(groups)),
        complete.skipped.deep_view() == sorted::in_order(listed.to_set()),
        complete.hoisted_dependencies == hoisted,
        complete.package_manager == Some(surroundings.package_manager),
        complete.registries == Some(surroundings.registries),
        complete.store_dir.deep_view() == Some(surroundings.store_dir@),
        complete.virtual_store_dir_max_length == Some(
            default_max_length(surroundings.place_on_windows is Some),
        ),
        mark_seconds(complete.pruned_at->0@) == Some(surroundings.now as int),
        match surroundings.place_on_windows {
            Some(place) => resolved_store_dir(
                modules_dir,
                complete.virtual_store_dir.deep_view(),
                true,
            ) == without_verbatim_prefix(place@),
            None => paths::same_path(
                resolved_store_dir(modules_dir, complete.virtual_store_dir.deep_view(), false),
                config.virtual_store_dir@,
                false,
            ),
        },
{
    if surroundings.place_on_windows is None {
        lemma_store_dir_read_again(modules_dir, config.virtual_store_dir@);
    }
    if config.hoist_pattern@.len() == 0 {
        assert(config.hoist_pattern.deep_view() =~= Seq::<Seq<char>>::empty());
    }
}

/// What an installation leaves in `node_modules` about itself is accepted when it is
/// read again. On Windows the place that was found on disk is where the virtual store
/// lies by the settings; elsewhere the path of the virtual store starts at the root.
pub proof fn law_manifest_read_again_is_compatible(
    manifest: ModulesManifest,
    complete: ModulesManifest,
    config: Npmrc,
    groups: Seq<DependencyGroup>,
    store_dir: Seq<char>,
    place_on_windows: Option<Seq<char>>,
    now: u64,
)
    requires
        tells_settings(
            manifest,
            config.modules_dir@,
            config,
            groups,
            store_dir,
            place_on_windows,
        ),
        is_completed(complete, manifest, config.modules_dir@, now, place_on_windows is Some),
        match place_on_windows {
            Some(_) => place_leads_back(config, place_on_windows),
            None => paths::is_absolute(config.virtual_store_dir@, false),
        },
    ensures
        is_compatible(complete, config, store_dir, groups, place_on_windows is Some),
{
    if place_on_windows is None {
        lemma_store_dir_read_again(config.modules_dir@, config.virtual_store_dir@);
    }
    if config.hoist_pattern@.len() == 0 {
        assert(config.hoist_pattern.deep_view() =~= Seq::<Seq<char>>::empty());
    }
}

/// What the last installation left is accepted only where it was made with the same
/// linker, the same store, the same virtual store, the same groups and the same patterns
/// for hoisting; so with any of them changed `node_modules` is made anew.
pub proof fn law_accepted_manifest_was_made_with_the_settings(
    accepted: bool,
    manifest: ModulesManifest,
    config: Npmrc,
    store_dir: Seq<char>,
    groups: Seq<DependencyGroup>,
    on_windows: bool,
)
    requires
        accepted == is_compatible(manifest, config, store_dir, groups, on_windows),
    ensures
        accepted ==> {
            &&& manifest.node_linker is Some && manifest.node_linker->0@ == (
            match config.node_linker {
                config::NodeLinker::Isolated => "isolated"@,
                config::NodeLinker::Hoisted => "hoisted"@,
                config::NodeLinker::Pnp => "pnp"@,
            })
            &&& manifest.store_dir is Some && manifest.store_dir->0@ == store_dir
            &&& manifest.included is Some
            &&& manifest.included->0.dependencies <==> groups.contains(DependencyGroup::Prod)
            &&& manifest.included->0.dev_dependencies <==> groups.contains(DependencyGroup::Dev)
            &&& manifest.included->0.optional_dependencies <==> groups.contains(
                DependencyGroup::Optional,
            )
            &&& manifest.hoist_pattern is Some ==> manifest.hoist_pattern->0.deep_view()
                == config.hoist_pattern.deep_view()
            &&& manifest.hoist_pattern is None ==> config.hoist_pattern@.len() == 0
            &&& manifest.public_hoist_pattern is Some
                ==> manifest.public_hoist_pattern->0.deep_view()
                == config.public_hoist_pattern.deep_view()
            &&& manifest.public_hoist_pattern is None ==> config.public_hoist_pattern@.len() == 0
            &&& manifest.virtual_store_dir is Some ==> paths::same_path(
                paths::joined(config.modules_dir@, manifest.virtual_store_dir->0@, on_windows),
                config.virtual_store_dir@,
                on_windows,
            )
            &&& manifest.virtual_store_dir is None ==> paths::same_path(
                paths::joined(config.modules_dir@, ".pnpm"@, on_windows),
                config.virtual_store_dir@,
                on_windows,
            )
            &&& manifest.virtual_store_dir_max_length is None
                || manifest.virtual_store_dir_max_length == Some(
                if on_windows {
                    60u16
                } else {
                    120u16
                },
            )
        },
{
    if accepted && manifest.hoist_pattern is None {
        assert(config.hoist_pattern.deep_view().len() == 0);
    }
    if accepted && manifest.public_hoist_pattern is None {
        assert(config.public_hoist_pattern.deep_view().len() == 0);
    }
}

/// An entry of `node_modules` that is no hidden one is removed when the settings have
/// changed, and so are the commands, the manifest and the virtual store; any other hidden
/// one stays.
pub proof fn law_removed_entries(
    removed: bool,
    name: Seq<char>,
    path: Seq<char>,
    virtual_store_dir: Seq<char>,
    on_windows: bool,
)
    requires
        removed == is_removed(name, path, virtual_store_dir, on_windows),
    ensures
        name.len() > 0 && name[0] != '.' ==> removed,
        name == ".bin"@ || name == ".modules.yaml"@ ==> removed,
        paths::same_path(path, virtual_store_dir, on_windows) ==> removed,
        name.len() > 0 && name[0] == '.' && name != ".bin"@ && name != ".modules.yaml"@
            && !paths::same_path(path, virtual_store_dir, on_windows) ==> !removed,
{
}

/// What is skipped is what was skipped before, and every optional package that does not
/// fit the machine; a needed one is not on that account.
pub proof fn law_unfit_optional_packages_are_listed(
    all: Vec<String>,
    skipped: Vec<String>,
    packages: PackageMap,
    unfit: Seq<bool>,
    id: Seq<char>,
    i: int,
)
    requires
        all.deep_view() == sorted::in_order(
            skipped.deep_view().to_set().union(
                unfit_packages(packages, unfit, packages.pairs().len() as int),
            ),
        ),
        unfit.len() == packages.pairs().len(),
        0 <= i < packages.pairs().len(),
    ensures
        skipped.deep_view().contains(id) ==> all.deep_view().contains(id),
        packages.pairs()[i].1.optional == Some(true) && unfit[i] ==> all.deep_view().contains(
            package_id(packages.key(i)),
        ),
        all.deep_view().contains(id) ==> skipped.deep_view().contains(id) || exists|k: int|
            0 <= k < packages.pairs().len() && packages.pairs()[k].1.optional == Some(true)
                && unfit[k] && id == package_id(#[trigger] packages.key(k)),
        sorted::is_sorted(all.deep_view()),
{
    let n = packages.pairs().len() as int;
    let unfit_ids = unfit_packages(packages, unfit, n);
    lemma_unfit(packages, unfit, n, id);
    lemma_unfit(packages, unfit, n, package_id(packages.key(i)));
    let both = skipped.deep_view().to_set().union(unfit_ids);
    vstd::seq_lib::seq_to_set_is_finite(skipped.deep_view());
    vstd::set::axiom_set_union_finite(skipped.deep_view().to_set(), unfit_ids);
    sorted::lemma_listed(both);
    let listed = all.deep_view();
    assert(listed.contains(id) <==> listed.to_set().contains(id));
    let own = package_id(packages.key(i));
    assert(listed.contains(own) <==> listed.to_set().contains(own));
}

proof fn lemma_unfit(packages: PackageMap, unfit: Seq<bool>, n: int, id: Seq<char>)
    requires
        0 <= n,
    ensures
        unfit_packages(packages, unfit, n).finite(),
        unfit_packages(packages, unfit, n).contains(id) <==> exists|k: int|
            0 <= k < n && packages.pairs()[k].1.optional == Some(true) && unfit[k] && id
                == package_id(#[trigger] packages.key(k)),
    decreases n,
{
    if n > 0 {
        lemma_unfit(packages, unfit, n - 1, id);
        assert(packages.key(n - 1) == packages.key(n - 1));
    }
}

/// A package that lies in the directory of hoisted packages, leads somewhere and is no
/// direct dependency is listed as hoisted under the name that it goes by, where the
/// lockfile has a package of that name; nothing else that was found is.
pub proof fn law_found_packages_are_listed(
    before: HoistedModel,
    after: HoistedModel,
    packages: PackageMap,
    direct: Seq<Seq<char>>,
    entries: Seq<(Seq<char>, bool)>,
    visibility: Seq<char>,
    i: int,
)
    requires
        after == with_found(before, packages, direct, entries, visibility),
        0 <= i < entries.len(),
        entries[i].1,
        !direct.contains(entries[i].0),
        hoisted_key(packages, entries[i].0) is Some,
    ensures
        ({
            let key = hoisted_key(packages, entries[i].0)->0;
            after.dom().contains(key) && after[key].dom().contains(entries[i].0)
                && after[key][entries[i].0] == visibility
        }),
    decreases entries.len(),
{
    let rest = entries.drop_last();
    if i < rest.len() {
        assert(rest[i] == entries[i]);
        law_found_packages_are_listed(
            before,
            with_found(before, packages, direct, rest, visibility),
            packages,
            direct,
            rest,
            visibility,
            i,
        );
    } else {
        assert(entries.last() == entries[i]);
        assert(is_listed(packages, direct, entries[i]));
    }
}

/// The key under which a hoisted package is listed is that of a package of its name.
pub proof fn law_hoisted_key_names_the_package(
    key: Option<Seq<char>>,
    packages: PackageMap,
    alias: Seq<char>,
    i: int,
)
    requires
        key == hoisted_key(packages, alias),
        0 <= i < packages.pairs().len(),
    ensures
        lockfile::specifier_name(packages.pairs()[i].0.specifier) == alias ==> key is Some,
        key is Some ==> exists|k: int|
            0 <= k < packages.pairs().len() && lockfile::specifier_name(
                packages.pairs()[k].0.specifier,
            ) == alias && ({
                let written = lockfile::path_text(#[trigger] packages.key(k));
                key->0 == (if written.len() > 0 && written[0] == '/' {
                    written.skip(1)
                } else {
                    written
                })
            }),
{
    lemma_named_package(packages, alias, packages.pairs().len() as int, i);
    if key is Some {
        let k = named_package(packages, alias, packages.pairs().len() as int)->0;
        let written = lockfile::path_text(packages.key(k));
        if written.len() > 0 {
            assert(text::tail(written, 1) =~= written.skip(1));
        }
    }
}

proof fn lemma_named_package(packages: PackageMap, name: Seq<char>, n: int, i: int)
    requires
        0 <= n <= packages.pairs().len(),
    ensures
        0 <= i < n && lockfile::specifier_name(packages.pairs()[i].0.specifier) == name
            ==> named_package(packages, name, n) is Some,
        named_package(packages, name, n) matches Some(k) ==> 0 <= k < n
            && lockfile::specifier_name(packages.pairs()[k].0.specifier) == name,
    decreases n,
{
    if n > 0 {
        lemma_named_package(packages, name, n - 1, i);
    }
}

/// Nothing is listed as hoisted where packages are not linked or none are known; without
/// hoisting and without patterns for it nothing is either.
pub proof fn law_nothing_is_hoisted_without_links(
    hoisted: Option<HoistedModel>,
    config: Npmrc,
    packages: Option<PackageMap>,
    direct: Seq<Seq<char>>,
    found_private: Seq<(Seq<char>, bool)>,
    found_public: Seq<(Seq<char>, bool)>,
)
    requires
        hoisted == hoisted_of(config, packages, direct, found_private, found_public),
    ensures
        !config.symlink || packages is None ==> hoisted is None,
        !config.hoist && !config.shamefully_hoist && config.public_hoist_pattern@.len() == 0
            ==> hoisted is None,
        config.symlink && packages is Some && (config.hoist || config.shamefully_hoist)
            && config.public_hoist_pattern@.len() == 0 ==> forall|i: int|
            0 <= i < found_private.len() && (#[trigger] found_private[i]).1 && !direct.contains(
                found_private[i].0,
            ) && hoisted_key(packages->0, found_private[i].0) is Some ==> {
                let key = hoisted_key(packages->0, found_private[i].0)->0;
                hoisted is Some && hoisted->0.dom().contains(key) && hoisted->0[key].dom().contains(
                    found_private[i].0,
                ) && hoisted->0[key][found_private[i].0] == "private"@
            },
        config.symlink && packages is Some && config.public_hoist_pattern@.len() > 0 ==> forall|
            i: int,
        |
            0 <= i < found_public.len() && (#[trigger] found_public[i]).1 && !direct.contains(
                found_public[i].0,
            ) && hoisted_key(packages->0, found_public[i].0) is Some ==> {
                let key = hoisted_key(packages->0, found_public[i].0)->0;
                hoisted is Some && hoisted->0.dom().contains(key) && hoisted->0[key].dom().contains(
                    found_public[i].0,
                ) && hoisted->0[key][found_public[i].0] == "public"@
            },
{
    if config.symlink && packages is Some {
        let known = packages->0;
        let private = with_found(
            Map::empty(),
            known,
            direct,
            found_private,
            "private"@,
        );
        assert forall|i: int|
            0 <= i < found_private.len() && (#[trigger] found_private[i]).1 && !direct.contains(
                found_private[i].0,
            ) && hoisted_key(known, found_private[i].0) is Some implies ({
            let key = hoisted_key(known, found_private[i].0)->0;
            finds_any(known, direct, found_private) && private.dom().contains(key)
                && private[key].dom().contains(found_private[i].0)
                && private[key][found_private[i].0] == "private"@
        }) by {
            assert(is_listed(known, direct, found_private[i]));
            law_found_packages_are_listed(
                Map::empty(),
                private,
                known,
                direct,
                found_private,
                "private"@,
                i,
            );
        }
        let inner = if config.hoist || config.shamefully_hoist {
            with_kind(
                Map::empty(),
                config,
                known,
                direct,
                found_private,
                config.hoist_pattern.deep_view(),
                "private"@,
            )
        } else {
            Map::empty()
        };
        let public = with_found(inner, known, direct, found_public, "public"@);
        assert forall|i: int|
            0 <= i < found_public.len() && (#[trigger] found_public[i]).1 && !direct.contains(
                found_public[i].0,
            ) && hoisted_key(known, found_public[i].0) is Some implies ({
            let key = hoisted_key(known, found_public[i].0)->0;
            finds_any(known, direct, found_public) && public.dom().contains(key)
                && public[key].dom().contains(found_public[i].0)
                && public[key][found_public[i].0] == "public"@
        }) by {
            assert(is_listed(known, direct, found_public[i]));
            law_found_packages_are_listed(
                inner,
                public,
                known,
                direct,
                found_public,
                "public"@,
                i,
            );
        }
    }
}

proof fn lemma_with_chosen(
    hoisted: HoistedModel,
    packages: PackageMap,
    direct: Seq<Seq<char>>,
    chosen: Map<Seq<char>, int>,
    names: Seq<Seq<char>>,
    visibility: Seq<char>,
    k: int,
)
    requires
        0 <= k < names.len(),
        !direct.contains(names[k]),
    ensures
        ({
            let after = with_chosen(hoisted, packages, direct, chosen, names, visibility);
            let key = without_slash(
                lockfile::name_ver_peer_text(
                    create_virtual_store::registry_package(packages, chosen[names[k]]),
                ),
            );
            after.dom().contains(key) && after[key].dom().contains(names[k])
                && after[key][names[k]] == visibility
        }),
    decreases names.len(),
{
    let rest = names.drop_last();
    if k < rest.len() {
        assert(rest[k] == names[k]);
        lemma_with_chosen(hoisted, packages, direct, chosen, rest, visibility, k);
    } else {
        assert(names.last() == names[k]);
    }
}

/// Where nothing hoisted was found, every package that is hoisted by the patterns and is no
/// direct dependency is listed, under its name and version.
pub proof fn law_chosen_packages_are_listed(
    hoisted: HoistedModel,
    after: HoistedModel,
    config: Npmrc,
    packages: PackageMap,
    direct: Seq<Seq<char>>,
    found: Seq<(Seq<char>, bool)>,
    patterns: Seq<Seq<char>>,
    visibility: Seq<char>,
    name: Seq<char>,
)
    requires
        after == with_kind(hoisted, config, packages, direct, found, patterns, visibility),
        forall|i: int| 0 <= i < found.len() ==> !(#[trigger] found[i]).1,
        chosen_packages(config, packages, patterns).dom().finite(),
        chosen_packages(config, packages, patterns).dom().contains(name),
        !direct.contains(name),
    ensures
        ({
            let i = chosen_packages(config, packages, patterns)[name];
            let key = without_slash(
                lockfile::name_ver_peer_text(create_virtual_store::registry_package(packages, i)),
            );
            after.dom().contains(key) && after[key].dom().contains(name) && after[key][name]
                == visibility
        }),
{
    let chosen = chosen_packages(config, packages, patterns);
    let names = sorted::in_order(chosen.dom());
    sorted::lemma_listed(chosen.dom());
    assert(names.to_set().contains(name));
    let k = names.index_of(name);
    assert(!finds_any(packages, direct, found));
    lemma_with_chosen(
        with_found(hoisted, packages, direct, found, visibility),
        packages,
        direct,
        chosen,
        names,
        visibility,
        k,
    );
}

} // verus!
