//! What is printed once an installation is done.
use crate::json;
use crate::json::Json;
use crate::lockfile::DependencyGroup;
use crate::manifest_check;
use crate::pnpmfile;
use crate::progress_reporter;
use crate::sorted;
use crate::table;
use crate::table::TextMap;
use crate::text;
use vstd::prelude::*;
use vstd::string::*;

verus! {

/// The smaller one of two numbers.
pub open spec fn at_most(n: int, limit: int) -> int {
    if n < limit {
        n
    } else {
        limit
    }
}

/// How many of nine signs stand for what was added.
pub open spec fn plus_count(added: int, removed: int) -> int {
    if (9 * added) / (added + removed) < 1 {
        1
    } else {
        (9 * added) / (added + removed)
    }
}

/// How many of nine signs stand for what was removed.
pub open spec fn minus_count(added: int, removed: int) -> int {
    if 9 - plus_count(added, removed) < 1 {
        1
    } else {
        9 - plus_count(added, removed)
    }
}

/// A number behind a sign.
pub open spec fn signed(sign: Seq<char>, n: int) -> Seq<char> {
    sign + text::decimal(n as nat)
}

/// How many packages were added and removed, in numbers and signs.
pub open spec fn stats_text(added: int, removed: int) -> Seq<char> {
    if added == 0 && removed == 0 {
        Seq::empty()
    } else if removed == 0 {
        signed("+"@, added) + " "@ + text::repeat('+', at_most(added, 12))
    } else if added == 0 {
        signed("-"@, removed) + " "@ + text::repeat('-', at_most(removed, 12))
    } else {
        let signs = text::repeat('+', plus_count(added, removed)) + text::repeat(
            '-',
            minus_count(added, removed),
        );
        if added >= removed {
            signed("+"@, added) + " "@ + progress_reporter::padded_left(signed("-"@, removed), 5)
                + " "@ + signs
        } else {
            progress_reporter::padded_left(signed("+"@, added), 5) + " "@ + signed("-"@, removed)
                + " "@ + signs
        }
    }
}

fn sign(mark: &str, n: usize) -> (s: String)
    ensures
        s@ == signed(mark@, n as int),
{
    text::copy(mark).concat(text::decimal_text(n as u128).as_str())
}

fn limited(n: usize, limit: usize) -> (m: usize)
    ensures
        m == at_most(n as int, limit as int),
{
    if n < limit {
        n
    } else {
        limit
    }
}

fn stats(added: usize, removed: usize) -> (s: String)
    requires
        added > 0 && removed > 0 ==> 9 * added <= usize::MAX && added + removed <= usize::MAX,
    ensures
        s@ == stats_text(added as int, removed as int),
{
    if added == 0 && removed == 0 {
        let s = String::new();
        assert(s@ =~= Seq::<char>::empty());
        return s;
    }
    if removed == 0 {
        return sign("+", added).concat(" ").concat(
            text::repeat_char('+', limited(added, 12)).as_str(),
        );
    }
    if added == 0 {
        return sign("-", removed).concat(" ").concat(
            text::repeat_char('-', limited(removed, 12)).as_str(),
        );
    }
    let share: usize = (9 * added) / (added + removed);
    assert(share <= 9) by (nonlinear_arith)
        requires
            share == (9 * added) / (added + removed),
            added > 0,
            removed > 0,
    ;
    let plus: usize = if share < 1 {
        1
    } else {
        share
    };
    let minus: usize = if plus >= 9 {
        1
    } else {
        9 - plus
    };
    let signs = text::repeat_char('+', plus).concat(text::repeat_char('-', minus).as_str());
    if added >= removed {
        sign("+", added).concat(" ").concat(
            progress_reporter::pad_left(sign("-", removed).as_str(), 5).as_str(),
        ).concat(" ").concat(signs.as_str())
    } else {
        progress_reporter::pad_left(sign("+", added).as_str(), 5).concat(" ").concat(
            sign("-", removed).as_str(),
        ).concat(" ").concat(signs.as_str())
    }
}

/// How many packages were added and removed, behind the label of a prefix.
pub fn format_prefixed_summary_stats(prefix: &str, added: usize, removed: usize) -> (line: String)
    requires
        progress_reporter::has_label(prefix@),
        added > 0 && removed > 0 ==> 9 * added <= usize::MAX && added + removed <= usize::MAX,
    ensures
        line@ == progress_reporter::prefixed(
            Some(prefix@),
            stats_text(added as int, removed as int),
        ),
{
    let label = progress_reporter::format_prefix_label(prefix);
    progress_reporter::pad(label.as_str(), 41).concat(" | ").concat(stats(added, removed).as_str())
}

/// Where the version begins behind the name of a package.
pub open spec fn version_mark(value: Seq<char>) -> Option<int> {
    let from: int = if value.len() > 0 && value[0] == '@' {
        1
    } else {
        0
    };
    let i = text::last_index(value, '@');
    if i >= from {
        Some(i)
    } else {
        None
    }
}

/// The name of a package and its version, where there is one.
pub open spec fn name_and_version(value: Seq<char>) -> (Seq<char>, Option<Seq<char>>) {
    match version_mark(value) {
        Some(i) => (
            value.subrange(0, i),
            Some(text::trim_start_char(text::tail(value, i), '@')),
        ),
        None => (value, None),
    }
}

/// The name of a package and its version, where there is one.
pub fn split_package_name_and_version<'a>(value: &'a str) -> (parts: (&'a str, Option<&'a str>))
    ensures
        (parts.0@, parts.1.deep_view()) == name_and_version(value@),
{
    let n: usize = value.unicode_len();
    let scoped = text::has_first_char(value, '@');
    proof {
        text::lemma_last_index(value@, '@');
    }
    match text::rfind_char(value, '@') {
        Some(i) => if i == 0 && scoped {
            (value, None)
        } else {
            (
                value.substring_char(0, i),
                Some(text::trim_start(value.substring_char(i, n), '@')),
            )
        },
        None => (value, None),
    }
}

/// A version without the signs of a range.
pub open spec fn bare_version(spec_text: Seq<char>) -> Seq<char> {
    text::trim_start_char(text::trim_start_char(spec_text, '^'), '~')
}

fn strip_range<'a>(spec_text: &'a str) -> (bare: &'a str)
    ensures
        bare@ == bare_version(spec_text@),
{
    text::trim_start(text::trim_start(spec_text, '^'), '~')
}

/// A dependency in the summary.
pub open spec fn dependency_line(mark: char, name: Seq<char>, spec_text: Seq<char>) -> Seq<char> {
    let head = seq![mark] + " "@ + name;
    match text::stripped_prefix(spec_text, "npm:"@) {
        Some(alias) => {
            let (real_name, version) = name_and_version(alias);
            head + " <- "@ + real_name + (match version {
                Some(version) => " "@ + bare_version(version),
                None => Seq::empty(),
            })
        },
        None => match text::stripped_prefix(spec_text, "link:"@) {
            Some(path) => head + " <- "@ + path,
            None => match text::stripped_prefix(spec_text, "file:"@) {
                Some(path) => head + " <- "@ + path,
                None => head + " "@ + bare_version(spec_text),
            },
        },
    }
}

/// A dependency in the summary.
pub fn format_summary_dependency_line_with_prefix(prefix: char, name: &str, spec_text: &str) -> (line:
    String)
    ensures
        line@ == dependency_line(prefix, name@, spec_text@),
{
    let mark = text::repeat_char(prefix, 1);
    assert(mark@ =~= seq![prefix]);
    let head = mark.concat(" ").concat(name);
    if let Some(alias) = text::strip_prefix(spec_text, "npm:") {
        let (real_name, version) = split_package_name_and_version(alias);
        let line = head.concat(" <- ").concat(real_name);
        return match version {
            Some(version) => {
                let line = line.concat(" ").concat(strip_range(version));
                assert(line@ =~= dependency_line(prefix, name@, spec_text@));
                line
            },
            None => {
                assert(line@ =~= dependency_line(prefix, name@, spec_text@));
                line
            },
        };
    }
    if let Some(path) = text::strip_prefix(spec_text, "link:") {
        return head.concat(" <- ").concat(path);
    }
    if let Some(path) = text::strip_prefix(spec_text, "file:") {
        return head.concat(" <- ").concat(path);
    }
    head.concat(" ").concat(strip_range(spec_text))
}

/// A dependency that was added, in the summary.
pub fn format_summary_dependency_line(name: &str, spec_text: &str) -> (line: String)
    ensures
        line@ == dependency_line('+', name@, spec_text@),
{
    format_summary_dependency_line_with_prefix('+', name, spec_text)
}

/// The dependencies of a group, one to a line.
pub open spec fn section_lines(
    entries: Map<Seq<char>, Seq<char>>,
    names: Seq<Seq<char>>,
) -> Seq<char>
    decreases names.len(),
{
    if names.len() == 0 {
        Seq::empty()
    } else {
        section_lines(entries, names.drop_last()) + dependency_line(
            '+',
            names.last(),
            entries[names.last()],
        ) + "\n"@
    }
}

/// A group in the summary, unless it is empty.
pub open spec fn section(header: Seq<char>, entries: Map<Seq<char>, Seq<char>>) -> Seq<char> {
    if entries == Map::<Seq<char>, Seq<char>>::empty() {
        Seq::empty()
    } else {
        header + ":\n"@ + section_lines(entries, sorted::in_order(entries.dom())) + "\n"@
    }
}

/// The groups of a manifest in the summary.
pub open spec fn sections(manifest: &Json, groups: Seq<DependencyGroup>) -> Seq<char>
    decreases groups.len(),
{
    if groups.len() == 0 {
        Seq::empty()
    } else {
        sections(manifest, groups.drop_last()) + section(
            manifest_check::group_field(groups.last()),
            json::text_map(
                json::field(manifest.deep_view(), manifest_check::group_field(groups.last())),
            ),
        )
    }
}

fn write_section(header: &str, entries: &TextMap<String>) -> (s: String)
    ensures
        s@ == section(header@, entries.deep_view()),
{
    if entries.is_empty() {
        let s = String::new();
        assert(s@ =~= Seq::<char>::empty());
        return s;
    }
    let names = sorted::sorted_keys(entries);
    let ghost all = names.deep_view();
    let ghost map = entries.deep_view();
    let ghost head = header@ + ":\n"@;
    let mut s = text::copy(header).concat(":\n");
    let mut i: usize = 0;
    assert(s@ =~= head + section_lines(map, all.take(0)));
    while i < names.len()
        invariant
            i <= names@.len(),
            all == names.deep_view(),
            map == entries.deep_view(),
            all.to_set() == map.dom(),
            s@ == head + section_lines(map, all.take(i as int)),
        decreases names@.len() - i,
    {
        proof {
            assert(all.take(i + 1).drop_last() =~= all.take(i as int));
            assert(all[i as int] == names@[i as int]@);
            assert(all.to_set().contains(all[i as int]));
        }
        if let Some(spec_text) = entries.get_text(names[i].as_str()) {
            let line = format_summary_dependency_line(names[i].as_str(), spec_text.as_str());
            s = s.concat(line.as_str()).concat("\n");
            assert(s@ =~= head + section_lines(map, all.take(i + 1)));
        }
        i = i + 1;
    }
    assert(all.take(i as int) =~= all);
    s.concat("\n")
}

/// The summary of an installation.
pub open spec fn summary(
    manifest: &Json,
    groups: Seq<DependencyGroup>,
    added: int,
    prefix: Option<Seq<char>>,
    duration: Seq<char>,
    version: Seq<char>,
) -> Seq<char> {
    match prefix {
        Some(prefix) => if added == 0 {
            Seq::empty()
        } else {
            progress_reporter::prefixed(Some(prefix), stats_text(added, 0)) + "\n"@
        },
        None => (if added == 0 {
            "Already up to date\n\n"@
        } else {
            "Packages: +"@ + text::decimal(added as nat) + "\n"@ + text::repeat(
                '+',
                at_most(added, 80),
            ) + "\n\n"@ + sections(manifest, groups)
        }) + "Done in "@ + duration + " using pacquet v"@ + version + "\n"@,
    }
}

/// The summary of an installation. Behind a prefix it is one line, or nothing
/// where nothing was added; else it lists what the manifest asks for, group by
/// group. How long it took is given as it is written.
pub fn format_summary(
    manifest: &Json,
    dependency_groups: &Vec<DependencyGroup>,
    added: usize,
    reporter_prefix: Option<&str>,
    duration: &str,
    version: &str,
) -> (s: String)
    requires
        reporter_prefix is Some ==> progress_reporter::has_label(reporter_prefix->0@),
    ensures
        s@ == summary(
            manifest,
            dependency_groups@,
            added as int,
            reporter_prefix.deep_view(),
            duration@,
            version@,
        ),
{
    if let Some(prefix) = reporter_prefix {
        if added == 0 {
            let s = String::new();
            assert(s@ =~= Seq::<char>::empty());
            return s;
        }
        return format_prefixed_summary_stats(prefix, added, 0).concat("\n");
    }
    let mut s = if added == 0 {
        text::copy("Already up to date\n\n")
    } else {
        let ghost groups = dependency_groups@;
        let mut s = text::copy("Packages: +").concat(
            text::decimal_text(added as u128).as_str(),
        ).concat("\n").concat(text::repeat_char('+', limited(added, 80)).as_str()).concat("\n\n");
        let ghost head = s@;
        let mut g: usize = 0;
        assert(s@ =~= head + sections(manifest, groups.take(0)));
        while g < dependency_groups.len()
            invariant
                g <= dependency_groups@.len(),
                groups == dependency_groups@,
                s@ == head + sections(manifest, groups.take(g as int)),
            decreases dependency_groups@.len() - g,
        {
            assert(groups.take(g + 1).drop_last() =~= groups.take(g as int));
            let header = pnpmfile::group_name(dependency_groups[g]);
            let entries = json::json_string_map(manifest.get(header));
            s = s.concat(write_section(header, &entries).as_str());
            assert(s@ =~= head + sections(manifest, groups.take(g + 1)));
            g = g + 1;
        }
        assert(groups.take(g as int) =~= groups);
        s
    };
    s.concat("Done in ").concat(duration).concat(" using pacquet v").concat(version).concat("\n")
}

/// A dependency is told by its name and its version, without the sign of a range; one under
/// another name by the package that it is, and a directory by its path.
pub proof fn law_dependency_lines(mark: char, name: Seq<char>, version: Seq<char>, path: Seq<char>)
    requires
        version.len() > 0,
        version[0] != '^',
        version[0] != '~',
        version[0] != 'n',
        version[0] != 'l',
        version[0] != 'f',
    ensures
        dependency_line(mark, name, version) == seq![mark] + " "@ + name + " "@ + version,
        dependency_line(mark, name, "^"@ + version) == seq![mark] + " "@ + name + " "@ + version,
        dependency_line(mark, name, "~"@ + version) == seq![mark] + " "@ + name + " "@ + version,
        dependency_line(mark, name, "link:"@ + path) == seq![mark] + " "@ + name + " <- "@ + path,
        dependency_line(mark, name, "file:"@ + path) == seq![mark] + " "@ + name + " <- "@ + path,
{
    reveal_strlit("npm:");
    reveal_strlit("link:");
    reveal_strlit("file:");
    reveal_strlit("^");
    reveal_strlit("~");
    reveal_with_fuel(text::trim_start_char, 3);
    assert(("link:"@ + path).subrange(0, 5) =~= "link:"@);
    assert(("file:"@ + path).subrange(0, 5) =~= "file:"@);
    assert(text::tail("link:"@ + path, 5) =~= path);
    assert(text::tail("file:"@ + path, 5) =~= path);
    assert(text::tail("^"@ + version, 1) =~= version);
    assert(text::tail("~"@ + version, 1) =~= version);
    assert forall|s: Seq<char>|
        s.len() > 0 && s[0] != 'n' implies !#[trigger] text::starts_with(s, "npm:"@) by {
        if text::starts_with(s, "npm:"@) {
            assert(s.subrange(0, 4)[0] == s[0]);
        }
    }
    assert forall|s: Seq<char>|
        s.len() > 0 && s[0] != 'l' implies !#[trigger] text::starts_with(s, "link:"@) by {
        if text::starts_with(s, "link:"@) {
            assert(s.subrange(0, 5)[0] == s[0]);
        }
    }
    assert forall|s: Seq<char>|
        s.len() > 0 && s[0] != 'f' implies !#[trigger] text::starts_with(s, "file:"@) by {
        if text::starts_with(s, "file:"@) {
            assert(s.subrange(0, 5)[0] == s[0]);
        }
    }
    let up = "^"@ + version;
    let about = "~"@ + version;
    assert(up[0] == '^' && about[0] == '~');
    assert(!text::starts_with(up, "npm:"@) && !text::starts_with(up, "link:"@)
        && !text::starts_with(up, "file:"@));
    assert(!text::starts_with(about, "npm:"@) && !text::starts_with(about, "link:"@)
        && !text::starts_with(about, "file:"@));
    assert(!text::starts_with(version, "npm:"@) && !text::starts_with(version, "link:"@)
        && !text::starts_with(version, "file:"@));
    assert(!text::starts_with("link:"@ + path, "npm:"@));
    assert(!text::starts_with("file:"@ + path, "npm:"@) && !text::starts_with(
        "file:"@ + path,
        "link:"@,
    ));
}

/// What an installation did is told by what was added and removed, and where nothing was,
/// nothing is told; without a prefix it is told that nothing was to be done.
pub proof fn law_summary_tells_what_was_added(
    manifest: &Json,
    groups: Seq<DependencyGroup>,
    added: int,
    duration: Seq<char>,
    version: Seq<char>,
    prefix: Seq<char>,
)
    requires
        added >= 0,
    ensures
        stats_text(0, 0).len() == 0,
        added > 0 ==> stats_text(added, 0) == "+"@ + text::decimal(added as nat) + " "@
            + text::repeat(
            '+',
            if added < 12 {
                added
            } else {
                12
            },
        ),
        added > 0 ==> stats_text(0, added) == "-"@ + text::decimal(added as nat) + " "@
            + text::repeat(
            '-',
            if added < 12 {
                added
            } else {
                12
            },
        ),
        summary(manifest, groups, 0, None, duration, version) == "Already up to date\n\n"@
            + "Done in "@ + duration + " using pacquet v"@ + version + "\n"@,
        summary(manifest, groups, 0, Some(prefix), duration, version).len() == 0,
{
}

} // verus!
