//! Specifiers that stand for a repository on GitHub.
use crate::text;
use vstd::prelude::*;
use vstd::string::*;

verus! {

/// The pieces that are not empty.
pub open spec fn segments(pieces: Seq<Seq<char>>) -> Seq<Seq<char>>
    decreases pieces.len(),
{
    if pieces.len() == 0 {
        pieces
    } else if pieces.last().len() > 0 {
        segments(pieces.drop_last()).push(pieces.last())
    } else {
        segments(pieces.drop_last())
    }
}

fn split_segments(s: &str) -> (parts: Vec<String>)
    ensures
        parts.deep_view() == segments(text::split(s@, '/')),
{
    let pieces = text::split_text(s, '/');
    let ghost all = pieces.deep_view();
    let mut parts: Vec<String> = Vec::new();
    let mut i: usize = 0;
    assert(parts.deep_view() =~= segments(all.take(0)));
    while i < pieces.len()
        invariant
            i <= pieces@.len(),
            all == pieces.deep_view(),
            parts.deep_view() == segments(all.take(i as int)),
        decreases pieces@.len() - i,
    {
        let ghost before = parts.deep_view();
        assert(all.take(i + 1).drop_last() =~= all.take(i as int));
        if pieces[i].as_str().unicode_len() > 0 {
            parts.push(pieces[i].clone());
            assert(parts.deep_view() =~= before.push(all[i as int]));
        }
        i = i + 1;
    }
    assert(all.take(i as int) =~= all);
    parts
}

/// A specifier of the form `owner/repository`, with or without a reference.
pub open spec fn is_shorthand(spec_text: Seq<char>) -> bool {
    let repo = match text::split_once(spec_text, '#') {
        Some((repo, _)) => repo,
        None => spec_text,
    };
    !text::starts_with(spec_text, "@"@) && !text::contains_text(spec_text, "://"@)
        && !text::starts_with(spec_text, "."@) && !text::starts_with(spec_text, "/"@) && segments(
        text::split(repo, '/'),
    ).len() == 2
}

/// Whether a specifier is of the form `owner/repository`, with or without a
/// reference.
pub fn is_github_shorthand_spec(spec_text: &str) -> (yes: bool)
    ensures
        yes == is_shorthand(spec_text@),
{
    if text::has_prefix(spec_text, "@") || text::has_text(spec_text, "://") || text::has_prefix(
        spec_text,
        ".",
    ) || text::has_prefix(spec_text, "/") {
        return false;
    }
    let repo = match text::split_at_first(spec_text, '#') {
        Some((repo, _)) => repo,
        None => spec_text,
    };
    let parts = split_segments(repo);
    assert(parts.deep_view().len() == parts@.len());
    parts.len() == 2
}

/// A specifier stands for a repository on GitHub.
pub open spec fn is_git(spec_text: Seq<char>) -> bool {
    text::starts_with(spec_text, "github:"@) || text::starts_with(
        spec_text,
        "git+https://github.com/"@,
    ) || text::starts_with(spec_text, "https://github.com/"@) || text::starts_with(
        spec_text,
        "git+ssh://git@github.com/"@,
    ) || text::starts_with(spec_text, "git+ssh://git@github.com:"@) || is_shorthand(spec_text)
}

/// Whether a specifier stands for a repository on GitHub.
pub fn is_git_spec(spec_text: &str) -> (yes: bool)
    ensures
        yes == is_git(spec_text@),
{
    text::has_prefix(spec_text, "github:") || text::has_prefix(spec_text, "git+https://github.com/")
        || text::has_prefix(spec_text, "https://github.com/") || text::has_prefix(
        spec_text,
        "git+ssh://git@github.com/",
    ) || text::has_prefix(spec_text, "git+ssh://git@github.com:") || is_github_shorthand_spec(
        spec_text,
    )
}

/// A specifier without its reference, and the reference.
pub open spec fn ref_parts(spec_text: Seq<char>) -> (Seq<char>, Seq<char>) {
    match text::split_once(spec_text, '#') {
        Some((repo, reference)) if reference.len() > 0 => (repo, reference),
        _ => (spec_text, "HEAD"@),
    }
}

fn split_ref<'a>(spec_text: &'a str) -> (parts: (&'a str, &'a str))
    ensures
        (parts.0@, parts.1@) == ref_parts(spec_text@),
{
    match text::split_at_first(spec_text, '#') {
        Some((repo, reference)) if reference.unicode_len() > 0 => (repo, reference),
        _ => (spec_text, "HEAD"),
    }
}

/// A repository without the suffix that clones have.
pub open spec fn plain_repo(repo: Seq<char>) -> Seq<char> {
    text::trim_end_char(text::trim_end_text(repo, ".git"@), '/')
}

fn normalize_repo<'a>(repo: &'a str) -> (plain: &'a str)
    ensures
        plain@ == plain_repo(repo@),
{
    text::trim_end(text::trim_end_matches(repo, ".git"), '/')
}

/// What follows the address of GitHub in a specifier.
pub open spec fn behind_address(spec_text: Seq<char>) -> Option<Seq<char>> {
    if text::starts_with(spec_text, "git+https://github.com/"@) {
        text::stripped_prefix(spec_text, "git+https://github.com/"@)
    } else if text::starts_with(spec_text, "https://github.com/"@) {
        text::stripped_prefix(spec_text, "https://github.com/"@)
    } else if text::starts_with(spec_text, "git+ssh://git@github.com/"@) {
        text::stripped_prefix(spec_text, "git+ssh://git@github.com/"@)
    } else {
        text::stripped_prefix(spec_text, "git+ssh://git@github.com:"@)
    }
}

fn strip_address<'a>(spec_text: &'a str) -> (rest: Option<&'a str>)
    ensures
        rest.deep_view() == behind_address(spec_text@),
{
    match text::strip_prefix(spec_text, "git+https://github.com/") {
        Some(rest) => Some(rest),
        None => match text::strip_prefix(spec_text, "https://github.com/") {
            Some(rest) => Some(rest),
            None => match text::strip_prefix(spec_text, "git+ssh://git@github.com/") {
                Some(rest) => Some(rest),
                None => text::strip_prefix(spec_text, "git+ssh://git@github.com:"),
            },
        },
    }
}

/// The repository that a specifier stands for, and the reference.
pub open spec fn repository(spec_text: Seq<char>) -> Option<(Seq<char>, Seq<char>)> {
    match text::stripped_prefix(spec_text, "github:"@) {
        Some(rest) => {
            let (repo, reference) = ref_parts(rest);
            if plain_repo(repo).contains('/') {
                Some((plain_repo(repo), reference))
            } else {
                None
            }
        },
        None => if is_shorthand(spec_text) {
            let (repo, reference) = ref_parts(spec_text);
            Some((plain_repo(repo), reference))
        } else {
            match behind_address(spec_text) {
                None => None,
                Some(rest) => {
                    let (path, reference) = ref_parts(rest);
                    let parts = segments(text::split(path, '/'));
                    if parts.len() >= 2 {
                        Some((plain_repo(parts[0] + "/"@ + parts[1]), reference))
                    } else {
                        None
                    }
                },
            }
        },
    }
}

/// The repository that a specifier stands for, and the reference.
pub fn github_repo_from_spec(spec_text: &str) -> (found: Option<(String, String)>)
    ensures
        found.deep_view() == repository(spec_text@),
{
    if let Some(rest) = text::strip_prefix(spec_text, "github:") {
        let (repo, reference) = split_ref(rest);
        let plain = normalize_repo(repo);
        if text::has_char(plain, '/') {
            return Some((text::copy(plain), text::copy(reference)));
        }
        return None;
    }
    if is_github_shorthand_spec(spec_text) {
        let (repo, reference) = split_ref(spec_text);
        return Some((text::copy(normalize_repo(repo)), text::copy(reference)));
    }
    let rest = match strip_address(spec_text) {
        Some(rest) => rest,
        None => {
            return None;
        },
    };
    let (path, reference) = split_ref(rest);
    let parts = split_segments(path);
    let ghost all = parts.deep_view();
    if parts.len() < 2 {
        return None;
    }
    assert(all[0] == parts@[0]@ && all[1] == parts@[1]@);
    let repo = parts[0].clone().concat("/").concat(parts[1].as_str());
    Some((text::copy(normalize_repo(repo.as_str())), text::copy(reference)))
}

/// Where GitHub keeps the tarball of what a specifier stands for.
pub open spec fn tarball_url(spec_text: Seq<char>) -> Option<Seq<char>> {
    match repository(spec_text) {
        Some((repo, reference)) => Some(
            "https://codeload.github.com/"@ + repo + "/tar.gz/"@ + reference,
        ),
        None => None,
    }
}

/// Where GitHub keeps the tarball of what a specifier stands for.
pub fn git_spec_to_tarball_url(spec_text: &str) -> (url: Option<String>)
    ensures
        url.deep_view() == tarball_url(spec_text@),
{
    match github_repo_from_spec(spec_text) {
        Some((repo, reference)) => Some(
            text::copy("https://codeload.github.com/").concat(repo.as_str()).concat(
                "/tar.gz/",
            ).concat(reference.as_str()),
        ),
        None => None,
    }
}

/// How a specifier is written with the protocol of GitHub.
pub open spec fn normal_form(spec_text: Seq<char>) -> Option<Seq<char>> {
    match repository(spec_text) {
        Some((repo, reference)) => Some(
            if reference == "HEAD"@ {
                "github:"@ + repo
            } else {
                "github:"@ + repo + "#"@ + reference
            },
        ),
        None => None,
    }
}

/// How a specifier is written with the protocol of GitHub.
pub fn normalize_git_spec(spec_text: &str) -> (normal: Option<String>)
    ensures
        normal.deep_view() == normal_form(spec_text@),
{
    match github_repo_from_spec(spec_text) {
        Some((repo, reference)) => {
            let normal = text::copy("github:").concat(repo.as_str());
            if text::same_text(reference.as_str(), "HEAD") {
                Some(normal)
            } else {
                Some(normal.concat("#").concat(reference.as_str()))
            }
        },
        None => None,
    }
}

/// Where the tarball is to be fetched that a specifier stands for, or why there
/// is none.
pub fn git_tarball_source(git_spec: &str) -> (source: Result<String, String>)
    ensures
        match source {
            Ok(url) => tarball_url(git_spec@) == Some(url@),
            Err(message) => tarball_url(git_spec@) is None && message@ == "unsupported git spec: "@
                + git_spec@
                + ". currently supported: github:, owner/repo shorthand, and github.com URLs"@,
        },
{
    match git_spec_to_tarball_url(git_spec) {
        Some(url) => Ok(url),
        None => Err(
            text::copy("unsupported git spec: ").concat(git_spec).concat(
                ". currently supported: github:, owner/repo shorthand, and github.com URLs",
            ),
        ),
    }
}

/// There is no `#` but at the end.
spec fn marks_end(s: Seq<char>) -> bool {
    forall|i: int| 0 <= i < s.len() - 1 ==> s[i] != '#'
}

/// There is no `#`.
spec fn unmarked(s: Seq<char>) -> bool {
    forall|i: int| 0 <= i < s.len() ==> s[i] != '#'
}

proof fn lemma_ref_parts(s: Seq<char>)
    ensures
        marks_end(ref_parts(s).0),
        ref_parts(s).1 != "HEAD"@ ==> unmarked(ref_parts(s).0),
        ref_parts(s).1.len() > 0,
{
    reveal_strlit("HEAD");
    text::lemma_first_index(s, '#');
}

proof fn lemma_trim_end_char(s: Seq<char>, c: char)
    ensures
        text::trim_end_char(s, c).len() <= s.len(),
        text::trim_end_char(s, c) == s.take(text::trim_end_char(s, c).len() as int),
        text::trim_end_char(text::trim_end_char(s, c), c) == text::trim_end_char(s, c),
    decreases s.len(),
{
    if s.len() > 0 && s.last() == c {
        lemma_trim_end_char(s.drop_last(), c);
        let n = text::trim_end_char(s, c).len() as int;
        assert(s.drop_last().take(n) =~= s.take(n));
    } else {
        assert(s.take(s.len() as int) =~= s);
    }
}

proof fn lemma_trim_end_text(s: Seq<char>, p: Seq<char>)
    ensures
        text::trim_end_text(s, p).len() <= s.len(),
        text::trim_end_text(s, p) == s.take(text::trim_end_text(s, p).len() as int),
    decreases s.len(),
{
    if p.len() > 0 && text::ends_with(s, p) {
        let rest = s.subrange(0, s.len() - p.len());
        lemma_trim_end_text(rest, p);
        let n = text::trim_end_text(s, p).len() as int;
        assert(rest.take(n) =~= s.take(n));
    } else {
        assert(s.take(s.len() as int) =~= s);
    }
}

proof fn lemma_plain_repo(s: Seq<char>)
    ensures
        marks_end(s) ==> marks_end(plain_repo(s)),
        unmarked(s) ==> unmarked(plain_repo(s)),
        !text::ends_with(plain_repo(s), ".git"@) ==> plain_repo(plain_repo(s)) == plain_repo(s),
{
    let first = text::trim_end_text(s, ".git"@);
    lemma_trim_end_text(s, ".git"@);
    lemma_trim_end_char(first, '/');
    let n = plain_repo(s).len() as int;
    assert(plain_repo(s) =~= s.take(n));
}

proof fn lemma_split_marks(s: Seq<char>)
    requires
        marks_end(s),
    ensures
        text::split(s, '/').len() > 0,
        forall|i: int|
            0 <= i < text::split(s, '/').len() - 1 ==> unmarked(#[trigger] text::split(s, '/')[i]),
        marks_end(text::split(s, '/').last()),
        unmarked(s) ==> unmarked(text::split(s, '/').last()),
    decreases s.len(),
{
    text::lemma_first_index(s, '/');
    let i = text::first_index(s, '/');
    if 0 <= i < s.len() {
        let rest = text::tail(s, i + 1);
        lemma_split_marks(rest);
        let pieces = text::split(s, '/');
        assert(pieces =~= seq![s.subrange(0, i)] + text::split(rest, '/'));
        assert forall|k: int| 0 <= k < pieces.len() - 1 implies unmarked(#[trigger] pieces[k]) by {
            if k > 0 {
                assert(pieces[k] == text::split(rest, '/')[k - 1]);
            }
        }
    }
}

proof fn lemma_segments(pieces: Seq<Seq<char>>)
    requires
        forall|i: int| 0 <= i < pieces.len() - 1 ==> unmarked(#[trigger] pieces[i]),
        pieces.len() > 0 ==> marks_end(pieces.last()),
    ensures
        forall|k: int|
            0 <= k < segments(pieces).len() - 1 ==> unmarked(#[trigger] segments(pieces)[k]),
        segments(pieces).len() > 0 ==> marks_end(segments(pieces).last()),
        segments(pieces).len() > 0 && unmarked(pieces.last()) ==> unmarked(
            segments(pieces).last(),
        ),
        pieces.len() > 0 && pieces.last().len() == 0 ==> forall|k: int|
            0 <= k < segments(pieces).len() ==> unmarked(#[trigger] segments(pieces)[k]),
    decreases pieces.len(),
{
    if pieces.len() > 0 {
        let rest = pieces.drop_last();
        assert forall|i: int| 0 <= i < rest.len() implies unmarked(#[trigger] rest[i]) by {
            assert(rest[i] == pieces[i]);
        }
        lemma_segments(rest);
        let before = segments(rest);
        assert forall|k: int| 0 <= k < before.len() implies unmarked(#[trigger] before[k]) by {
            if k == before.len() - 1 {
                assert(unmarked(rest.last()));
            }
        }
    }
}

/// What is written with the protocol of GitHub stays as it is when it is read
/// again, as long as owner and repository are still told apart and no suffix of
/// a clone is left.
pub proof fn law_normal_form_is_stable(spec_text: Seq<char>)
    requires
        repository(spec_text) is Some,
        (repository(spec_text)->0).0.contains('/'),
        !text::ends_with((repository(spec_text)->0).0, ".git"@),
    ensures
        normal_form((normal_form(spec_text))->0) == normal_form(spec_text),
        repository((normal_form(spec_text))->0) == repository(spec_text),
{
    let (repo, reference) = repository(spec_text)->0;
    // The repository holds no mark but at its end, and none where a reference follows.
    if let Some(rest) = text::stripped_prefix(spec_text, "github:"@) {
        lemma_ref_parts(rest);
        lemma_plain_repo(ref_parts(rest).0);
    } else if is_shorthand(spec_text) {
        lemma_ref_parts(spec_text);
        lemma_plain_repo(ref_parts(spec_text).0);
    } else {
        let rest = behind_address(spec_text)->0;
        lemma_ref_parts(rest);
        let path = ref_parts(rest).0;
        lemma_split_marks(path);
        lemma_segments(text::split(path, '/'));
        let parts = segments(text::split(path, '/'));
        reveal_strlit("/");
        let whole = parts[0] + "/"@ + parts[1];
        assert(unmarked(parts[0]));
        assert(parts.len() > 2 ==> unmarked(parts[1]));
        assert(parts.len() == 2 ==> parts[1] == parts.last());
        assert(marks_end(whole));
        assert(unmarked(path) ==> unmarked(whole));
        lemma_plain_repo(whole);
    }
    assert(marks_end(repo));
    assert(reference != "HEAD"@ ==> unmarked(repo));
    assert(plain_repo(repo) == repo);
    let normal = normal_form(spec_text)->0;
    reveal_strlit("github:");
    reveal_strlit("#");
    reveal_strlit("HEAD");
    if reference == "HEAD"@ {
        assert(normal.subrange(0, 7) =~= "github:"@);
        assert(text::tail(normal, 7) =~= repo);
        text::lemma_first_index(repo, '#');
        assert(ref_parts(repo) == (repo, "HEAD"@)) by {
            let i = text::first_index(repo, '#');
            if 0 <= i < repo.len() {
                assert(i == repo.len() - 1);
                assert(text::tail(repo, i + 1).len() == 0);
            }
        }
    } else {
        let rest = repo + "#"@ + reference;
        assert(normal =~= "github:"@ + rest);
        assert(normal.subrange(0, 7) =~= "github:"@);
        assert(text::tail(normal, 7) =~= rest);
        text::lemma_first_index_is(rest, '#', repo.len() as int);
        assert(rest.subrange(0, repo.len() as int) =~= repo);
        assert(text::tail(rest, repo.len() as int + 1) =~= reference);
        assert(reference.len() > 0);
        assert(ref_parts(rest) == (repo, reference));
    }
}

/// A way to write which repository of GitHub is meant.
pub enum Spelling {
    Short,
    Protocol,
    GitHttps,
    Https,
    Ssh,
    Scp,
}

/// Where a specifier in some spelling begins.
pub open spec fn address(spelling: Spelling) -> Seq<char> {
    match spelling {
        Spelling::Short => Seq::empty(),
        Spelling::Protocol => "github:"@,
        Spelling::GitHttps => "git+https://github.com/"@,
        Spelling::Https => "https://github.com/"@,
        Spelling::Ssh => "git+ssh://git@github.com/"@,
        Spelling::Scp => "git+ssh://git@github.com:"@,
    }
}

/// The path of a repository in some spelling.
pub open spec fn repo_path(
    spelling: Spelling,
    owner: Seq<char>,
    name: Seq<char>,
) -> Seq<char> {
    let path = owner + "/"@ + name;
    match spelling {
        Spelling::Short | Spelling::Protocol => path,
        _ => path + ".git"@,
    }
}

/// What follows the path of a repository where a reference is asked for.
pub open spec fn mark(reference: Option<Seq<char>>) -> Seq<char> {
    match reference {
        Some(reference) => "#"@ + reference,
        None => Seq::empty(),
    }
}

/// A specifier for a repository of GitHub in some spelling.
pub open spec fn spelled(
    spelling: Spelling,
    owner: Seq<char>,
    name: Seq<char>,
    reference: Option<Seq<char>>,
) -> Seq<char> {
    address(spelling) + (repo_path(spelling, owner, name) + mark(reference))
}

/// A letter or a digit.
pub open spec fn is_plain_char(c: char) -> bool {
    'a' <= c <= 'z' || 'A' <= c <= 'Z' || '0' <= c <= '9'
}

/// A name made of letters, digits and hyphens.
pub open spec fn is_repo_name(name: Seq<char>) -> bool {
    name.len() > 0 && forall|i: int|
        0 <= i < name.len() ==> is_plain_char(#[trigger] name[i]) || name[i] == '-'
}

/// A reference made of letters, digits, points and hyphens.
pub open spec fn is_plain_reference(reference: Seq<char>) -> bool {
    reference.len() > 0 && forall|i: int|
        0 <= i < reference.len() ==> is_plain_char(#[trigger] reference[i]) || reference[i] == '-'
            || reference[i] == '.'
}

proof fn lemma_repo(owner: Seq<char>, name: Seq<char>)
    requires
        is_repo_name(owner),
        is_repo_name(name),
    ensures
        plain_repo(owner + "/"@ + name) == owner + "/"@ + name,
        plain_repo(owner + "/"@ + name + ".git"@) == owner + "/"@ + name,
        !text::ends_with(owner + "/"@ + name, ".git"@),
        (owner + "/"@ + name).contains('/'),
        unmarked(owner + "/"@ + name),
        unmarked(owner + "/"@ + name + ".git"@),
{
    reveal_strlit("/");
    reveal_strlit(".git");
    let s = owner + "/"@ + name;
    let long = s + ".git"@;
    assert(s[owner.len() as int] == '/');
    assert(s.last() == name.last());
    assert(name[name.len() - 1] == name.last());
    assert forall|i: int| 0 <= i < s.len() implies s[i] != '.' && s[i] != '#' by {
        if i < owner.len() {
            assert(s[i] == owner[i]);
        } else if i > owner.len() {
            assert(s[i] == name[i - owner.len() - 1]);
        }
    }
    if text::ends_with(s, ".git"@) {
        let end = s.subrange(s.len() - 4, s.len() as int);
        assert(end[0] == '.');
        assert(s[s.len() - 4] == '.');
    }
    assert(long.subrange(long.len() - 4, long.len() as int) =~= ".git"@);
    assert(long.subrange(0, long.len() - 4) =~= s);
    assert(text::trim_end_text(s, ".git"@) == s);
    assert(text::trim_end_text(long, ".git"@) == s);
    assert(text::trim_end_char(s, '/') == s);
}

proof fn lemma_two_segments(owner: Seq<char>, name: Seq<char>)
    requires
        owner.len() > 0,
        name.len() > 0,
        !owner.contains('/'),
        !name.contains('/'),
    ensures
        segments(text::split(owner + "/"@ + name, '/')) == seq![owner, name],
{
    reveal_strlit("/");
    let s = owner + "/"@ + name;
    let n = owner.len() as int;
    assert forall|j: int| 0 <= j < n implies s[j] != '/' by {
        assert(s[j] == owner[j]);
    }
    text::lemma_first_index_is(s, '/', n);
    assert(s.subrange(0, n) =~= owner);
    assert(text::tail(s, n + 1) =~= name);
    assert forall|j: int| 0 <= j < name.len() implies name[j] != '/' by {}
    text::lemma_first_index_is(name, '/', name.len() as int);
    assert(text::split(name, '/') == seq![name]);
    assert(text::split(s, '/') =~= seq![owner, name]);
    let two = seq![owner, name];
    assert(two.drop_last() =~= seq![owner]);
    assert(seq![owner].drop_last() =~= Seq::<Seq<char>>::empty());
    assert(segments(Seq::<Seq<char>>::empty()) =~= Seq::<Seq<char>>::empty());
    assert(segments(seq![owner]) =~= seq![owner]);
    assert(segments(two) =~= two);
}

proof fn lemma_marked_path(path: Seq<char>, reference: Option<Seq<char>>)
    requires
        unmarked(path),
        reference is Some ==> reference->0.len() > 0,
    ensures
        ref_parts(path + mark(reference)) == (
            path,
            match reference {
                Some(reference) => reference,
                None => "HEAD"@,
            },
        ),
        (match text::split_once(path + mark(reference), '#') {
            Some((repo, _)) => repo,
            None => path + mark(reference),
        }) == path,
{
    reveal_strlit("#");
    let s = path + mark(reference);
    let n = path.len() as int;
    assert forall|j: int| 0 <= j < n implies s[j] != '#' by {
        assert(s[j] == path[j]);
    }
    text::lemma_first_index_is(s, '#', n);
    assert(s.subrange(0, n) =~= path);
    if let Some(reference) = reference {
        assert(text::tail(s, n + 1) =~= reference);
    } else {
        assert(s =~= path);
    }
}

proof fn lemma_address(spelling: Spelling, rest: Seq<char>)
    requires
        !(spelling is Short),
    ensures
        spelling is Protocol ==> text::stripped_prefix(address(spelling) + rest, "github:"@)
            == Some(rest),
        !(spelling is Protocol) ==> text::stripped_prefix(
            address(spelling) + rest,
            "github:"@,
        ) is None && !is_shorthand(address(spelling) + rest) && behind_address(
            address(spelling) + rest,
        ) == Some(rest),
        is_git(address(spelling) + rest),
{
    reveal_strlit("github:");
    reveal_strlit("git+https://github.com/");
    reveal_strlit("https://github.com/");
    reveal_strlit("git+ssh://git@github.com/");
    reveal_strlit("git+ssh://git@github.com:");
    reveal_strlit("://");
    let s = address(spelling) + rest;
    let n = address(spelling).len() as int;
    assert(s.subrange(0, n) =~= address(spelling));
    assert(text::tail(s, n) =~= rest);
    assert(text::starts_with(s, address(spelling)));
    if !(spelling is Protocol) {
        if text::starts_with(s, "github:"@) {
            assert(s.subrange(0, 7)[1] == 'i');
            assert(s.subrange(0, 7)[3] == 'h');
            assert(s[1] == 'i' && s[3] == 'h');
        }
        if spelling is GitHttps {
            assert(s.subrange(9, 12) =~= "://"@);
            assert(text::stands_at(s, "://"@, 9));
        } else if spelling is Https {
            assert(s.subrange(5, 8) =~= "://"@);
            assert(text::stands_at(s, "://"@, 5));
            if text::starts_with(s, "git+https://github.com/"@) {
                assert(s.subrange(0, 23)[0] == 'g');
            }
        } else {
            assert(s.subrange(7, 10) =~= "://"@);
            assert(text::stands_at(s, "://"@, 7));
            if text::starts_with(s, "git+https://github.com/"@) {
                assert(s.subrange(0, 23)[4] == 'h');
            }
            if text::starts_with(s, "https://github.com/"@) {
                assert(s.subrange(0, 19)[0] == 'h');
            }
            if spelling is Scp && text::starts_with(s, "git+ssh://git@github.com/"@) {
                assert(s.subrange(0, 25)[24] == '/');
                assert(s[24] == ':');
            }
        }
    }
}

proof fn lemma_short(owner: Seq<char>, name: Seq<char>, reference: Option<Seq<char>>)
    requires
        is_repo_name(owner),
        is_repo_name(name),
        reference is Some ==> is_plain_reference(reference->0),
    ensures
        text::stripped_prefix(owner + "/"@ + name + mark(reference), "github:"@) is None,
        is_shorthand(owner + "/"@ + name + mark(reference)),
{
    reveal_strlit("/");
    reveal_strlit("#");
    reveal_strlit("@");
    reveal_strlit(".");
    reveal_strlit("://");
    reveal_strlit("github:");
    let path = owner + "/"@ + name;
    let s = path + mark(reference);
    assert forall|i: int| 0 <= i < s.len() implies s[i] != ':' by {
        if i < owner.len() {
            assert(s[i] == owner[i]);
        } else if owner.len() < i < path.len() {
            assert(s[i] == name[i - owner.len() - 1]);
        } else if i > path.len() {
            assert(s[i] == reference->0[i - path.len() - 1]);
        }
    }
    if text::starts_with(s, "github:"@) {
        assert(s.subrange(0, 7)[6] == ':');
        assert(s[6] == ':');
    }
    if text::contains_text(s, "://"@) {
        let i = choose|i: int| text::stands_at(s, "://"@, i);
        assert(s.subrange(i, i + 3)[0] == ':');
        assert(s[i] == ':');
    }
    assert(s[0] == owner[0]);
    if text::starts_with(s, "@"@) {
        assert(s.subrange(0, 1)[0] == '@');
    }
    if text::starts_with(s, "."@) {
        assert(s.subrange(0, 1)[0] == '.');
    }
    if text::starts_with(s, "/"@) {
        assert(s.subrange(0, 1)[0] == '/');
    }
    lemma_repo(owner, name);
    lemma_marked_path(path, reference);
    lemma_two_segments(owner, name);
}

/// All spellings of one repository stand for one tarball: that of the reference,
/// or of the head where none is asked for. Each is a specifier for a repository,
/// and its normal form stands for the same tarball.
pub proof fn law_spellings_agree(
    spelling: Spelling,
    owner: Seq<char>,
    name: Seq<char>,
    reference: Option<Seq<char>>,
)
    requires
        is_repo_name(owner),
        is_repo_name(name),
        reference is Some ==> is_plain_reference(reference->0),
    ensures
        tarball_url(spelled(spelling, owner, name, reference)) == Some(
            "https://codeload.github.com/"@ + (owner + "/"@ + name) + "/tar.gz/"@ + (
            match reference {
                Some(reference) => reference,
                None => "HEAD"@,
            }),
        ),
        is_git(spelled(spelling, owner, name, reference)),
        normal_form(spelled(spelling, owner, name, reference)) is Some,
        tarball_url(normal_form(spelled(spelling, owner, name, reference))->0) == tarball_url(
            spelled(spelling, owner, name, reference),
        ),
{
    let path = owner + "/"@ + name;
    let rest = repo_path(spelling, owner, name) + mark(reference);
    let s = spelled(spelling, owner, name, reference);
    lemma_repo(owner, name);
    lemma_marked_path(repo_path(spelling, owner, name), reference);
    if spelling is Short {
        lemma_short(owner, name, reference);
        assert(s =~= rest);
        assert(rest =~= path + mark(reference));
    } else {
        lemma_address(spelling, rest);
        if !(spelling is Protocol) {
            reveal_strlit(".git");
            let long = name + ".git"@;
            assert(repo_path(spelling, owner, name) =~= owner + "/"@ + long);
            assert(!long.contains('/')) by {
                assert forall|i: int| 0 <= i < long.len() implies long[i] != '/' by {
                    if i < name.len() {
                        assert(long[i] == name[i]);
                    }
                }
            }
            assert(!owner.contains('/'));
            lemma_two_segments(owner, long);
        }
    }
    assert(repository(s) == Some(
        (
            path,
            match reference {
                Some(reference) => reference,
                None => "HEAD"@,
            },
        ),
    ));
    law_normal_form_is_stable(s);
}

} // verus!
