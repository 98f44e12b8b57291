//! Paths as texts, as the system at hand writes them. On Windows a path may begin
//! with a drive or a share, and both `\\` and `/` part its components.
use crate::slashed;
use crate::text;
use crate::value::Value;
use vstd::prelude::*;
use vstd::string::*;

verus! {

/// The character parts two components on Windows.
pub open spec fn is_separator(c: char) -> bool {
    c == '/' || c == '\\'
}

/// A character as it is written between `/` alone.
pub open spec fn slash(c: char) -> char {
    if c == '\\' {
        '/'
    } else {
        c
    }
}

/// A text with `/` in the place of `\`.
pub open spec fn with_slashes(s: Seq<char>) -> Seq<char> {
    s.map_values(|c: char| slash(c))
}

/// The end of the component that begins at `from`.
pub open spec fn component_end(path: Seq<char>, from: int) -> int
    decreases path.len() - from,
{
    if 0 <= from < path.len() && !is_separator(path[from]) {
        component_end(path, from + 1)
    } else {
        from
    }
}

/// The letter names a drive.
pub open spec fn is_drive_letter(c: char) -> bool {
    'a' <= c <= 'z' || 'A' <= c <= 'Z'
}

/// A drive is named at a position.
pub open spec fn has_drive(path: Seq<char>, at: int) -> bool {
    at + 1 < path.len() && is_drive_letter(path[at]) && path[at + 1] == ':'
}

/// The path is marked to be taken as it is written.
pub open spec fn is_verbatim(path: Seq<char>) -> bool {
    path.len() >= 4 && path[0] == '\\' && path[1] == '\\' && path[2] == '?' && path[3] == '\\'
}

/// The path is marked so, and names a drive.
pub open spec fn is_verbatim_drive(path: Seq<char>) -> bool {
    is_verbatim(path) && has_drive(path, 4) && (path.len() == 6 || is_separator(path[6]))
}

/// The end of a server and a share that are named from `from` on, or of the server
/// where no share is.
pub open spec fn share_end(path: Seq<char>, from: int) -> int {
    let server = component_end(path, from);
    let share = component_end(path, server + 1);
    if share > server + 1 {
        share
    } else {
        server
    }
}

/// How long the drive or the share is that a path begins with on Windows.
pub open spec fn prefix_len(path: Seq<char>) -> int {
    if is_verbatim(path) {
        if is_verbatim_drive(path) {
            6
        } else if path.len() >= 8 && path.subrange(4, 8) == seq!['U', 'N', 'C', '\\'] {
            share_end(path, 8)
        } else {
            component_end(path, 4)
        }
    } else if path.len() >= 2 && is_separator(path[0]) && is_separator(path[1]) {
        if path.len() >= 4 && path[2] == '.' && is_separator(path[3]) {
            component_end(path, 4)
        } else if component_end(path, 2) > 2 && share_end(path, 2) > component_end(path, 2) {
            share_end(path, 2)
        } else {
            0
        }
    } else if has_drive(path, 0) {
        2
    } else {
        0
    }
}

/// A letter as a capital one.
pub open spec fn capital(c: char) -> char {
    if 'a' <= c <= 'z' {
        ((c as int) - 32) as char
    } else {
        c
    }
}

/// The drive or the share that a path begins with. A drive goes by one name, however
/// its letter is written.
pub open spec fn prefix(path: Seq<char>) -> Seq<char> {
    let named = path.take(prefix_len(path));
    if is_verbatim_drive(path) {
        named.update(4, capital(named[4]))
    } else if is_verbatim(path) {
        named
    } else if has_drive(path, 0) {
        named.update(0, capital(named[0]))
    } else {
        with_slashes(named)
    }
}

/// What stands behind the drive or the share, with `/` between its components.
pub open spec fn body(path: Seq<char>) -> Seq<char> {
    with_slashes(path.skip(prefix_len(path)))
}

/// The path begins with more than a drive: it starts at the root of what it names.
pub open spec fn names_root(path: Seq<char>) -> bool {
    prefix_len(path) > 0 && !has_drive(path, 0)
}

/// The path starts at a root.
pub open spec fn has_root(path: Seq<char>) -> bool {
    names_root(path) || slashed::is_absolute(body(path))
}

/// The path says by itself where it leads.
pub open spec fn is_absolute(path: Seq<char>, on_windows: bool) -> bool {
    if on_windows {
        prefix_len(path) > 0 && has_root(path)
    } else {
        slashed::is_absolute(path)
    }
}

/// The names in a path.
pub open spec fn names(path: Seq<char>, on_windows: bool) -> Seq<Seq<char>> {
    slashed::names(
        text::split(
            if on_windows {
                body(path)
            } else {
                path
            },
            '/',
        ),
    )
}

/// What stands before the names of a path on Windows: a drive or a share, and the
/// root or a leading `.`.
pub open spec fn head(path: Seq<char>) -> Seq<Seq<char>> {
    (if prefix_len(path) > 0 {
        seq![prefix(path)]
    } else {
        Seq::empty()
    }) + (if has_root(path) {
        seq![seq!['\\']]
    } else if slashed::starts_here(body(path)) {
        seq![seq!['.']]
    } else {
        Seq::empty()
    })
}

/// The components of a path: a drive or a share, the root or a leading `.`, then
/// every name.
pub open spec fn components(path: Seq<char>, on_windows: bool) -> Seq<Seq<char>> {
    if on_windows {
        head(path) + names(path, true)
    } else {
        slashed::components(path)
    }
}

/// Where some names lead from others: `..` leads back, but for what is `..` itself.
pub open spec fn led_to(at: Seq<Seq<char>>, parts: Seq<Seq<char>>) -> Seq<Seq<char>>
    decreases parts.len(),
{
    if parts.len() == 0 {
        at
    } else {
        let before = led_to(at, parts.drop_last());
        if parts.last() != seq!['.', '.'] {
            before.push(parts.last())
        } else if before.len() > 0 && before.last() != seq!['.', '.'] {
            before.drop_last()
        } else {
            before
        }
    }
}

/// `path` seen from a base that is to be taken as it is written: neither `.` nor `..`
/// is left in what is behind its drive or share, and `\` parts the names.
pub open spec fn settled(base: Seq<char>, path: Seq<char>) -> Seq<char> {
    let at = if path.len() > 0 && is_separator(path[0]) {
        Seq::empty()
    } else {
        names(base, true)
    };
    base.take(prefix_len(base)) + seq!['\\'] + text::join(
        led_to(at, names(path, true)),
        seq!['\\'],
    )
}

/// `path` seen from `base`. On Windows a drive or a share replaces the base, a root
/// replaces what stands behind its drive or share, and what lies in a base that is to
/// be taken as it is written is settled.
pub open spec fn joined(base: Seq<char>, path: Seq<char>, on_windows: bool) -> Seq<char> {
    if !on_windows {
        slashed::joined(base, path)
    } else if prefix_len(path) > 0 || base.len() == 0 {
        path
    } else if is_verbatim(base) && path.len() > 0 {
        settled(base, path)
    } else if path.len() > 0 && is_separator(path[0]) {
        base.take(prefix_len(base)) + path
    } else if is_separator(base.last()) || has_drive(base, 0) && base.len() == 2 {
        base + path
    } else {
        base.push('\\') + path
    }
}

/// The path of `to` relative to `from`. Two paths that share nothing, not even
/// the root, leave `to` as it is.
pub open spec fn relative_path(from: Seq<char>, to: Seq<char>, on_windows: bool) -> Seq<char> {
    let a = components(from, on_windows);
    let b = components(to, on_windows);
    if slashed::common_from(a, b, 0) == 0 {
        to
    } else if slashed::way(a, b).len() == 0 {
        seq!['.']
    } else {
        text::join(slashed::way(a, b), seq!['/'])
    }
}

/// The components of `path` behind those of `base`.
pub open spec fn behind(base: Seq<char>, path: Seq<char>, on_windows: bool) -> Option<
    Seq<Seq<char>>,
> {
    let a = components(base, on_windows);
    let b = components(path, on_windows);
    if a.len() <= b.len() && b.take(a.len() as int) == a {
        Some(b.skip(a.len() as int))
    } else {
        None
    }
}

/// The id under which the lockfile keeps the project in `project_dir`.
pub open spec fn importer_id(
    lockfile_dir: Seq<char>,
    project_dir: Seq<char>,
    on_windows: bool,
) -> Seq<char> {
    match behind(lockfile_dir, project_dir, on_windows) {
        Some(rest) => if rest.len() == 0 {
            seq!['.']
        } else {
            text::join(rest, seq!['/'])
        },
        None => seq!['.'],
    }
}

/// The path without its last component.
pub open spec fn parent(path: Seq<char>, on_windows: bool) -> Option<Seq<char>> {
    if on_windows {
        match slashed::parent(body(path)) {
            Some(up) => Some(path.take((prefix_len(path) + up.len()) as int)),
            None => None,
        }
    } else {
        slashed::parent(path)
    }
}

/// The path, its parent, the parent of that, and so on.
pub open spec fn ancestors(path: Seq<char>, on_windows: bool) -> Seq<Seq<char>>
    decreases path.len(),
    via ancestors_decreases
{
    match parent(path, on_windows) {
        Some(up) => seq![path] + ancestors(up, on_windows),
        None => seq![path],
    }
}

#[via_fn]
proof fn ancestors_decreases(path: Seq<char>, on_windows: bool) {
    lemma_parent_shorter(path, on_windows);
}

proof fn lemma_component_end(path: Seq<char>, from: int)
    requires
        0 <= from,
    ensures
        from <= component_end(path, from),
        from <= path.len() ==> component_end(path, from) <= path.len(),
        from > path.len() ==> component_end(path, from) == from,
    decreases path.len() - from,
{
    if from < path.len() && !is_separator(path[from]) {
        lemma_component_end(path, from + 1);
    }
}

proof fn lemma_share_end(path: Seq<char>, from: int)
    requires
        0 <= from <= path.len(),
    ensures
        from <= share_end(path, from) <= path.len(),
{
    lemma_component_end(path, from);
    lemma_component_end(path, component_end(path, from) + 1);
}

/// What a path begins with is no longer than the path.
pub proof fn lemma_prefix_len(path: Seq<char>)
    ensures
        0 <= prefix_len(path) <= path.len(),
{
    if path.len() >= 2 {
        lemma_share_end(path, 2);
        lemma_component_end(path, 2);
    }
    if path.len() >= 4 {
        lemma_component_end(path, 4);
    }
    if path.len() >= 8 {
        lemma_share_end(path, 8);
    }
}

/// A parent is shorter than its path.
pub proof fn lemma_parent_shorter(path: Seq<char>, on_windows: bool)
    ensures
        parent(path, on_windows) is Some ==> parent(path, on_windows)->0.len() < path.len(),
{
    lemma_prefix_len(path);
    slashed::lemma_parent_shorter(path);
    slashed::lemma_parent_shorter(body(path));
}

/// What a path ends in, if that is a name.
pub open spec fn file_name(path: Seq<char>, on_windows: bool) -> Option<Seq<char>> {
    let all = names(path, on_windows);
    if all.len() == 0 || all.last() == ".."@ {
        None
    } else {
        Some(all.last())
    }
}

/// What stands behind the drive or the share, from its root on.
pub open spec fn rooted_body(path: Seq<char>) -> Seq<char> {
    if names_root(path) && body(path).len() == 0 {
        seq!['/']
    } else {
        body(path)
    }
}

/// What is left of `path` once the components of `base` are taken off its front.
/// On Windows it is written with `/`.
pub open spec fn stripped(base: Seq<char>, path: Seq<char>, on_windows: bool) -> Option<
    Seq<char>,
> {
    if !on_windows {
        slashed::stripped(base, path)
    } else if prefix(base) == prefix(path) {
        slashed::stripped(rooted_body(base), rooted_body(path))
    } else {
        None
    }
}

/// Two paths have the same components.
pub open spec fn same_path(a: Seq<char>, b: Seq<char>, on_windows: bool) -> bool {
    components(a, on_windows) == components(b, on_windows)
}

/// `path` is `base`, or lies in it.
pub open spec fn is_within(base: Seq<char>, path: Seq<char>, on_windows: bool) -> bool {
    behind(base, path, on_windows) is Some
}

/// The first one of some paths that ends in a name.
pub open spec fn first_named(
    all: Seq<Seq<char>>,
    name: Seq<char>,
    from: int,
    on_windows: bool,
) -> Option<Seq<char>>
    decreases all.len() - from,
{
    if from >= all.len() {
        None
    } else if file_name(all[from], on_windows) == Some(name) {
        Some(all[from])
    } else {
        first_named(all, name, from + 1, on_windows)
    }
}

fn parts_components(c: char) -> (yes: bool)
    ensures
        yes == is_separator(c),
{
    c == '/' || c == '\\'
}

fn find_component_end(path: &Vec<char>, from: usize) -> (end: usize)
    requires
        from <= path@.len(),
    ensures
        end == component_end(path@, from as int),
        from <= end <= path@.len(),
{
    let mut end: usize = from;
    while end < path.len() && !parts_components(path[end])
        invariant
            from <= end <= path@.len(),
            component_end(path@, from as int) == component_end(path@, end as int),
        decreases path@.len() - end,
    {
        end = end + 1;
    }
    end
}

fn find_share_end(path: &Vec<char>, from: usize) -> (end: usize)
    requires
        from <= path@.len(),
    ensures
        end == share_end(path@, from as int),
        from <= end <= path@.len(),
{
    let server = find_component_end(path, from);
    if server == path.len() {
        return server;
    }
    let share = find_component_end(path, server + 1);
    if share > server + 1 {
        share
    } else {
        server
    }
}

fn names_drive(path: &Vec<char>, at: usize) -> (yes: bool)
    requires
        at <= path@.len(),
    ensures
        yes == has_drive(path@, at as int),
{
    if path.len() - at < 2 {
        return false;
    }
    let c = path[at];
    (('a' <= c && c <= 'z') || ('A' <= c && c <= 'Z')) && path[at + 1] == ':'
}

fn check_verbatim(path: &Vec<char>) -> (yes: bool)
    ensures
        yes == is_verbatim(path@),
{
    path.len() >= 4 && path[0] == '\\' && path[1] == '\\' && path[2] == '?' && path[3] == '\\'
}

fn check_verbatim_drive(path: &Vec<char>) -> (yes: bool)
    ensures
        yes == is_verbatim_drive(path@),
{
    check_verbatim(path) && names_drive(path, 4) && (path.len() == 6 || parts_components(path[6]))
}

fn find_prefix_len(path: &Vec<char>) -> (n: usize)
    ensures
        n == prefix_len(path@),
        n <= path@.len(),
{
    if check_verbatim(path) {
        if check_verbatim_drive(path) {
            return 6;
        }
        if path.len() >= 8 && path[4] == 'U' && path[5] == 'N' && path[6] == 'C' && path[7]
            == '\\' {
            assert(path@.subrange(4, 8) =~= seq!['U', 'N', 'C', '\\']);
            return find_share_end(path, 8);
        }
        proof {
            if path@.len() >= 8 && path@.subrange(4, 8) == seq!['U', 'N', 'C', '\\'] {
                let mark = path@.subrange(4, 8);
                assert(mark[0] == 'U' && mark[1] == 'N' && mark[2] == 'C' && mark[3] == '\\');
            }
        }
        return find_component_end(path, 4);
    }
    if path.len() >= 2 && parts_components(path[0]) && parts_components(path[1]) {
        if path.len() >= 4 && path[2] == '.' && parts_components(path[3]) {
            return find_component_end(path, 4);
        }
        let server = find_component_end(path, 2);
        let share = find_share_end(path, 2);
        return if server > 2 && share > server {
            share
        } else {
            0
        };
    }
    if names_drive(path, 0) {
        2
    } else {
        0
    }
}

/// The text from `from` on, with `/` in the place of `\`.
fn slashed_text(chars: &Vec<char>, from: usize, to: usize) -> (s: String)
    requires
        from <= to <= chars@.len(),
    ensures
        s@ == with_slashes(chars@.subrange(from as int, to as int)),
{
    let mut s = String::new();
    let mut i: usize = from;
    assert(s@ =~= with_slashes(chars@.subrange(from as int, from as int)));
    while i < to
        invariant
            from <= i <= to <= chars@.len(),
            s@ == with_slashes(chars@.subrange(from as int, i as int)),
        decreases to - i,
    {
        s.push(
            if chars[i] == '\\' {
                '/'
            } else {
                chars[i]
            },
        );
        i = i + 1;
        assert(s@ =~= with_slashes(chars@.subrange(from as int, i as int)));
    }
    s
}

fn body_of(chars: &Vec<char>) -> (s: String)
    ensures
        s@ == body(chars@),
{
    let s = slashed_text(chars, find_prefix_len(chars), chars.len());
    assert(chars@.subrange(prefix_len(chars@), chars@.len() as int) =~= chars@.skip(
        prefix_len(chars@),
    ));
    s
}

fn capital_of(c: char) -> (capital_letter: char)
    ensures
        capital_letter == capital(c),
{
    if 'a' <= c && c <= 'z' {
        (c as u8 - 32) as char
    } else {
        c
    }
}

fn prefix_of(chars: &Vec<char>) -> (s: String)
    ensures
        s@ == prefix(chars@),
{
    let n = find_prefix_len(chars);
    let ghost named = chars@.take(n as int);
    assert(chars@.subrange(0, n as int) =~= named);
    if check_verbatim_drive(chars) {
        let mut s = text::text_of(chars, 0, 4);
        s.push(capital_of(chars[4]));
        s.push(':');
        assert(s@ =~= named.update(4, capital(named[4])));
        s
    } else if check_verbatim(chars) {
        text::text_of(chars, 0, n)
    } else if names_drive(chars, 0) {
        assert(n == 2);
        let mut s = String::new();
        s.push(capital_of(chars[0]));
        s.push(':');
        assert(s@ =~= named.update(0, capital(named[0])));
        s
    } else {
        slashed_text(chars, 0, n)
    }
}

fn check_names_root(chars: &Vec<char>) -> (yes: bool)
    ensures
        yes == names_root(chars@),
{
    find_prefix_len(chars) > 0 && !names_drive(chars, 0)
}

fn check_root(chars: &Vec<char>) -> (yes: bool)
    ensures
        yes == has_root(chars@),
{
    let n = find_prefix_len(chars);
    assert(body(chars@).len() == chars@.len() - n);
    check_names_root(chars) || n < chars.len() && parts_components(chars[n])
}

/// Whether the path says by itself where it leads.
pub fn is_absolute_path(path: &str, on_windows: bool) -> (yes: bool)
    ensures
        yes == is_absolute(path@, on_windows),
{
    if on_windows {
        let chars = text::chars_of(path);
        find_prefix_len(&chars) > 0 && check_root(&chars)
    } else {
        text::has_first_char(path, '/')
    }
}

fn names_of(path: &str, on_windows: bool) -> (all: Vec<String>)
    ensures
        all.deep_view() == names(path@, on_windows),
{
    if on_windows {
        slashed::path_names(body_of(&text::chars_of(path)).as_str())
    } else {
        slashed::path_names(path)
    }
}

/// The components of a path.
pub fn path_components(path: &str, on_windows: bool) -> (all: Vec<String>)
    ensures
        all.deep_view() == components(path@, on_windows),
{
    if !on_windows {
        return slashed::path_components(path);
    }
    let chars = text::chars_of(path);
    let mut all: Vec<String> = Vec::new();
    if find_prefix_len(&chars) > 0 {
        all.push(prefix_of(&chars));
        assert(all.deep_view() =~= seq![prefix(path@)]);
    } else {
        assert(all.deep_view() =~= Seq::<Seq<char>>::empty());
    }
    let ghost first = all.deep_view();
    let behind = body_of(&chars);
    if check_root(&chars) {
        let root = text::repeat_char('\\', 1);
        assert(root@ =~= seq!['\\']);
        all.push(root);
        assert(all.deep_view() =~= first + seq![seq!['\\']]);
    } else if text::has_first_char(behind.as_str(), '.') && (behind.as_str().unicode_len() == 1
        || behind.as_str().get_char(1) == '/') {
        let here = text::repeat_char('.', 1);
        assert(here@ =~= seq!['.']);
        all.push(here);
        assert(all.deep_view() =~= first + seq![seq!['.']]);
    } else {
        assert(all.deep_view() =~= first + Seq::<Seq<char>>::empty());
    }
    let ghost before = all.deep_view();
    assert(before == head(path@));
    let mut rest = names_of(path, true);
    let ghost more = rest.deep_view();
    all.append(&mut rest);
    assert(all.deep_view() =~= before + more);
    all
}

/// `path` seen from a base that is to be taken as it is written.
fn settle(base: &str, path: &str) -> (all: String)
    ensures
        all@ == settled(base@, path@),
{
    let front = text::chars_of(base);
    let chars = text::chars_of(path);
    let mut at: Vec<String> = if chars.len() > 0 && parts_components(chars[0]) {
        Vec::new()
    } else {
        names_of(base, true)
    };
    let ghost first = at.deep_view();
    assert(first =~= (if path@.len() > 0 && is_separator(path@[0]) {
        Seq::empty()
    } else {
        names(base@, true)
    }));
    let parts = names_of(path, true);
    let ghost steps = parts.deep_view();
    let mut i: usize = 0;
    assert(led_to(first, steps.take(0)) == first);
    while i < parts.len()
        invariant
            i <= parts@.len(),
            steps == parts.deep_view(),
            at.deep_view() == led_to(first, steps.take(i as int)),
        decreases parts@.len() - i,
    {
        let ghost before = at.deep_view();
        proof {
            assert(steps.take(i + 1).drop_last() =~= steps.take(i as int));
            assert(steps[i as int] == parts@[i as int]@);
            reveal_strlit("..");
            assert(".."@ =~= seq!['.', '.']);
        }
        if !text::same_text(parts[i].as_str(), "..") {
            at.push(text::copy(parts[i].as_str()));
            assert(at.deep_view() =~= before.push(steps[i as int]));
        } else if at.len() > 0 {
            let n: usize = at.len();
            assert(before[n - 1] == at@[n - 1]@);
            if !text::same_text(at[n - 1].as_str(), "..") {
                at.pop();
                assert(at.deep_view() =~= before.drop_last());
            }
        }
        i = i + 1;
    }
    assert(steps.take(i as int) =~= steps);
    let end = find_prefix_len(&front);
    assert(base@.subrange(0, end as int) =~= base@.take(end as int));
    let mut all = text::text_of(&front, 0, end);
    all.push('\\');
    assert(all@ =~= base@.take(end as int) + seq!['\\']);
    proof {
        reveal_strlit("\\");
        assert("\\"@ =~= seq!['\\']);
    }
    all.concat(text::join_texts(&at, "\\").as_str())
}

/// `path` seen from `base`.
pub fn join_paths(base: &str, path: &str, on_windows: bool) -> (all: String)
    ensures
        all@ == joined(base@, path@, on_windows),
{
    if !on_windows {
        return slashed::join_paths(base, path);
    }
    let front = text::chars_of(base);
    let chars = text::chars_of(path);
    let n: usize = front.len();
    if find_prefix_len(&chars) > 0 || n == 0 {
        text::copy(path)
    } else if check_verbatim(&front) && chars.len() > 0 {
        settle(base, path)
    } else if chars.len() > 0 && parts_components(chars[0]) {
        let end = find_prefix_len(&front);
        assert(base@.subrange(0, end as int) =~= base@.take(end as int));
        text::text_of(&front, 0, end).concat(path)
    } else if parts_components(front[n - 1]) || (n == 2 && names_drive(&front, 0)) {
        text::copy(base).concat(path)
    } else {
        let mut all = text::copy(base);
        all.push('\\');
        all.concat(path)
    }
}

/// The path without its last component.
pub fn parent_path(path: &str, on_windows: bool) -> (up: Option<String>)
    ensures
        up.deep_view() == parent(path@, on_windows),
{
    if !on_windows {
        return slashed::parent_path(path);
    }
    let chars = text::chars_of(path);
    let n = find_prefix_len(&chars);
    let behind = body_of(&chars);
    proof {
        slashed::lemma_parent_shorter(body(path@));
    }
    match slashed::parent_path(behind.as_str()) {
        Some(up) => {
            let m: usize = up.as_str().unicode_len();
            assert(path@.subrange(0, n + m) =~= path@.take(n + m));
            Some(text::text_of(&chars, 0, n + m))
        },
        None => None,
    }
}

/// The path, its parent, the parent of that, and so on.
pub fn path_ancestors(path: &str, on_windows: bool) -> (all: Vec<String>)
    ensures
        all.deep_view() == ancestors(path@, on_windows),
{
    let mut all: Vec<String> = Vec::new();
    let mut at = text::copy(path);
    assert(all.deep_view() + ancestors(at@, on_windows) =~= ancestors(path@, on_windows));
    loop
        invariant
            all.deep_view() + ancestors(at@, on_windows) == ancestors(path@, on_windows),
        decreases at@.len(),
    {
        proof {
            lemma_parent_shorter(at@, on_windows);
        }
        let up = parent_path(at.as_str(), on_windows);
        let ghost before = all.deep_view();
        let ghost here = at@;
        all.push(at);
        assert(all.deep_view() =~= before.push(here));
        match up {
            Some(above) => {
                assert(all.deep_view() + ancestors(
                    above@,
                    on_windows,
                ) =~= before + (seq![here] + ancestors(
                    above@,
                    on_windows,
                )));
                at = above;
            },
            None => {
                assert(all.deep_view() =~= before + seq![here]);
                return all;
            },
        }
    }
}

/// The path of `to` relative to `from`.
pub fn to_relative_path(from: &str, to: &str, on_windows: bool) -> (path: String)
    ensures
        path@ == relative_path(from@, to@, on_windows),
{
    let a = path_components(from, on_windows);
    let b = path_components(to, on_windows);
    let n = slashed::shared_components(&a, &b);
    if n == 0 {
        return text::copy(to);
    }
    let mut parts: Vec<String> = Vec::new();
    let mut i: usize = n;
    while i < a.len()
        invariant
            n <= i <= a@.len(),
            parts.deep_view() == Seq::new((i - n) as nat, |i: int| seq!['.', '.']),
        decreases a@.len() - i,
    {
        let ghost before = parts.deep_view();
        let up = text::repeat_char('.', 2);
        assert(up@ =~= seq!['.', '.']);
        parts.push(up);
        i = i + 1;
        assert(parts.deep_view() =~= before.push(seq!['.', '.']));
        assert(parts.deep_view() =~= Seq::new((i - n) as nat, |i: int| seq!['.', '.']));
    }
    let ghost ups = parts.deep_view();
    let mut rest = slashed::components_behind(&b, n);
    let ghost down = rest.deep_view();
    parts.append(&mut rest);
    assert(parts.deep_view() =~= ups + down);
    assert(parts.deep_view() =~= slashed::way(a.deep_view(), b.deep_view()));
    if parts.len() == 0 {
        let here = text::repeat_char('.', 1);
        assert(here@ =~= seq!['.']);
        here
    } else {
        proof {
            reveal_strlit("/");
            assert("/"@ =~= seq!['/']);
        }
        text::join_texts(&parts, "/")
    }
}

/// The id under which the lockfile keeps the project in `project_dir`.
pub fn to_lockfile_importer_id(
    lockfile_dir: &str,
    project_dir: &str,
    on_windows: bool,
) -> (id: String)
    ensures
        id@ == importer_id(lockfile_dir@, project_dir@, on_windows),
{
    let a = path_components(lockfile_dir, on_windows);
    let b = path_components(project_dir, on_windows);
    let n = slashed::shared_components(&a, &b);
    proof {
        slashed::lemma_common(a.deep_view(), b.deep_view(), 0);
    }
    if n < a.len() || n == b.len() {
        proof {
            if a@.len() <= b@.len() && b.deep_view().take(a@.len() as int) == a.deep_view() && n
                < a@.len() {
                assert(b.deep_view().take(a@.len() as int)[n as int] == a.deep_view()[n as int]);
            }
        }
        let here = text::repeat_char('.', 1);
        assert(here@ =~= seq!['.']);
        return here;
    }
    proof {
        assert(b.deep_view().take(n as int) =~= a.deep_view());
        reveal_strlit("/");
        assert("/"@ =~= seq!['/']);
    }
    let rest = slashed::components_behind(&b, n);
    text::join_texts(&rest, "/")
}

/// What is left of `path` once the components of `base` are taken off its front.
pub fn strip_base(base: &str, path: &str, on_windows: bool) -> (rest: Option<String>)
    ensures
        rest.deep_view() == stripped(base@, path@, on_windows),
{
    if !on_windows {
        return slashed::strip_base(base, path);
    }
    let front = text::chars_of(base);
    let chars = text::chars_of(path);
    if !text::same_text(prefix_of(&front).as_str(), prefix_of(&chars).as_str()) {
        return None;
    }
    slashed::strip_base(rooted_body_of(&front).as_str(), rooted_body_of(&chars).as_str())
}

fn rooted_body_of(chars: &Vec<char>) -> (s: String)
    ensures
        s@ == rooted_body(chars@),
{
    let behind = body_of(chars);
    if check_names_root(chars) && behind.as_str().unicode_len() == 0 {
        let root = text::repeat_char('/', 1);
        assert(root@ =~= seq!['/']);
        root
    } else {
        behind
    }
}

/// What a path ends in, if that is a name.
pub fn path_file_name(path: &str, on_windows: bool) -> (name: Option<String>)
    ensures
        name.deep_view() == file_name(path@, on_windows),
{
    let all = names_of(path, on_windows);
    let n: usize = all.len();
    assert(all.deep_view().len() == n);
    if n == 0 {
        return None;
    }
    assert(all.deep_view()[n - 1] == all@[n - 1]@);
    let last = all[n - 1].as_str();
    if text::same_text(last, "..") {
        None
    } else {
        Some(text::copy(last))
    }
}

/// Whether two paths have the same components.
pub fn is_same_path(a: &str, b: &str, on_windows: bool) -> (same: bool)
    ensures
        same == same_path(a@, b@, on_windows),
{
    path_components(a, on_windows).same(&path_components(b, on_windows))
}

/// Whether `path` is `base`, or lies in it.
pub fn path_is_within(base: &str, path: &str, on_windows: bool) -> (yes: bool)
    ensures
        yes == is_within(base@, path@, on_windows),
{
    let a = path_components(base, on_windows);
    let b = path_components(path, on_windows);
    let n = slashed::shared_components(&a, &b);
    proof {
        slashed::lemma_common(a.deep_view(), b.deep_view(), 0);
        if n == a@.len() {
            assert(b.deep_view().take(n as int) =~= a.deep_view());
        } else if a@.len() <= b@.len() && b.deep_view().take(a@.len() as int) == a.deep_view() {
            assert(b.deep_view().take(a@.len() as int)[n as int] == a.deep_view()[n as int]);
        }
    }
    n == a.len()
}

/// The nearest directory with a name that a path lies in. With `from` 0 the path
/// itself counts, with 1 it does not.
pub fn nearest_named(path: &str, name: &str, from: usize, on_windows: bool) -> (dir: Option<String>)
    ensures
        dir.deep_view() == first_named(
            ancestors(path@, on_windows),
            name@,
            from as int,
            on_windows,
        ),
{
    let all = path_ancestors(path, on_windows);
    let ghost dirs = all.deep_view();
    let mut i: usize = from;
    while i < all.len()
        invariant
            from <= i,
            dirs == all.deep_view(),
            dirs == ancestors(path@, on_windows),
            first_named(
                dirs,
                name@,
                from as int,
                on_windows,
            ) == first_named(dirs, name@, i as int, on_windows),
        decreases all@.len() - i,
    {
        assert(dirs[i as int] == all@[i as int]@);
        if let Some(last) = path_file_name(all[i].as_str(), on_windows) {
            if text::same_text(last.as_str(), name) {
                return Some(all[i].clone());
            }
        }
        i = i + 1;
    }
    None
}

} // verus!
