//! Paths as texts with `/` between their components, as they are written
//! anywhere but on Windows.
use crate::text;
use vstd::prelude::*;
use vstd::string::*;

verus! {

/// The path starts at the root.
pub open spec fn is_absolute(path: Seq<char>) -> bool {
    path.len() > 0 && path[0] == '/'
}

/// The path starts at `.`, and says so.
pub open spec fn starts_here(path: Seq<char>) -> bool {
    path.len() > 0 && path[0] == '.' && (path.len() == 1 || path[1] == '/')
}

/// The piece between two separators names something.
pub open spec fn is_name(piece: Seq<char>) -> bool {
    piece.len() > 0 && piece != seq!['.']
}

/// The pieces that name something.
pub open spec fn names(pieces: Seq<Seq<char>>) -> Seq<Seq<char>>
    decreases pieces.len(),
{
    if pieces.len() == 0 {
        pieces
    } else if is_name(pieces.last()) {
        names(pieces.drop_last()).push(pieces.last())
    } else {
        names(pieces.drop_last())
    }
}

/// The components of a path: the root or a leading `.`, then every name.
pub open spec fn components(path: Seq<char>) -> Seq<Seq<char>> {
    let first = if is_absolute(path) {
        seq![seq!['/']]
    } else if starts_here(path) {
        seq![seq!['.']]
    } else {
        Seq::empty()
    };
    first + names(text::split(path, '/'))
}

/// `path` seen from `base`.
pub open spec fn joined(base: Seq<char>, path: Seq<char>) -> Seq<char> {
    if is_absolute(path) || base.len() == 0 {
        path
    } else if base.last() == '/' {
        base + path
    } else {
        base.push('/') + path
    }
}

/// How many components two paths share at their start, from position `i` on.
pub open spec fn common_from(a: Seq<Seq<char>>, b: Seq<Seq<char>>, i: int) -> int
    decreases a.len() - i,
{
    if 0 <= i < a.len() && i < b.len() && a[i] == b[i] {
        common_from(a, b, i + 1)
    } else {
        i
    }
}

/// The components of the way from `from` to `to`: up to what they share, then
/// down.
pub open spec fn way(from: Seq<Seq<char>>, to: Seq<Seq<char>>) -> Seq<Seq<char>> {
    let n = common_from(from, to, 0);
    Seq::new((from.len() - n) as nat, |i: int| seq!['.', '.']) + to.skip(n)
}

/// The components of `path` behind those of `base`.
pub open spec fn behind(base: Seq<char>, path: Seq<char>) -> Option<Seq<Seq<char>>> {
    let a = components(base);
    let b = components(path);
    if a.len() <= b.len() && b.take(a.len() as int) == a {
        Some(b.skip(a.len() as int))
    } else {
        None
    }
}

/// Where the steps in `parts` lead from `at`.
pub open spec fn walked(at: Seq<Seq<char>>, parts: Seq<Seq<char>>) -> Seq<Seq<char>>
    decreases parts.len(),
{
    if parts.len() == 0 {
        at
    } else {
        let before = walked(at, parts.drop_last());
        if parts.last() == seq!['.', '.'] {
            before.drop_last()
        } else {
            before.push(parts.last())
        }
    }
}

/// How many characters of the path belong to its root or its leading `.`.
pub open spec fn head_len(path: Seq<char>) -> int {
    if is_absolute(path) || starts_here(path) {
        1
    } else {
        0
    }
}

/// Where the last piece of the first `end` characters begins.
pub open spec fn piece_start(path: Seq<char>, end: int) -> int {
    head_len(path) + text::last_index(path.subrange(head_len(path), end), '/') + 1
}

/// The end of the path once its last piece and the separator before it are off.
pub open spec fn piece_off(path: Seq<char>, end: int) -> int {
    let start = piece_start(path, end);
    if start > head_len(path) {
        start - 1
    } else {
        start
    }
}

/// The end of the path without the pieces at its end that name nothing.
pub open spec fn trimmed_end(path: Seq<char>, end: int) -> int
    decreases end,
    via trimmed_end_decreases
{
    if head_len(path) < end <= path.len() && !is_name(path.subrange(piece_start(path, end), end)) {
        trimmed_end(path, piece_off(path, end))
    } else {
        end
    }
}

#[via_fn]
proof fn trimmed_end_decreases(path: Seq<char>, end: int) {
    if head_len(path) < end <= path.len() {
        text::lemma_last_index(path.subrange(head_len(path), end), '/');
    }
}

/// The path without its last component.
pub open spec fn parent(path: Seq<char>) -> Option<Seq<char>> {
    let end = trimmed_end(path, path.len() as int);
    if end > head_len(path) {
        Some(path.subrange(0, trimmed_end(path, piece_off(path, end))))
    } else if starts_here(path) {
        Some(Seq::empty())
    } else {
        None
    }
}

proof fn lemma_trimmed_end(path: Seq<char>, end: int)
    requires
        head_len(path) <= end <= path.len(),
    ensures
        head_len(path) <= trimmed_end(path, end) <= end,
    decreases end,
{
    if head_len(path) < end && !is_name(path.subrange(piece_start(path, end), end)) {
        lemma_piece(path, end);
        lemma_trimmed_end(path, piece_off(path, end));
    }
}

proof fn lemma_piece(path: Seq<char>, end: int)
    requires
        head_len(path) < end <= path.len(),
    ensures
        head_len(path) <= piece_start(path, end) <= end,
        head_len(path) <= piece_off(path, end) < end,
{
    text::lemma_last_index(path.subrange(head_len(path), end), '/');
}

/// A parent is shorter than its path.
pub proof fn lemma_parent_shorter(path: Seq<char>)
    ensures
        parent(path) is Some ==> parent(path)->0.len() < path.len(),
{
    let end = trimmed_end(path, path.len() as int);
    lemma_trimmed_end(path, path.len() as int);
    if end > head_len(path) {
        lemma_piece(path, end);
        lemma_trimmed_end(path, piece_off(path, end));
    }
}

/// The end of the path without the pieces at its end that name nothing.
fn find_trimmed_end(path: &Vec<char>, head: usize, from: usize) -> (end: usize)
    requires
        head == head_len(path@),
        head <= from <= path@.len(),
    ensures
        end == trimmed_end(path@, from as int),
        head <= end <= from,
{
    let mut end: usize = from;
    while end > head
        invariant
            head == head_len(path@),
            head <= end <= from <= path@.len(),
            trimmed_end(path@, from as int) == trimmed_end(path@, end as int),
        decreases end,
    {
        let start = find_piece_start(path, head, end);
        if end > start && !(end == start + 1 && path[start] == '.') {
            proof {
                let piece = path@.subrange(start as int, end as int);
                if piece == seq!['.'] {
                    assert(piece.len() == 1);
                    assert(piece[0] == path@[start as int]);
                }
            }
            return end;
        }
        proof {
            let piece = path@.subrange(start as int, end as int);
            if end > start {
                assert(piece =~= seq!['.']);
            }
            lemma_piece(path@, end as int);
        }
        end = if start > head {
            start - 1
        } else {
            start
        };
    }
    end
}

fn find_piece_start(path: &Vec<char>, head: usize, end: usize) -> (start: usize)
    requires
        head == head_len(path@),
        head < end <= path@.len(),
    ensures
        start == piece_start(path@, end as int),
        head <= start <= end,
{
    let mut start: usize = end;
    let ghost body = path@.subrange(head as int, end as int);
    while start > head && path[start - 1] != '/'
        invariant
            head == head_len(path@),
            head <= start <= end <= path@.len(),
            forall|j: int| start <= j < end ==> path@[j] != '/',
        decreases start,
    {
        start = start - 1;
    }
    proof {
        assert forall|j: int| start - head - 1 < j < body.len() implies body[j] != '/' by {
            assert(body[j] == path@[head + j]);
        }
        text::lemma_last_index_is(body, '/', start - head - 1);
    }
    start
}

/// How many characters belong to the root or the leading `.`.
fn find_head_len(path: &Vec<char>) -> (head: usize)
    ensures
        head == head_len(path@),
        head <= path@.len(),
{
    if path.len() > 0 && (path[0] == '/' || (path[0] == '.' && (path.len() == 1 || path[1]
        == '/'))) {
        1
    } else {
        0
    }
}

/// The path without its last component.
pub fn parent_path(path: &str) -> (up: Option<String>)
    ensures
        up.deep_view() == parent(path@),
{
    let chars = text::chars_of(path);
    let head = find_head_len(&chars);
    let n: usize = chars.len();
    let end = find_trimmed_end(&chars, head, n);
    if end > head {
        let start = find_piece_start(&chars, head, end);
        let off: usize = if start > head {
            start - 1
        } else {
            start
        };
        let shorter = find_trimmed_end(&chars, head, off);
        Some(text::text_of(&chars, 0, shorter))
    } else if head == 1 && chars[0] == '.' {
        let empty = String::new();
        assert(empty@ =~= Seq::<char>::empty());
        Some(empty)
    } else {
        None
    }
}

/// The components of a path.
pub fn path_components(path: &str) -> (all: Vec<String>)
    ensures
        all.deep_view() == components(path@),
{
    let mut all: Vec<String> = Vec::new();
    if text::has_first_char(path, '/') {
        let root = text::repeat_char('/', 1);
        assert(root@ =~= seq!['/']);
        all.push(root);
        assert(all.deep_view() =~= seq![seq!['/']]);
    } else if text::has_first_char(path, '.') && (path.unicode_len() == 1 || path.get_char(1)
        == '/') {
        let here = text::repeat_char('.', 1);
        assert(here@ =~= seq!['.']);
        all.push(here);
        assert(all.deep_view() =~= seq![seq!['.']]);
    } else {
        assert(all.deep_view() =~= Seq::empty());
    }
    let ghost first = all.deep_view();
    let mut rest = path_names(path);
    let ghost behind = rest.deep_view();
    all.append(&mut rest);
    assert(all.deep_view() =~= first + behind);
    all
}

/// The names in a path.
pub fn path_names(path: &str) -> (all: Vec<String>)
    ensures
        all.deep_view() == names(text::split(path@, '/')),
{
    let mut all: Vec<String> = Vec::new();
    let pieces = text::split_text(path, '/');
    let ghost parts = pieces.deep_view();
    let mut i: usize = 0;
    assert(all.deep_view() =~= names(parts.take(0)));
    while i < pieces.len()
        invariant
            i <= pieces@.len(),
            parts == pieces.deep_view(),
            all.deep_view() == names(parts.take(i as int)),
        decreases pieces@.len() - i,
    {
        let ghost before = all.deep_view();
        assert(parts.take(i + 1).drop_last() =~= parts.take(i as int));
        let piece = pieces[i].as_str();
        if piece.unicode_len() > 0 && !(piece.unicode_len() == 1 && piece.get_char(0) == '.') {
            proof {
                if piece@ == seq!['.'] {
                    assert(piece@.len() == 1 && piece@[0] == '.');
                }
            }
            all.push(text::copy(piece));
            assert(all.deep_view() =~= before.push(parts[i as int]));
        } else {
            proof {
                if piece@.len() > 0 {
                    assert(piece@ =~= seq!['.']);
                }
            }
        }
        i = i + 1;
    }
    assert(parts.take(i as int) =~= parts);
    all
}

/// `path` seen from `base`.
pub fn join_paths(base: &str, path: &str) -> (all: String)
    ensures
        all@ == joined(base@, path@),
{
    let n: usize = base.unicode_len();
    if text::has_first_char(path, '/') || n == 0 {
        text::copy(path)
    } else if base.get_char(n - 1) == '/' {
        text::copy(base).concat(path)
    } else {
        let mut all = text::copy(base);
        all.push('/');
        all.concat(path)
    }
}

/// How many components two paths share at their start.
pub fn shared_components(a: &Vec<String>, b: &Vec<String>) -> (n: usize)
    ensures
        n == common_from(a.deep_view(), b.deep_view(), 0),
        n <= a@.len(),
        n <= b@.len(),
{
    let mut i: usize = 0;
    while i < a.len() && i < b.len()
        invariant
            i <= a@.len(),
            i <= b@.len(),
            common_from(a.deep_view(), b.deep_view(), 0) == common_from(
                a.deep_view(),
                b.deep_view(),
                i as int,
            ),
        decreases a@.len() - i,
    {
        if !text::same_text(a[i].as_str(), b[i].as_str()) {
            return i;
        }
        i = i + 1;
    }
    i
}

/// The components behind the first `n`.
pub fn components_behind(all: &Vec<String>, n: usize) -> (rest: Vec<String>)
    requires
        n <= all@.len(),
    ensures
        rest.deep_view() == all.deep_view().skip(n as int),
{
    let mut rest: Vec<String> = Vec::new();
    let mut i: usize = n;
    while i < all.len()
        invariant
            n <= i <= all@.len(),
            rest.deep_view() == all.deep_view().subrange(n as int, i as int),
        decreases all@.len() - i,
    {
        let ghost before = rest.deep_view();
        rest.push(text::copy(all[i].as_str()));
        assert(rest.deep_view() =~= before.push(all.deep_view()[i as int]));
        i = i + 1;
        assert(rest.deep_view() =~= all.deep_view().subrange(n as int, i as int));
    }
    assert(rest.deep_view() =~= all.deep_view().skip(n as int));
    rest
}

/// What two paths share is the same, and ends where they differ.
pub proof fn lemma_common(a: Seq<Seq<char>>, b: Seq<Seq<char>>, i: int)
    requires
        0 <= i <= a.len(),
        i <= b.len(),
    ensures
        i <= common_from(a, b, i) <= a.len(),
        common_from(a, b, i) <= b.len(),
        forall|j: int| i <= j < common_from(a, b, i) ==> a[j] == b[j],
        common_from(a, b, i) < a.len() && common_from(a, b, i) < b.len() ==> a[common_from(a, b, i)]
            != b[common_from(a, b, i)],
    decreases a.len() - i,
{
    if i < a.len() && i < b.len() && a[i] == b[i] {
        lemma_common(a, b, i + 1);
    }
}

proof fn lemma_walk_up(at: Seq<Seq<char>>, n: int)
    requires
        0 <= n <= at.len(),
    ensures
        walked(at, Seq::new(n as nat, |i: int| seq!['.', '.'])) == at.take(at.len() - n),
    decreases n,
{
    let ups = Seq::new(n as nat, |i: int| seq!['.', '.']);
    if n == 0 {
        assert(at.take(at.len() as int) =~= at);
    } else {
        lemma_walk_up(at, n - 1);
        assert(ups.drop_last() =~= Seq::new((n - 1) as nat, |i: int| seq!['.', '.']));
        assert(at.take(at.len() - n + 1).drop_last() =~= at.take(at.len() - n));
    }
}

proof fn lemma_walk_down(at: Seq<Seq<char>>, parts: Seq<Seq<char>>, from: Seq<Seq<char>>)
    requires
        forall|i: int| 0 <= i < parts.len() ==> #[trigger] parts[i] != seq!['.', '.'],
    ensures
        walked(at, from + parts) == walked(at, from) + parts,
    decreases parts.len(),
{
    if parts.len() == 0 {
        assert(from + parts =~= from);
        assert(walked(at, from) + parts =~= walked(at, from));
    } else {
        let all = from + parts;
        assert(all.drop_last() =~= from + parts.drop_last());
        assert(all.last() == parts[parts.len() - 1]);
        lemma_walk_down(at, parts.drop_last(), from);
        assert(walked(at, from) + parts =~= (walked(at, from) + parts.drop_last()).push(
            parts.last(),
        ));
    }
}

/// The way from one path to another leads there, as long as nothing behind what
/// they share goes up.
pub proof fn law_way_leads_there(from: Seq<Seq<char>>, to: Seq<Seq<char>>)
    requires
        forall|i: int|
            common_from(from, to, 0) <= i < to.len() ==> #[trigger] to[i] != seq!['.', '.'],
    ensures
        walked(from, way(from, to)) == to,
{
    let n = common_from(from, to, 0);
    lemma_common(from, to, 0);
    let ups = Seq::new((from.len() - n) as nat, |i: int| seq!['.', '.']);
    let down = to.skip(n);
    assert forall|i: int| 0 <= i < down.len() implies #[trigger] down[i] != seq!['.', '.'] by {
        assert(down[i] == to[n + i]);
    }
    lemma_walk_down(from, down, ups);
    lemma_walk_up(from, from.len() - n);
    assert(from.take(n) + down =~= to);
}

/// The position of the piece at or behind `from` that is the name number `k`
/// from there, or the end.
pub open spec fn name_index(pieces: Seq<Seq<char>>, from: int, k: int) -> int
    decreases pieces.len() - from,
{
    if 0 <= from < pieces.len() {
        if !is_name(pieces[from]) {
            name_index(pieces, from + 1, k)
        } else if k > 0 {
            name_index(pieces, from + 1, k - 1)
        } else {
            from
        }
    } else {
        from
    }
}

/// The end of the pieces without those at their end that name nothing.
pub open spec fn names_end(pieces: Seq<Seq<char>>) -> int
    decreases pieces.len(),
{
    if pieces.len() > 0 && !is_name(pieces.last()) {
        names_end(pieces.drop_last())
    } else {
        pieces.len() as int
    }
}

/// What is left of `path` once the components of `base` are taken off its
/// front, written as it was.
pub open spec fn stripped(base: Seq<char>, path: Seq<char>) -> Option<Seq<char>> {
    match behind(base, path) {
        None => None,
        Some(rest) => if rest.len() == 0 {
            Some(Seq::empty())
        } else if components(base).len() == 0 {
            Some(path.subrange(0, trimmed_end(path, path.len() as int)))
        } else {
            let pieces = text::split(path, '/');
            let first = name_index(pieces, 0, components(base).len() - head_len(path));
            Some(text::join(pieces.subrange(first, names_end(pieces)), seq!['/']))
        },
    }
}

/// How many pieces at or behind `from` are names.
spec fn name_count(pieces: Seq<Seq<char>>, from: int) -> int
    decreases pieces.len() - from,
{
    if 0 <= from < pieces.len() {
        name_count(pieces, from + 1) + (if is_name(pieces[from]) {
            1int
        } else {
            0int
        })
    } else {
        0
    }
}

proof fn lemma_name_count_last(pieces: Seq<Seq<char>>, from: int)
    requires
        0 <= from < pieces.len(),
    ensures
        name_count(pieces, from) == name_count(pieces.drop_last(), from) + (if is_name(
            pieces.last(),
        ) {
            1int
        } else {
            0int
        }),
    decreases pieces.len() - from,
{
    if from < pieces.len() - 1 {
        lemma_name_count_last(pieces, from + 1);
    } else {
        assert(name_count(pieces, from + 1) == 0);
    }
}

proof fn lemma_name_count(pieces: Seq<Seq<char>>)
    ensures
        name_count(pieces, 0) == names(pieces).len(),
    decreases pieces.len(),
{
    if pieces.len() > 0 {
        lemma_name_count(pieces.drop_last());
        lemma_name_count_last(pieces, 0);
    }
}

proof fn lemma_name_index(pieces: Seq<Seq<char>>, from: int, k: int)
    requires
        0 <= from <= pieces.len(),
        0 <= k < name_count(pieces, from),
    ensures
        from <= name_index(pieces, from, k) < pieces.len(),
        is_name(pieces[name_index(pieces, from, k)]),
    decreases pieces.len() - from,
{
    if is_name(pieces[from]) {
        if k > 0 {
            lemma_name_index(pieces, from + 1, k - 1);
        }
    } else {
        lemma_name_index(pieces, from + 1, k);
    }
}

proof fn lemma_names_end(pieces: Seq<Seq<char>>, i: int)
    requires
        0 <= i < pieces.len(),
        is_name(pieces[i]),
    ensures
        i < names_end(pieces) <= pieces.len(),
    decreases pieces.len(),
{
    if !is_name(pieces.last()) {
        lemma_names_end(pieces.drop_last(), i);
    }
}

/// Whether a piece names something.
fn is_name_text(piece: &str) -> (yes: bool)
    ensures
        yes == is_name(piece@),
{
    let n: usize = piece.unicode_len();
    let here = n == 1 && piece.get_char(0) == '.';
    proof {
        if here {
            assert(piece@ =~= seq!['.']);
        } else if piece@ == seq!['.'] {
            assert(piece@.len() == 1 && piece@[0] == '.');
        }
    }
    n > 0 && !here
}

/// What is left of `path` once the components of `base` are taken off its
/// front.
pub fn strip_base(base: &str, path: &str) -> (rest: Option<String>)
    ensures
        rest.deep_view() == stripped(base@, path@),
{
    let a = path_components(base);
    let b = path_components(path);
    let n = shared_components(&a, &b);
    proof {
        lemma_common(a.deep_view(), b.deep_view(), 0);
    }
    if n < a.len() {
        proof {
            if a@.len() <= b@.len() && b.deep_view().take(a@.len() as int) == a.deep_view() {
                assert(b.deep_view().take(a@.len() as int)[n as int] == a.deep_view()[n as int]);
            }
        }
        return None;
    }
    proof {
        assert(b.deep_view().take(n as int) =~= a.deep_view());
        assert(b.deep_view().skip(n as int).len() == b@.len() - n);
    }
    if n == b.len() {
        let empty = String::new();
        assert(empty@ =~= Seq::<char>::empty());
        return Some(empty);
    }
    let chars = text::chars_of(path);
    let head = find_head_len(&chars);
    if n == 0 {
        let count: usize = chars.len();
        let end = find_trimmed_end(&chars, head, count);
        return Some(text::text_of(&chars, 0, end));
    }
    let pieces = text::split_text(path, '/');
    let ghost all = pieces.deep_view();
    let mut left: usize = if n >= head {
        n - head
    } else {
        0
    };
    let mut first: usize = 0;
    while first < pieces.len()
        invariant_except_break
            first <= pieces@.len(),
            all == pieces.deep_view(),
            name_index(all, 0, n - head) == name_index(all, first as int, left as int),
        invariant
            all == pieces.deep_view(),
        ensures
            first <= pieces@.len(),
            first == name_index(all, 0, n - head),
        decreases pieces@.len() - first,
    {
        assert(all[first as int] == pieces@[first as int]@);
        if is_name_text(pieces[first].as_str()) {
            if left == 0 {
                break;
            }
            left = left - 1;
        }
        first = first + 1;
    }
    let mut end: usize = pieces.len();
    assert(all.take(end as int) =~= all);
    while end > 0 && !is_name_text(pieces[end - 1].as_str())
        invariant
            end <= pieces@.len(),
            all == pieces.deep_view(),
            names_end(all) == names_end(all.take(end as int)),
        decreases end,
    {
        assert(all.take(end as int).last() == pieces@[end - 1]@);
        assert(all.take(end as int).drop_last() =~= all.take(end - 1));
        end = end - 1;
    }
    proof {
        if end > 0 {
            assert(all.take(end as int).last() == pieces@[end - 1]@);
        }
        assert(names_end(all) == end);
    }
    let mut rest: Vec<String> = Vec::new();
    let mut i: usize = first;
    proof {
        lemma_name_count(all);
        lemma_name_index(all, 0, n - head);
        lemma_names_end(all, first as int);
    }
    while i < end
        invariant
            first <= i <= end,
            end <= pieces@.len(),
            all == pieces.deep_view(),
            rest.deep_view() == all.subrange(first as int, i as int),
        decreases end - i,
    {
        let ghost before = rest.deep_view();
        rest.push(pieces[i].clone());
        assert(rest.deep_view() =~= before.push(all[i as int]));
        i = i + 1;
        assert(rest.deep_view() =~= all.subrange(first as int, i as int));
    }
    proof {
        reveal_strlit("/");
        assert("/"@ =~= seq!['/']);
    }
    Some(text::join_texts(&rest, "/"))
}

/// Two paths have the same components.
pub open spec fn same_path(a: Seq<char>, b: Seq<char>) -> bool {
    components(a) == components(b)
}

/// `path` is `base`, or lies in it.
pub open spec fn is_within(base: Seq<char>, path: Seq<char>) -> bool {
    behind(base, path) is Some
}

proof fn lemma_names_concat(a: Seq<Seq<char>>, b: Seq<Seq<char>>)
    ensures
        names(a + b) == names(a) + names(b),
    decreases b.len(),
{
    if b.len() == 0 {
        assert(a + b =~= a);
        assert(names(a) + names(b) =~= names(a));
    } else {
        assert((a + b).drop_last() =~= a + b.drop_last());
        lemma_names_concat(a, b.drop_last());
        assert(names(a + b) =~= names(a) + names(b));
    }
}

proof fn lemma_names_single(piece: Seq<char>)
    ensures
        names(seq![piece]) == (if is_name(piece) {
            seq![piece]
        } else {
            Seq::empty()
        }),
{
    let empty = Seq::<Seq<char>>::empty();
    assert(seq![piece].drop_last() =~= empty);
    assert(names(empty) =~= empty);
    assert(empty.push(piece) =~= seq![piece]);
}

/// The names before the one that is looked for.
proof fn lemma_names_before(pieces: Seq<Seq<char>>, from: int, k: int)
    requires
        0 <= from <= pieces.len(),
        0 <= k < name_count(pieces, from),
    ensures
        from <= name_index(pieces, from, k) < pieces.len(),
        is_name(pieces[name_index(pieces, from, k)]),
        names(pieces.subrange(from, name_index(pieces, from, k))).len() == k,
    decreases pieces.len() - from,
{
    lemma_name_index(pieces, from, k);
    let i = name_index(pieces, from, k);
    if is_name(pieces[from]) && k == 0 {
        assert(pieces.subrange(from, i).len() == 0);
    } else {
        if is_name(pieces[from]) {
            lemma_names_before(pieces, from + 1, k - 1);
        } else {
            lemma_names_before(pieces, from + 1, k);
        }
        let first = seq![pieces[from]];
        let rest = pieces.subrange(from + 1, i);
        assert(pieces.subrange(from, i) =~= first + rest);
        lemma_names_concat(first, rest);
        lemma_names_single(pieces[from]);
    }
}

proof fn lemma_names_end_keeps(pieces: Seq<Seq<char>>)
    ensures
        0 <= names_end(pieces) <= pieces.len(),
        names(pieces.take(names_end(pieces))) == names(pieces),
    decreases pieces.len(),
{
    if pieces.len() > 0 && !is_name(pieces.last()) {
        lemma_names_end_keeps(pieces.drop_last());
        assert(pieces.drop_last().take(names_end(pieces)) =~= pieces.take(names_end(pieces)));
    } else {
        assert(pieces.take(names_end(pieces)) =~= pieces);
    }
}

/// From the name number `k` to the last name there are the names behind the
/// first `k`.
proof fn lemma_names_from(pieces: Seq<Seq<char>>, k: int)
    requires
        0 <= k < names(pieces).len(),
    ensures
        ({
            let first = name_index(pieces, 0, k);
            let end = names_end(pieces);
            &&& 0 <= first < end <= pieces.len()
            &&& is_name(pieces[first])
            &&& names(pieces.subrange(first, end)) == names(pieces).skip(k)
        }),
{
    lemma_name_count(pieces);
    lemma_names_before(pieces, 0, k);
    let first = name_index(pieces, 0, k);
    let end = names_end(pieces);
    lemma_names_end(pieces, first);
    lemma_names_end_keeps(pieces);
    let front = pieces.subrange(0, first);
    let back = pieces.subrange(first, end);
    assert(pieces.take(end) =~= front + back);
    lemma_names_concat(front, back);
    assert(names(pieces).skip(k) =~= names(back));
}

/// The components of a path that is seen from another.
pub proof fn lemma_joined_components(base: Seq<char>, path: Seq<char>)
    requires
        base.len() > 0,
        !is_absolute(path),
    ensures
        components(joined(base, path)) == components(base) + names(text::split(path, '/')),
{
    let all = joined(base, path);
    assert(all[0] == base[0]);
    let front = if base.last() == '/' {
        base.drop_last()
    } else {
        base
    };
    assert(all =~= front.push('/') + path);
    text::lemma_split_concat(front, path, '/');
    lemma_names_concat(text::split(front, '/'), text::split(path, '/'));
    if base.last() == '/' {
        let empty = Seq::<char>::empty();
        assert(base =~= front.push('/') + empty);
        text::lemma_split_concat(front, empty, '/');
        text::lemma_first_index_is(empty, '/', 0);
        assert(text::split(empty, '/') =~= seq![empty]);
        lemma_names_concat(text::split(front, '/'), seq![empty]);
        lemma_names_single(empty);
        assert(names(text::split(base, '/')) =~= names(text::split(front, '/')));
    }
    if base.len() == 1 {
        if base[0] != '/' {
            assert(all[1] == '/');
        }
    } else {
        assert(all[1] == base[1]);
    }
    assert(components(all) =~= components(base) + names(text::split(path, '/')));
}

/// A directory seen from itself is the directory.
pub proof fn lemma_joined_here(base: Seq<char>)
    requires
        base.len() > 0,
    ensures
        same_path(joined(base, seq!['.']), base),
        same_path(joined(base, Seq::empty()), base),
{
    let here = seq!['.'];
    let empty = Seq::<char>::empty();
    lemma_joined_components(base, here);
    lemma_joined_components(base, empty);
    text::lemma_first_index_is(here, '/', 1);
    text::lemma_first_index_is(empty, '/', 0);
    assert(text::split(here, '/') =~= seq![here]);
    assert(text::split(empty, '/') =~= seq![empty]);
    lemma_names_single(here);
    lemma_names_single(empty);
    assert(components(base) + Seq::<Seq<char>>::empty() =~= components(base));
}

/// What is left of a path once a directory that it lies in is taken off leads
/// from that directory back to the path.
pub proof fn law_stripped_leads_back(base: Seq<char>, path: Seq<char>)
    requires
        base.len() > 0,
        is_within(base, path),
    ensures
        stripped(base, path) is Some,
        !is_absolute(stripped(base, path)->0),
        same_path(joined(base, stripped(base, path)->0), path),
{
    let a = components(base);
    let b = components(path);
    let n = a.len() as int;
    let rest = stripped(base, path)->0;
    assert(b =~= a + b.skip(n));
    lemma_some_component(base);
    if b.skip(n).len() == 0 {
        lemma_joined_components(base, rest);
        text::lemma_first_index_is(rest, '/', 0);
        assert(text::split(rest, '/') =~= seq![rest]);
        lemma_names_single(rest);
        assert(a + names(text::split(rest, '/')) =~= b);
    } else {
        let pieces = text::split(path, '/');
        let head = head_len(path);
        let k = n - head;
        assert(b.len() == head + names(pieces).len());
        lemma_names_from(pieces, k);
        let first = name_index(pieces, 0, k);
        let end = names_end(pieces);
        let part = pieces.subrange(first, end);
        assert forall|i: int, j: int| 0 <= i < part.len() && 0 <= j < part[i].len() implies
            #[trigger] part[i][j] != '/' by {
            text::lemma_split_pieces(path, '/', first + i, j);
        }
        text::lemma_split_joined(part, '/');
        lemma_starts_with_first(part);
        assert(part[0] == pieces[first]);
        assert(part[0][0] != '/');
        lemma_joined_components(base, rest);
        assert(b.skip(n) =~= names(pieces).skip(k));
        assert(a + names(part) =~= b);
    }
}

/// A path that is not empty has a component.
proof fn lemma_some_component(path: Seq<char>)
    requires
        path.len() > 0,
    ensures
        components(path).len() > 0,
{
    if !is_absolute(path) && !starts_here(path) {
        text::lemma_first_index(path, '/');
        let i = text::first_index(path, '/');
        let pieces = text::split(path, '/');
        let piece = path.subrange(0, i);
        assert(i > 0);
        assert(piece[0] == path[0]);
        if piece == seq!['.'] {
            assert(piece.len() == 1);
            assert(i == 1);
        }
        if i < path.len() {
            assert(pieces[0] == piece);
        } else {
            assert(piece =~= path);
        }
        let first = seq![piece];
        let others = pieces.skip(1);
        assert(pieces =~= first + others);
        lemma_names_concat(first, others);
        lemma_names_single(piece);
    }
}

/// Pieces that are joined begin with the first of them.
proof fn lemma_starts_with_first(pieces: Seq<Seq<char>>)
    requires
        pieces.len() > 0,
        pieces[0].len() > 0,
    ensures
        text::join(pieces, seq!['/']).len() > 0,
        text::join(pieces, seq!['/'])[0] == pieces[0][0],
    decreases pieces.len(),
{
    if pieces.len() > 1 {
        lemma_starts_with_first(pieces.drop_last());
    }
}

/// Taking off the pieces at its end that name nothing leaves the components of a
/// path that starts at the root.
pub proof fn lemma_trimmed_same(path: Seq<char>, end: int)
    requires
        is_absolute(path),
        1 <= end <= path.len(),
    ensures
        1 <= trimmed_end(path, end) <= end,
        same_path(path.subrange(0, trimmed_end(path, end)), path.subrange(0, end)),
    decreases end,
{
    let last = trimmed_end(path, end);
    lemma_trimmed_end(path, end);
    let whole = path.subrange(0, end);
    if 1 < end && !is_name(path.subrange(piece_start(path, end), end)) {
        lemma_piece(path, end);
        let start = piece_start(path, end);
        let off = piece_off(path, end);
        lemma_trimmed_same(path, off);
        let body = path.subrange(1, end);
        text::lemma_last_index(body, '/');
        assert(start == text::last_index(body, '/') + 2);
        let front = path.subrange(0, start - 1);
        let piece = path.subrange(start, end);
        if start > 1 {
            assert(body[start - 2] == path[start - 1]);
        }
        assert(path[start - 1] == '/');
        assert(whole =~= front.push('/') + piece);
        text::lemma_split_concat(front, piece, '/');
        assert forall|j: int| 0 <= j < piece.len() implies piece[j] != '/' by {
            assert(piece[j] == body[start - 1 + j]);
        }
        text::lemma_first_index_is(piece, '/', piece.len() as int);
        assert(text::split(piece, '/') == seq![piece]);
        lemma_names_concat(text::split(front, '/'), seq![piece]);
        lemma_names_single(piece);
        assert(names(text::split(whole, '/')) =~= names(text::split(front, '/')));
        let kept = path.subrange(0, off);
        if start > 1 {
            assert(kept =~= front);
        } else {
            let empty = Seq::<char>::empty();
            assert(kept =~= empty.push('/') + empty);
            assert(front =~= empty);
            text::lemma_split_concat(empty, empty, '/');
            text::lemma_first_index_is(empty, '/', 0);
            assert(text::split(empty, '/') == seq![empty]);
            lemma_names_concat(seq![empty], seq![empty]);
            lemma_names_single(empty);
            assert(names(text::split(kept, '/')) =~= names(text::split(front, '/')));
        }
        assert(is_absolute(kept));
        assert(same_path(kept, whole));
    }
}

/// An empty path has no components.
pub proof fn lemma_no_components(path: Seq<char>)
    requires
        path.len() == 0,
    ensures
        components(path) == Seq::<Seq<char>>::empty(),
{
    text::lemma_first_index_is(path, '/', 0);
    assert(text::split(path, '/') == seq![path]);
    lemma_names_single(path);
    assert(components(path) =~= Seq::<Seq<char>>::empty());
}

/// No path that starts at the root lies in one that does not.
pub proof fn lemma_root_is_not_within(base: Seq<char>, path: Seq<char>)
    requires
        base.len() > 0,
        !is_absolute(base),
        is_absolute(path),
    ensures
        !is_within(base, path),
{
    lemma_some_component(base);
    let a = components(base);
    let b = components(path);
    assert(b[0] == seq!['/']);
    if is_within(base, path) {
        assert(b.take(a.len() as int)[0] == a[0]);
        if starts_here(base) {
            assert(a[0] == seq!['.']);
            assert(seq!['.'][0] != seq!['/'][0]);
        } else {
            let pieces = text::split(base, '/');
            assert(a =~= names(pieces));
            lemma_names_are_pieces(pieces, 0);
            let k = choose|k: int| 0 <= k < pieces.len() && pieces[k] == names(pieces)[0];
            assert(pieces[k][0] == '/');
            text::lemma_split_pieces(base, '/', k, 0);
        }
    }
}

proof fn lemma_names_are_pieces(pieces: Seq<Seq<char>>, i: int)
    requires
        0 <= i < names(pieces).len(),
    ensures
        exists|k: int| 0 <= k < pieces.len() && pieces[k] == names(pieces)[i],
    decreases pieces.len(),
{
    let rest = pieces.drop_last();
    if i < names(rest).len() {
        lemma_names_are_pieces(rest, i);
        let k = choose|k: int| 0 <= k < rest.len() && rest[k] == names(rest)[i];
        assert(pieces[k] == names(pieces)[i]);
    } else {
        assert(pieces[pieces.len() - 1] == names(pieces)[i]);
    }
}

} // verus!
