//! Text operations with exact contracts over sequences of characters.
use vstd::prelude::*;
use vstd::string::*;

verus! {

/// `String::push` appends one character to the end of the text.
pub assume_specification[ std::string::String::push ](string: &mut String, ch: char)
    ensures
        final(string)@ == old(string)@.push(ch),
;

/// `s` begins with `p`.
pub open spec fn starts_with(s: Seq<char>, p: Seq<char>) -> bool {
    p.len() <= s.len() && s.subrange(0, p.len() as int) == p
}

/// `s` ends with `p`.
pub open spec fn ends_with(s: Seq<char>, p: Seq<char>) -> bool {
    p.len() <= s.len() && s.subrange(s.len() - p.len(), s.len() as int) == p
}

/// What is left of `s` behind its first `n` characters.
pub open spec fn tail(s: Seq<char>, n: int) -> Seq<char> {
    s.subrange(n, s.len() as int)
}

/// What is left of `s` once the prefix `p` is taken off, if it begins with `p`.
pub open spec fn stripped_prefix(s: Seq<char>, p: Seq<char>) -> Option<Seq<char>> {
    if starts_with(s, p) {
        Some(tail(s, p.len() as int))
    } else {
        None
    }
}

/// `p` stands in `s` at position `i`.
pub open spec fn stands_at(s: Seq<char>, p: Seq<char>, i: int) -> bool {
    0 <= i <= s.len() - p.len() && s.subrange(i, i + p.len()) == p
}

/// `p` stands somewhere in `s`.
pub open spec fn contains_text(s: Seq<char>, p: Seq<char>) -> bool {
    exists|i: int| stands_at(s, p, i)
}

/// The position of the first `c` in `s`, or the length of `s` if there is none.
pub open spec fn first_index(s: Seq<char>, c: char) -> int
    decreases s.len(),
{
    if s.len() == 0 {
        0
    } else if s[0] == c {
        0
    } else {
        1 + first_index(tail(s, 1), c)
    }
}

/// The position of the last `c` in `s`, or -1 if there is none.
pub open spec fn last_index(s: Seq<char>, c: char) -> int
    decreases s.len(),
{
    if s.len() == 0 {
        -1
    } else if s.last() == c {
        s.len() - 1
    } else {
        last_index(s.drop_last(), c)
    }
}

pub proof fn lemma_first_index(s: Seq<char>, c: char)
    ensures
        0 <= first_index(s, c) <= s.len(),
        first_index(s, c) < s.len() ==> s[first_index(s, c)] == c,
        forall|j: int| 0 <= j < first_index(s, c) ==> s[j] != c,
    decreases s.len(),
{
    if s.len() > 0 && s[0] != c {
        let rest = tail(s, 1);
        lemma_first_index(rest, c);
        assert forall|j: int| 0 <= j < first_index(s, c) implies s[j] != c by {
            if j > 0 {
                assert(s[j] == rest[j - 1]);
            }
        }
    }
}

/// The position found is the only one with these properties.
pub proof fn lemma_first_index_is(s: Seq<char>, c: char, i: int)
    requires
        0 <= i <= s.len(),
        i < s.len() ==> s[i] == c,
        forall|j: int| 0 <= j < i ==> s[j] != c,
    ensures
        first_index(s, c) == i,
{
    lemma_first_index(s, c);
}

pub proof fn lemma_last_index(s: Seq<char>, c: char)
    ensures
        -1 <= last_index(s, c) < s.len(),
        last_index(s, c) >= 0 ==> s[last_index(s, c)] == c,
        forall|j: int| last_index(s, c) < j < s.len() ==> s[j] != c,
    decreases s.len(),
{
    if s.len() > 0 && s.last() != c {
        let rest = s.drop_last();
        lemma_last_index(rest, c);
        assert forall|j: int| last_index(s, c) < j < s.len() implies s[j] != c by {
            if j < s.len() - 1 {
                assert(s[j] == rest[j]);
            }
        }
    }
}

pub proof fn lemma_last_index_is(s: Seq<char>, c: char, i: int)
    requires
        -1 <= i < s.len(),
        i >= 0 ==> s[i] == c,
        forall|j: int| i < j < s.len() ==> s[j] != c,
    ensures
        last_index(s, c) == i,
{
    lemma_last_index(s, c);
}

/// The pieces of `s` between the occurrences of `c`.
pub open spec fn split(s: Seq<char>, c: char) -> Seq<Seq<char>>
    decreases s.len(),
    via split_decreases
{
    let i = first_index(s, c);
    if 0 <= i < s.len() {
        seq![s.subrange(0, i)] + split(tail(s, i + 1), c)
    } else {
        seq![s]
    }
}

#[via_fn]
proof fn split_decreases(s: Seq<char>, c: char) {
    lemma_first_index(s, c);
}

/// What is split at a character that two texts have between them is what each of
/// them is split into.
pub proof fn lemma_split_concat(a: Seq<char>, b: Seq<char>, c: char)
    ensures
        split(a.push(c) + b, c) == split(a, c) + split(b, c),
    decreases a.len(),
{
    let s = a.push(c) + b;
    let i = first_index(a, c);
    lemma_first_index(a, c);
    assert forall|j: int| 0 <= j < i implies s[j] != c by {
        assert(s[j] == a[j]);
    }
    assert(s[i] == c);
    lemma_first_index_is(s, c, i);
    assert(s.subrange(0, i) =~= a.subrange(0, i));
    if i < a.len() {
        assert(tail(s, i + 1) =~= tail(a, i + 1).push(c) + b);
        lemma_split_concat(tail(a, i + 1), b, c);
        assert(split(s, c) =~= seq![a.subrange(0, i)] + (split(tail(a, i + 1), c) + split(b, c)));
    } else {
        assert(tail(s, i + 1) =~= b);
        assert(a.subrange(0, i) =~= a);
    }
    assert(split(s, c) =~= split(a, c) + split(b, c));
}

/// No piece holds the character that a text was split at.
pub proof fn lemma_split_pieces(s: Seq<char>, c: char, k: int, j: int)
    requires
        0 <= k < split(s, c).len(),
        0 <= j < split(s, c)[k].len(),
    ensures
        split(s, c)[k][j] != c,
    decreases s.len(),
{
    lemma_first_index(s, c);
    let i = first_index(s, c);
    if i < s.len() && k > 0 {
        lemma_split_pieces(tail(s, i + 1), c, k - 1, j);
    }
}

/// Pieces that are joined by a character that none of them holds are found again
/// when the text is split there.
pub proof fn lemma_split_joined(pieces: Seq<Seq<char>>, c: char)
    requires
        pieces.len() > 0,
        forall|k: int, j: int|
            0 <= k < pieces.len() && 0 <= j < pieces[k].len() ==> #[trigger] pieces[k][j] != c,
    ensures
        split(join(pieces, seq![c]), c) == pieces,
    decreases pieces.len(),
{
    let last = pieces.last();
    assert forall|j: int| 0 <= j < last.len() implies last[j] != c by {
        assert(pieces[pieces.len() - 1][j] != c);
    }
    lemma_first_index_is(last, c, last.len() as int);
    assert(split(last, c) =~= seq![last]);
    if pieces.len() == 1 {
        assert(pieces =~= seq![last]);
    } else {
        let rest = pieces.drop_last();
        assert forall|k: int, j: int| 0 <= k < rest.len() && 0 <= j < rest[k].len() implies
            #[trigger] rest[k][j] != c by {
            assert(pieces[k][j] != c);
        }
        lemma_split_joined(rest, c);
        let front = join(rest, seq![c]);
        assert(join(pieces, seq![c]) =~= front.push(c) + last);
        lemma_split_concat(front, last, c);
        assert(rest + seq![last] =~= pieces);
    }
}

/// `s` without the characters `c` at its end.
pub open spec fn trim_end_char(s: Seq<char>, c: char) -> Seq<char>
    decreases s.len(),
{
    if s.len() > 0 && s.last() == c {
        trim_end_char(s.drop_last(), c)
    } else {
        s
    }
}

/// `s` without the characters `c` at its start.
pub open spec fn trim_start_char(s: Seq<char>, c: char) -> Seq<char>
    decreases s.len(),
{
    if s.len() > 0 && s[0] == c {
        trim_start_char(tail(s, 1), c)
    } else {
        s
    }
}

/// `s` without the repetitions of the suffix `p` at its end.
pub open spec fn trim_end_text(s: Seq<char>, p: Seq<char>) -> Seq<char>
    decreases s.len(),
{
    if p.len() > 0 && ends_with(s, p) {
        trim_end_text(s.subrange(0, s.len() - p.len()), p)
    } else {
        s
    }
}

/// `s` without the repetitions of the prefix `p` at its start.
pub open spec fn trim_start_text(s: Seq<char>, p: Seq<char>) -> Seq<char>
    decreases s.len(),
{
    if p.len() > 0 && starts_with(s, p) {
        trim_start_text(tail(s, p.len() as int), p)
    } else {
        s
    }
}

/// `s` with each `c` replaced by `by`.
pub open spec fn replace_char(s: Seq<char>, c: char, by: Seq<char>) -> Seq<char>
    decreases s.len(),
{
    if s.len() == 0 {
        s
    } else {
        replace_char(s.drop_last(), c, by) + (if s.last() == c {
            by
        } else {
            seq![s.last()]
        })
    }
}

/// `s` with each `p` replaced by `by`, from left to right.
pub open spec fn replace_text(s: Seq<char>, p: Seq<char>, by: Seq<char>) -> Seq<char>
    decreases s.len(),
{
    if s.len() == 0 || p.len() == 0 {
        s
    } else if starts_with(s, p) {
        by + replace_text(tail(s, p.len() as int), p, by)
    } else {
        seq![s[0]] + replace_text(tail(s, 1), p, by)
    }
}

/// The pieces one after the other with `separator` between them.
pub open spec fn join(pieces: Seq<Seq<char>>, separator: Seq<char>) -> Seq<char>
    decreases pieces.len(),
{
    if pieces.len() == 0 {
        Seq::empty()
    } else if pieces.len() == 1 {
        pieces[0]
    } else {
        join(pieces.drop_last(), separator) + separator + pieces.last()
    }
}

/// `n` times the character `c`.
pub open spec fn repeat(c: char, n: int) -> Seq<char> {
    Seq::new(
        if n > 0 {
            n as nat
        } else {
            0
        },
        |i: int| c,
    )
}

/// `a` stands before `b` in the order of their code points.
pub open spec fn text_less(a: Seq<char>, b: Seq<char>) -> bool
    decreases b.len(),
{
    if b.len() == 0 {
        false
    } else if a.len() == 0 {
        true
    } else if a[0] != b[0] {
        a[0] < b[0]
    } else {
        text_less(tail(a, 1), tail(b, 1))
    }
}

/// The decimal digit for `d`, which is below ten.
pub open spec fn digit(d: nat) -> char {
    (48 + d) as char
}

/// The decimal numeral of `n`.
pub open spec fn decimal(n: nat) -> Seq<char>
    decreases n,
{
    if n < 10 {
        seq![digit(n)]
    } else {
        decimal(n / 10).push(digit(n % 10))
    }
}

/// How many bytes the UTF-8 form of `c` takes.
pub open spec fn char_width(c: char) -> nat {
    let code = c as u32;
    if code < 0x80 {
        1
    } else if code < 0x800 {
        2
    } else if code < 0x10000 {
        3
    } else {
        4
    }
}

/// How many bytes the UTF-8 form of `s` takes.
pub open spec fn byte_len(s: Seq<char>) -> nat
    decreases s.len(),
{
    if s.len() == 0 {
        0
    } else {
        byte_len(s.drop_last()) + char_width(s.last())
    }
}

/// The characters of `s` in a vector.
pub fn chars_of(s: &str) -> (chars: Vec<char>)
    ensures
        chars@ == s@,
{
    let mut chars: Vec<char> = Vec::new();
    for c in it: s.chars()
        invariant
            it.seq() == s@,
            chars@ == s@.take(it.index() as int),
    {
        chars.push(c);
        assert(chars@ =~= s@.take(it.index() + 1));
    }
    assert(s@.take(s@.len() as int) =~= s@);
    chars
}

/// The text that the characters from `from` up to `to` make.
pub fn text_of(chars: &Vec<char>, from: usize, to: usize) -> (s: String)
    requires
        from <= to <= chars@.len(),
    ensures
        s@ == chars@.subrange(from as int, to as int),
{
    let mut s = String::new();
    let mut i: usize = from;
    while i < to
        invariant
            from <= i <= to <= chars@.len(),
            s@ == chars@.subrange(from as int, i as int),
        decreases to - i,
    {
        s.push(chars[i]);
        i = i + 1;
        assert(s@ =~= chars@.subrange(from as int, i as int));
    }
    s
}


/// Whether two texts are the same.
pub fn same_text(a: &str, b: &str) -> (same: bool)
    ensures
        same == (a@ == b@),
{
    let left = chars_of(a);
    let right = chars_of(b);
    if left.len() != right.len() {
        return false;
    }
    let mut i: usize = 0;
    while i < left.len()
        invariant
            left@ == a@,
            right@ == b@,
            left@.len() == right@.len(),
            i <= left@.len(),
            forall|j: int| 0 <= j < i ==> left@[j] == right@[j],
        decreases left@.len() - i,
    {
        if left[i] != right[i] {
            return false;
        }
        i = i + 1;
    }
    assert(a@ =~= b@);
    true
}

/// Whether `p` stands in `s` at `i`.
fn matches_at(s: &Vec<char>, p: &Vec<char>, i: usize) -> (matches: bool)
    requires
        i + p@.len() <= s@.len(),
    ensures
        matches == stands_at(s@, p@, i as int),
{
    let n: usize = s.len();
    let mut j: usize = 0;
    while j < p.len()
        invariant
            n == s@.len(),
            i + p@.len() <= s@.len(),
            j <= p@.len(),
            forall|k: int| 0 <= k < j ==> s@[i + k] == p@[k],
        decreases p@.len() - j,
    {
        if s[i + j] != p[j] {
            assert(s@.subrange(i as int, i + p@.len())[j as int] != p@[j as int]);
            return false;
        }
        j = j + 1;
    }
    assert(s@.subrange(i as int, i + p@.len()) =~= p@);
    true
}

/// Whether `p` stands in `s` at `i`.
pub fn part_stands_at(s: &Vec<char>, p: &Vec<char>, i: usize) -> (yes: bool)
    requires
        i <= s@.len(),
    ensures
        yes == stands_at(s@, p@, i as int),
{
    p.len() <= s.len() - i && matches_at(s, p, i)
}

/// Whether `s` begins with `p`.
pub fn has_prefix(s: &str, p: &str) -> (yes: bool)
    ensures
        yes == starts_with(s@, p@),
{
    let text = chars_of(s);
    let prefix = chars_of(p);
    if prefix.len() > text.len() {
        return false;
    }
    matches_at(&text, &prefix, 0)
}

/// Whether `s` ends with `p`.
pub fn has_suffix(s: &str, p: &str) -> (yes: bool)
    ensures
        yes == ends_with(s@, p@),
{
    let text = chars_of(s);
    let suffix = chars_of(p);
    if suffix.len() > text.len() {
        return false;
    }
    matches_at(&text, &suffix, text.len() - suffix.len())
}

/// A copy of `s`.
pub fn copy(s: &str) -> (copied: String)
    ensures
        copied@ == s@,
{
    String::from_str(s)
}

/// Whether `c` stands in `s`.
pub fn has_char(s: &str, c: char) -> (yes: bool)
    ensures
        yes == s@.contains(c),
{
    proof {
        lemma_first_index(s@, c);
    }
    match find_char(s, c) {
        Some(i) => {
            assert(s@[i as int] == c);
            true
        },
        None => false,
    }
}

/// Whether `s` begins with the character `c`.
pub fn has_first_char(s: &str, c: char) -> (yes: bool)
    ensures
        yes == (s@.len() > 0 && s@[0] == c),
{
    s.unicode_len() > 0 && s.get_char(0) == c
}

/// The position of the first `p` in `s` at or behind `from`.
pub fn find_text_from(s: &Vec<char>, p: &Vec<char>, from: usize) -> (found: Option<usize>)
    requires
        from <= s@.len(),
    ensures
        match found {
            Some(i) => from <= i && stands_at(s@, p@, i as int) && (forall|j: int|
                from <= j < i ==> !stands_at(s@, p@, j)),
            None => forall|j: int| from <= j ==> !stands_at(s@, p@, j),
        },
{
    let mut i: usize = from;
    while i <= s.len() && p.len() <= s.len() - i
        invariant
            from <= i <= s@.len() + 1,
            forall|j: int| from <= j < i ==> !stands_at(s@, p@, j),
        decreases s@.len() + 1 - i,
    {
        if matches_at(s, p, i) {
            return Some(i);
        }
        if i == s.len() {
            return None;
        }
        i = i + 1;
    }
    None
}

/// Whether `p` stands somewhere in `s`.
pub fn has_text(s: &str, p: &str) -> (yes: bool)
    ensures
        yes == contains_text(s@, p@),
{
    let text = chars_of(s);
    let part = chars_of(p);
    match find_text_from(&text, &part, 0) {
        Some(i) => {
            assert(stands_at(s@, p@, i as int));
            true
        },
        None => false,
    }
}

/// `s` without the prefix `p`, if it has it.
pub fn strip_prefix<'a>(s: &'a str, p: &str) -> (rest: Option<&'a str>)
    ensures
        rest.deep_view() == stripped_prefix(s@, p@),
{
    if has_prefix(s, p) {
        Some(s.substring_char(p.unicode_len(), s.unicode_len()))
    } else {
        None
    }
}

/// The position of the first `c` in `s`.
pub fn find_char(s: &str, c: char) -> (found: Option<usize>)
    ensures
        match found {
            Some(i) => i < s@.len() && i == first_index(s@, c),
            None => first_index(s@, c) == s@.len(),
        },
{
    let chars = chars_of(s);
    let mut i: usize = 0;
    while i < chars.len()
        invariant
            chars@ == s@,
            i <= chars@.len(),
            forall|j: int| 0 <= j < i ==> s@[j] != c,
        decreases chars@.len() - i,
    {
        if chars[i] == c {
            proof {
                lemma_first_index_is(s@, c, i as int);
            }
            return Some(i);
        }
        i = i + 1;
    }
    proof {
        lemma_first_index_is(s@, c, i as int);
    }
    None
}

/// The position of the last `c` in `s`.
pub fn rfind_char(s: &str, c: char) -> (found: Option<usize>)
    ensures
        match found {
            Some(i) => i < s@.len() && i == last_index(s@, c),
            None => last_index(s@, c) == -1,
        },
{
    let chars = chars_of(s);
    let mut i: usize = chars.len();
    while i > 0
        invariant
            chars@ == s@,
            i <= chars@.len(),
            forall|j: int| i <= j < s@.len() ==> s@[j] != c,
        decreases i,
    {
        i = i - 1;
        if chars[i] == c {
            proof {
                lemma_last_index_is(s@, c, i as int);
            }
            return Some(i);
        }
    }
    proof {
        lemma_last_index_is(s@, c, -1);
    }
    None
}

/// What stands before and behind the first `c` of `s`.
pub open spec fn split_once(s: Seq<char>, c: char) -> Option<(Seq<char>, Seq<char>)> {
    let i = first_index(s, c);
    if 0 <= i < s.len() {
        Some((s.subrange(0, i), tail(s, i + 1)))
    } else {
        None
    }
}

/// What stands before and behind the last `c` of `s`.
pub open spec fn rsplit_once(s: Seq<char>, c: char) -> Option<(Seq<char>, Seq<char>)> {
    let i = last_index(s, c);
    if 0 <= i < s.len() {
        Some((s.subrange(0, i), tail(s, i + 1)))
    } else {
        None
    }
}

/// Splits `s` at its first `c`.
pub fn split_at_first<'a>(s: &'a str, c: char) -> (parts: Option<(&'a str, &'a str)>)
    ensures
        parts.deep_view() == split_once(s@, c),
{
    let n: usize = s.unicode_len();
    match find_char(s, c) {
        Some(i) => Some((s.substring_char(0, i), s.substring_char(i + 1, n))),
        None => None,
    }
}

/// Splits `s` at its last `c`.
pub fn split_at_last<'a>(s: &'a str, c: char) -> (parts: Option<(&'a str, &'a str)>)
    ensures
        parts.deep_view() == rsplit_once(s@, c),
{
    let n: usize = s.unicode_len();
    match rfind_char(s, c) {
        Some(i) => Some((s.substring_char(0, i), s.substring_char(i + 1, n))),
        None => None,
    }
}

/// The pieces of `s` between the occurrences of `c`.
pub fn split_text(s: &str, c: char) -> (pieces: Vec<String>)
    ensures
        pieces.deep_view() == split(s@, c),
{
    let chars = chars_of(s);
    let mut pieces: Vec<String> = Vec::new();
    let mut start: usize = 0;
    let mut i: usize = 0;
    assert(tail(s@, 0) =~= s@);
    assert(pieces.deep_view() + split(tail(s@, 0), c) =~= split(s@, c));
    while i < chars.len()
        invariant
            chars@ == s@,
            start <= i <= chars@.len(),
            forall|j: int| start <= j < i ==> s@[j] != c,
            pieces.deep_view() + split(tail(s@, start as int), c) == split(s@, c),
        decreases chars@.len() - i,
    {
        if chars[i] == c {
            let ghost before = pieces.deep_view();
            let ghost rest = tail(s@, start as int);
            pieces.push(text_of(&chars, start, i));
            proof {
                lemma_first_index_is(rest, c, i - start);
                assert(rest.subrange(0, i - start) =~= s@.subrange(start as int, i as int));
                assert(tail(rest, i - start + 1) =~= tail(s@, i + 1));
                assert(pieces.deep_view() =~= before.push(s@.subrange(start as int, i as int)));
                assert(pieces.deep_view() + split(tail(s@, i + 1), c) =~= before + split(rest, c));
            }
            start = i + 1;
        }
        i = i + 1;
    }
    let ghost before = pieces.deep_view();
    let ghost rest = tail(s@, start as int);
    pieces.push(text_of(&chars, start, i));
    proof {
        lemma_first_index_is(rest, c, rest.len() as int);
        assert(pieces.deep_view() =~= before.push(rest));
        assert(pieces.deep_view() =~= before + split(rest, c));
    }
    pieces
}

/// `s` without the characters `c` at its end.
pub fn trim_end<'a>(s: &'a str, c: char) -> (trimmed: &'a str)
    ensures
        trimmed@ == trim_end_char(s@, c),
{
    let chars = chars_of(s);
    let mut end: usize = chars.len();
    assert(s@.subrange(0, end as int) =~= s@);
    while end > 0 && chars[end - 1] == c
        invariant
            chars@ == s@,
            end <= chars@.len(),
            trim_end_char(s@.subrange(0, end as int), c) == trim_end_char(s@, c),
        decreases end,
    {
        assert(s@.subrange(0, end as int).drop_last() =~= s@.subrange(0, end - 1));
        end = end - 1;
    }
    s.substring_char(0, end)
}

/// `s` without the characters `c` at its start.
pub fn trim_start<'a>(s: &'a str, c: char) -> (trimmed: &'a str)
    ensures
        trimmed@ == trim_start_char(s@, c),
{
    let chars = chars_of(s);
    let mut start: usize = 0;
    assert(tail(s@, 0) =~= s@);
    while start < chars.len() && chars[start] == c
        invariant
            chars@ == s@,
            start <= chars@.len(),
            trim_start_char(tail(s@, start as int), c) == trim_start_char(s@, c),
        decreases chars@.len() - start,
    {
        assert(tail(tail(s@, start as int), 1) =~= tail(s@, start + 1));
        start = start + 1;
    }
    s.substring_char(start, chars.len())
}

/// `s` without the repetitions of the suffix `p` at its end.
pub fn trim_end_matches<'a>(s: &'a str, p: &str) -> (trimmed: &'a str)
    ensures
        trimmed@ == trim_end_text(s@, p@),
{
    let chars = chars_of(s);
    let suffix = chars_of(p);
    if suffix.len() == 0 {
        return s;
    }
    let mut end: usize = chars.len();
    assert(s@.subrange(0, end as int) =~= s@);
    while suffix.len() <= end && matches_at(&chars, &suffix, end - suffix.len())
        invariant
            chars@ == s@,
            suffix@ == p@,
            p@.len() > 0,
            end <= chars@.len(),
            trim_end_text(s@.subrange(0, end as int), p@) == trim_end_text(s@, p@),
        decreases end,
    {
        let ghost part = s@.subrange(0, end as int);
        proof {
            assert(part.subrange(end - p@.len(), end as int) =~= s@.subrange(
                end - p@.len(),
                end as int,
            ));
            assert(part.subrange(0, end - p@.len()) =~= s@.subrange(0, end - p@.len()));
        }
        end = end - suffix.len();
    }
    proof {
        let part = s@.subrange(0, end as int);
        if p@.len() <= end {
            assert(part.subrange(end - p@.len(), end as int) =~= s@.subrange(
                end - p@.len(),
                end as int,
            ));
        }
    }
    s.substring_char(0, end)
}

/// `s` without the repetitions of the prefix `p` at its start.
pub fn trim_start_matches<'a>(s: &'a str, p: &str) -> (trimmed: &'a str)
    ensures
        trimmed@ == trim_start_text(s@, p@),
{
    let chars = chars_of(s);
    let prefix = chars_of(p);
    if prefix.len() == 0 {
        return s;
    }
    let mut start: usize = 0;
    assert(tail(s@, 0) =~= s@);
    while prefix.len() <= chars.len() - start && matches_at(&chars, &prefix, start)
        invariant
            chars@ == s@,
            prefix@ == p@,
            p@.len() > 0,
            start <= chars@.len(),
            trim_start_text(tail(s@, start as int), p@) == trim_start_text(s@, p@),
        decreases chars@.len() - start,
    {
        let ghost rest = tail(s@, start as int);
        proof {
            assert(rest.subrange(0, p@.len() as int) =~= s@.subrange(
                start as int,
                start + p@.len(),
            ));
            assert(tail(rest, p@.len() as int) =~= tail(s@, start + p@.len()));
        }
        start = start + prefix.len();
    }
    proof {
        let rest = tail(s@, start as int);
        if p@.len() <= rest.len() {
            assert(rest.subrange(0, p@.len() as int) =~= s@.subrange(
                start as int,
                start + p@.len(),
            ));
        }
    }
    s.substring_char(start, chars.len())
}

/// `s` with each `c` replaced by `by`.
pub fn replace(s: &str, c: char, by: &str) -> (replaced: String)
    ensures
        replaced@ == replace_char(s@, c, by@),
{
    let chars = chars_of(s);
    let mut replaced = String::new();
    let mut i: usize = 0;
    while i < chars.len()
        invariant
            chars@ == s@,
            i <= chars@.len(),
            replaced@ == replace_char(s@.subrange(0, i as int), c, by@),
        decreases chars@.len() - i,
    {
        let ghost done = s@.subrange(0, i as int);
        let ghost next = s@.subrange(0, i + 1);
        assert(next.drop_last() =~= done);
        if chars[i] == c {
            replaced.append(by);
        } else {
            replaced.push(chars[i]);
            assert(replaced@ =~= replace_char(done, c, by@) + seq![s@[i as int]]);
        }
        i = i + 1;
    }
    assert(s@.subrange(0, i as int) =~= s@);
    replaced
}

/// `s` with each `p` replaced by `by`, from left to right.
pub fn replace_all(s: &str, p: &str, by: &str) -> (replaced: String)
    requires
        p@.len() > 0,
    ensures
        replaced@ == replace_text(s@, p@, by@),
{
    let chars = chars_of(s);
    let part = chars_of(p);
    let n: usize = chars.len();
    let mut replaced = String::new();
    let mut i: usize = 0;
    assert(tail(s@, 0) =~= s@);
    assert(replaced@ + replace_text(tail(s@, 0), p@, by@) =~= replace_text(s@, p@, by@));
    while i < n
        invariant
            chars@ == s@,
            part@ == p@,
            p@.len() > 0,
            n == chars@.len(),
            i <= n,
            replaced@ + replace_text(tail(s@, i as int), p@, by@) == replace_text(s@, p@, by@),
        decreases n - i,
    {
        let ghost rest = tail(s@, i as int);
        let ghost before = replaced@;
        if part.len() <= n - i && matches_at(&chars, &part, i) {
            proof {
                assert(rest.subrange(0, p@.len() as int) =~= s@.subrange(
                    i as int,
                    i + p@.len(),
                ));
                assert(tail(rest, p@.len() as int) =~= tail(s@, i + p@.len()));
            }
            replaced.append(by);
            i = i + part.len();
            assert(replaced@ + replace_text(tail(s@, i as int), p@, by@) =~= before + (by@
                + replace_text(tail(s@, i as int), p@, by@)));
        } else {
            proof {
                if p@.len() <= rest.len() {
                    assert(rest.subrange(0, p@.len() as int) =~= s@.subrange(
                        i as int,
                        i + p@.len(),
                    ));
                }
                assert(tail(rest, 1) =~= tail(s@, i + 1));
                assert(rest[0] == s@[i as int]);
            }
            replaced.push(chars[i]);
            i = i + 1;
            assert(replaced@ + replace_text(tail(s@, i as int), p@, by@) =~= before + (seq![
                rest[0],
            ] + replace_text(tail(s@, i as int), p@, by@)));
        }
    }
    assert(tail(s@, i as int) =~= Seq::<char>::empty());
    assert(replaced@ + Seq::<char>::empty() =~= replaced@);
    replaced
}

/// The pieces one after the other with `separator` between them.
pub fn join_texts(pieces: &Vec<String>, separator: &str) -> (joined: String)
    ensures
        joined@ == join(pieces.deep_view(), separator@),
{
    let mut joined = String::new();
    let mut i: usize = 0;
    while i < pieces.len()
        invariant
            i <= pieces@.len(),
            joined@ == join(pieces.deep_view().take(i as int), separator@),
        decreases pieces@.len() - i,
    {
        let ghost all = pieces.deep_view();
        assert(all.take(i + 1).drop_last() =~= all.take(i as int));
        if i > 0 {
            joined.append(separator);
        }
        joined.append(pieces[i].as_str());
        proof {
            assert(all.take(i + 1).last() == pieces@[i as int]@);
            if i == 0 {
                assert(joined@ =~= pieces@[i as int]@);
            }
        }
        i = i + 1;
    }
    assert(pieces.deep_view().take(i as int) =~= pieces.deep_view());
    joined
}

/// The character `c`, `n` times.
pub fn repeat_char(c: char, n: usize) -> (s: String)
    ensures
        s@ == repeat(c, n as int),
{
    let mut s = String::new();
    let mut i: usize = 0;
    while i < n
        invariant
            i <= n,
            s@ == repeat(c, i as int),
        decreases n - i,
    {
        s.push(c);
        i = i + 1;
        assert(s@ =~= repeat(c, i as int));
    }
    s
}

/// Whether `a` stands before `b` in the order of their code points.
pub fn is_less(a: &str, b: &str) -> (less: bool)
    ensures
        less == text_less(a@, b@),
{
    let left = chars_of(a);
    let right = chars_of(b);
    let mut i: usize = 0;
    assert(tail(a@, 0) =~= a@);
    assert(tail(b@, 0) =~= b@);
    while i < left.len() && i < right.len()
        invariant
            left@ == a@,
            right@ == b@,
            i <= left@.len(),
            i <= right@.len(),
            text_less(a@, b@) == text_less(tail(a@, i as int), tail(b@, i as int)),
        decreases left@.len() - i,
    {
        if left[i] != right[i] {
            return left[i] < right[i];
        }
        proof {
            assert(tail(tail(a@, i as int), 1) =~= tail(a@, i + 1));
            assert(tail(tail(b@, i as int), 1) =~= tail(b@, i + 1));
        }
        i = i + 1;
    }
    i < right.len()
}

/// The order of code points is total and free of cycles.
pub proof fn lemma_text_less_order(a: Seq<char>, b: Seq<char>, c: Seq<char>)
    ensures
        !text_less(a, a),
        text_less(a, b) ==> !text_less(b, a),
        !text_less(a, b) && !text_less(b, a) ==> a == b,
        text_less(a, b) && text_less(b, c) ==> text_less(a, c),
    decreases a.len() + b.len() + c.len(),
{
    if a.len() > 0 && b.len() > 0 {
        lemma_text_less_order(tail(a, 1), tail(b, 1), if c.len() > 0 {
            tail(c, 1)
        } else {
            c
        });
        if a[0] == b[0] && tail(a, 1) == tail(b, 1) {
            assert(a =~= seq![a[0]] + tail(a, 1));
            assert(b =~= seq![b[0]] + tail(b, 1));
        }
    } else if a.len() > 0 {
        lemma_text_less_order(tail(a, 1), b, c);
    } else {
        if b.len() == 0 {
            assert(a =~= b);
        }
    }
}

/// The decimal numeral of `n`.
pub fn decimal_text(n: u128) -> (s: String)
    ensures
        s@ == decimal(n as nat),
    decreases n,
{
    let d: u8 = (n % 10) as u8;
    let c: char = (48u8 + d) as char;
    if n < 10 {
        let mut s = String::new();
        s.push(c);
        assert(s@ =~= seq![digit(n as nat)]);
        s
    } else {
        let mut s = decimal_text(n / 10);
        s.push(c);
        s
    }
}

/// How many bytes the UTF-8 form of `s` takes.
pub fn utf8_len(s: &str) -> (n: u128)
    ensures
        n == byte_len(s@),
{
    let chars = chars_of(s);
    let mut n: u128 = 0;
    let mut i: usize = 0;
    while i < chars.len()
        invariant
            chars@ == s@,
            i <= chars@.len(),
            n == byte_len(s@.subrange(0, i as int)),
            n <= 4 * i,
        decreases chars@.len() - i,
    {
        let code: u32 = chars[i] as u32;
        let width: u128 = if code < 0x80 {
            1
        } else if code < 0x800 {
            2
        } else if code < 0x10000 {
            3
        } else {
            4
        };
        assert(s@.subrange(0, i + 1).drop_last() =~= s@.subrange(0, i as int));
        n = n + width;
        i = i + 1;
    }
    assert(s@.subrange(0, i as int) =~= s@);
    n
}

/// A character with the property `White_Space`.
pub open spec fn is_white(c: char) -> bool {
    let n = c as int;
    9 <= n <= 13 || n == 32 || n == 0x85 || n == 0xa0 || n == 0x1680 || 0x2000 <= n <= 0x200a || n
        == 0x2028 || n == 0x2029 || n == 0x202f || n == 0x205f || n == 0x3000
}

fn is_white_char(c: char) -> (yes: bool)
    ensures
        yes == is_white(c),
{
    let n: u32 = c as u32;
    (9 <= n && n <= 13) || n == 32 || n == 0x85 || n == 0xa0 || n == 0x1680 || (0x2000 <= n && n
        <= 0x200a) || n == 0x2028 || n == 0x2029 || n == 0x202f || n == 0x205f || n == 0x3000
}

/// `s` without white space at its end.
pub open spec fn trimmed_right(s: Seq<char>) -> Seq<char>
    decreases s.len(),
{
    if s.len() > 0 && is_white(s.last()) {
        trimmed_right(s.drop_last())
    } else {
        s
    }
}

/// `s` without white space at its start and end.
pub open spec fn trimmed(s: Seq<char>) -> Seq<char>
    decreases s.len(),
{
    if s.len() > 0 && is_white(s[0]) {
        trimmed(tail(s, 1))
    } else {
        trimmed_right(s)
    }
}

/// `s` without white space at its start and end.
pub fn trim_blanks<'a>(s: &'a str) -> (rest: &'a str)
    ensures
        rest@ == trimmed(s@),
{
    let n: usize = s.unicode_len();
    let mut start: usize = 0;
    assert(tail(s@, 0) =~= s@);
    while start < n && is_white_char(s.get_char(start))
        invariant
            n == s@.len(),
            start <= n,
            trimmed(tail(s@, start as int)) == trimmed(s@),
        decreases n - start,
    {
        assert(tail(tail(s@, start as int), 1) =~= tail(s@, start + 1));
        start = start + 1;
    }
    let ghost rest = tail(s@, start as int);
    assert(trimmed(rest) == trimmed_right(rest));
    let mut end: usize = n;
    assert(s@.subrange(start as int, n as int) =~= rest);
    while end > start && is_white_char(s.get_char(end - 1))
        invariant
            n == s@.len(),
            start <= end <= n,
            trimmed_right(s@.subrange(start as int, end as int)) == trimmed(s@),
        decreases end - start,
    {
        assert(s@.subrange(start as int, end as int).drop_last() =~= s@.subrange(
            start as int,
            end - 1,
        ));
        end = end - 1;
    }
    s.substring_char(start, end)
}

} // verus!
