//! Patterns with `*` for any run of characters.
use crate::text;
use vstd::prelude::*;
use vstd::string::*;

verus! {

/// The parts of a pattern between its stars, without the empty ones.
pub open spec fn literals(pieces: Seq<Seq<char>>) -> Seq<Seq<char>>
    decreases pieces.len(),
{
    if pieces.len() == 0 {
        pieces
    } else if pieces.last().len() > 0 {
        literals(pieces.drop_last()).push(pieces.last())
    } else {
        literals(pieces.drop_last())
    }
}

/// The parts from the one at `k` on stand in `value`, in order and without
/// overlap, at or behind `from`.
pub open spec fn placed(value: Seq<char>, parts: Seq<Seq<char>>, k: int, from: int) -> bool
    decreases parts.len() - k,
{
    k >= parts.len() || 0 <= k && exists|i: int|
        from <= i && #[trigger] text::stands_at(value, parts[k], i) && placed(
            value,
            parts,
            k + 1,
            i + parts[k].len(),
        )
}

/// The first part stands at the start of `value`, and the others behind it.
pub open spec fn placed_at_start(value: Seq<char>, parts: Seq<Seq<char>>) -> bool {
    &&& parts.len() > 0
    &&& text::stands_at(value, parts[0], 0)
    &&& placed(value, parts, 1, parts[0].len() as int)
}

/// `value` matches `pattern`. A single star matches everything. Otherwise there
/// has to be some text in the pattern, the texts between its stars stand in
/// order in the value, the first one at the start unless a star stands before
/// it, and the value ends with the last one unless a star stands behind it.
pub open spec fn matches(value: Seq<char>, pattern: Seq<char>) -> bool {
    let parts = literals(text::split(pattern, '*'));
    ||| pattern == seq!['*']
    ||| {
        &&& parts.len() > 0
        &&& if pattern.len() > 0 && pattern[0] == '*' {
            placed(value, parts, 0, 0)
        } else {
            placed_at_start(value, parts)
        }
        &&& (pattern.len() > 0 && pattern.last() == '*' || text::ends_with(value, parts.last()))
    }
}

/// The last of the patterns that matches decides; one behind `!` decides
/// against.
pub open spec fn matches_any(name: Seq<char>, patterns: Seq<Seq<char>>) -> bool
    decreases patterns.len(),
{
    if patterns.len() == 0 {
        false
    } else {
        let last = patterns.last();
        let rest = patterns.drop_last();
        if last.len() > 0 && last[0] == '!' {
            !matches(name, text::tail(last, 1)) && matches_any(name, rest)
        } else {
            matches(name, last) || matches_any(name, rest)
        }
    }
}

proof fn lemma_placed_earlier(
    value: Seq<char>,
    parts: Seq<Seq<char>>,
    k: int,
    from: int,
    earlier: int,
)
    requires
        placed(value, parts, k, from),
        earlier <= from,
    ensures
        placed(value, parts, k, earlier),
{
    if k < parts.len() {
        let i = choose|i: int|
            from <= i && #[trigger] text::stands_at(value, parts[k], i) && placed(
                value,
                parts,
                k + 1,
                i + parts[k].len(),
            );
        assert(earlier <= i && text::stands_at(value, parts[k], i));
    }
}

/// Where a part stands first, the others find room if they do at all.
proof fn lemma_first_place(
    value: Seq<char>,
    parts: Seq<Seq<char>>,
    k: int,
    from: int,
    first: int,
)
    requires
        0 <= k < parts.len(),
        from <= first,
        text::stands_at(value, parts[k], first),
        forall|j: int| from <= j < first ==> !text::stands_at(value, parts[k], j),
    ensures
        placed(value, parts, k, from) <==> placed(value, parts, k + 1, first + parts[k].len()),
{
    if placed(value, parts, k, from) {
        let i = choose|i: int|
            from <= i && #[trigger] text::stands_at(value, parts[k], i) && placed(
                value,
                parts,
                k + 1,
                i + parts[k].len(),
            );
        assert(first <= i);
        lemma_placed_earlier(
            value,
            parts,
            k + 1,
            i + parts[k].len(),
            first + parts[k].len(),
        );
    }
    if placed(value, parts, k + 1, first + parts[k].len()) {
        assert(from <= first && text::stands_at(value, parts[k], first));
    }
}

/// The parts of a pattern between its stars, without the empty ones.
fn literal_parts(pattern: &str) -> (parts: Vec<Vec<char>>)
    ensures
        parts@.len() == literals(text::split(pattern@, '*')).len(),
        forall|i: int|
            0 <= i < parts@.len() ==> (#[trigger] parts@[i])@ == literals(
                text::split(pattern@, '*'),
            )[i],
{
    let pieces = text::split_text(pattern, '*');
    let ghost all = pieces.deep_view();
    let mut parts: Vec<Vec<char>> = Vec::new();
    let mut i: usize = 0;
    assert(all.take(0) =~= Seq::empty());
    while i < pieces.len()
        invariant
            i <= pieces@.len(),
            all == pieces.deep_view(),
            parts@.len() == literals(all.take(i as int)).len(),
            forall|j: int|
                0 <= j < parts@.len() ==> (#[trigger] parts@[j])@ == literals(
                    all.take(i as int),
                )[j],
        decreases pieces@.len() - i,
    {
        assert(all.take(i + 1).drop_last() =~= all.take(i as int));
        assert(all.take(i + 1).last() == pieces@[i as int]@);
        if pieces[i].as_str().unicode_len() > 0 {
            parts.push(text::chars_of(pieces[i].as_str()));
        }
        i = i + 1;
    }
    assert(all.take(i as int) =~= all);
    parts
}

/// Whether `value` matches `pattern`.
pub fn wildcard_match(value: &str, pattern: &str) -> (yes: bool)
    ensures
        yes == matches(value@, pattern@),
{
    let ghost all = literals(text::split(pattern@, '*'));
    let pattern_len: usize = pattern.unicode_len();
    if pattern_len == 1 && pattern.get_char(0) == '*' {
        assert(pattern@ =~= seq!['*']);
        return true;
    }
    proof {
        if pattern@ == seq!['*'] {
            assert(pattern@.len() == 1 && pattern@[0] == '*');
        }
    }
    if pattern_len == 0 {
        proof {
            let pieces = text::split(pattern@, '*');
            text::lemma_first_index(pattern@, '*');
            assert(pieces =~= seq![pattern@]);
            assert(pieces.drop_last() =~= Seq::empty());
            assert(literals(pieces) == literals(pieces.drop_last()));
        }
        return false;
    }
    let parts = literal_parts(pattern);
    if parts.len() == 0 {
        return false;
    }
    let chars = text::chars_of(value);
    let n: usize = chars.len();
    let leading_star = pattern.get_char(0) == '*';
    let mut search_start: usize = 0;
    let mut index: usize = 0;
    if !leading_star {
        if !text::part_stands_at(&chars, &parts[0], 0) {
            return false;
        }
        search_start = parts[0].len();
        index = 1;
        assert(placed_at_start(value@, all) <==> placed(
            value@,
            all,
            1,
            search_start as int,
        ));
    }
    let ghost start = if leading_star {
        placed(value@, all, 0, 0)
    } else {
        placed_at_start(value@, all)
    };
    while index < parts.len()
        invariant
            chars@ == value@,
            n == chars@.len(),
            all == literals(text::split(pattern@, '*')),
            parts@.len() == all.len(),
            forall|i: int| 0 <= i < parts@.len() ==> (#[trigger] parts@[i])@ == all[i],
            index <= parts@.len(),
            search_start <= chars@.len(),
            start == placed(value@, all, index as int, search_start as int),
            pattern@ != seq!['*'],
            pattern@.len() > 0,
            leading_star == (pattern@[0] == '*'),
            start == (if leading_star {
                placed(value@, all, 0, 0)
            } else {
                placed_at_start(value@, all)
            }),
        decreases parts@.len() - index,
    {
        assert(parts@[index as int]@ == all[index as int]);
        match text::find_text_from(&chars, &parts[index], search_start) {
            Some(found) => {
                proof {
                    lemma_first_place(
                        value@,
                        all,
                        index as int,
                        search_start as int,
                        found as int,
                    );
                }
                assert(found + parts@[index as int]@.len() <= chars@.len());
                search_start = found + parts[index].len();
            },
            None => {
                proof {
                    if placed(value@, all, index as int, search_start as int) {
                        let i = choose|i: int|
                            search_start <= i && #[trigger] text::stands_at(
                                value@,
                                all[index as int],
                                i,
                            ) && placed(value@, all, index + 1, i + all[index as int].len());
                        assert(text::stands_at(value@, parts@[index as int]@, i));
                    }
                }
                return false;
            },
        }
        index = index + 1;
    }
    if pattern.get_char(pattern_len - 1) == '*' {
        return true;
    }
    let last = &parts[parts.len() - 1];
    assert(last@ == all.last());
    let ends = last.len() <= n && text::part_stands_at(&chars, last, n - last.len());
    proof {
        if last@.len() <= n {
            assert(text::stands_at(value@, last@, n - last@.len()) <==> text::ends_with(
                value@,
                last@,
            ));
        }
    }
    ends
}

/// Whether the last of the patterns that matches decides for `name`.
pub fn matches_patterns(name: &str, patterns: &Vec<String>) -> (yes: bool)
    ensures
        yes == matches_any(name@, patterns.deep_view()),
{
    let ghost all = patterns.deep_view();
    let mut matched = false;
    let mut i: usize = 0;
    while i < patterns.len()
        invariant
            i <= patterns@.len(),
            all == patterns.deep_view(),
            matched == matches_any(name@, all.take(i as int)),
        decreases patterns@.len() - i,
    {
        assert(all.take(i + 1).drop_last() =~= all.take(i as int));
        assert(all.take(i + 1).last() == patterns@[i as int]@);
        let pattern = patterns[i].as_str();
        if text::has_first_char(pattern, '!') {
            let n: usize = pattern.unicode_len();
            if wildcard_match(name, pattern.substring_char(1, n)) {
                matched = false;
            }
        } else if wildcard_match(name, pattern) {
            matched = true;
        }
        i = i + 1;
    }
    assert(all.take(i as int) =~= all);
    matched
}

/// A star alone lets every name pass, and nothing passes without a pattern.
pub proof fn law_star_and_nothing(name: Seq<char>)
    ensures
        matches_any(name, seq![seq!['*']]),
        !matches_any(name, Seq::<Seq<char>>::empty()),
{
    let all = seq![seq!['*']];
    assert(all.last() == seq!['*']);
    assert(matches(name, all.last()));
}

/// A pattern behind `!` at the end takes out what it matches, whatever stands
/// before it.
pub proof fn law_negation_wins_at_end(
    name: Seq<char>,
    patterns: Seq<Seq<char>>,
    negated: Seq<char>,
)
    requires
        matches(name, negated),
    ensures
        !matches_any(name, patterns.push(seq!['!'] + negated)),
{
    let all = patterns.push(seq!['!'] + negated);
    assert(text::tail(all.last(), 1) =~= negated);
}

/// A pattern without a star is for the name itself.
pub proof fn law_plain_pattern_is_the_name(pattern: Seq<char>)
    requires
        pattern.len() > 0,
        !pattern.contains('*'),
    ensures
        matches(pattern, pattern),
        forall|value: Seq<char>| #[trigger]
            matches(value, pattern) ==> text::starts_with(value, pattern) && text::ends_with(
                value,
                pattern,
            ),
{
    assert forall|j: int| 0 <= j < pattern.len() implies pattern[j] != '*' by {
        assert(pattern.contains(pattern[j]));
    }
    text::lemma_first_index_is(pattern, '*', pattern.len() as int);
    let pieces = text::split(pattern, '*');
    assert(pieces =~= seq![pattern]);
    assert(pieces.drop_last() =~= Seq::<Seq<char>>::empty());
    let parts = literals(pieces);
    assert(literals(pieces.drop_last()) =~= Seq::<Seq<char>>::empty());
    assert(parts =~= seq![pattern]);
    assert(parts.last() == pattern && parts[0] == pattern);
    assert(pattern.subrange(0, pattern.len() as int) =~= pattern);
    assert(seq!['*'].contains('*')) by {
        assert(seq!['*'][0] == '*');
    }
    assert(placed(pattern, parts, 1, pattern.len() as int));
    assert(placed_at_start(pattern, parts));
    assert(text::ends_with(pattern, pattern));
    assert forall|value: Seq<char>| #[trigger] matches(value, pattern) implies text::starts_with(
        value,
        pattern,
    ) && text::ends_with(value, pattern) by {
        assert(pattern.last() != '*');
        assert(pattern[0] != '*');
    }
}

/// Patterns count in their order: of those that are for a name the last one decides, and a
/// name that none is for does not pass.
pub proof fn law_last_pattern_decides(name: Seq<char>, patterns: Seq<Seq<char>>, last: Seq<char>)
    ensures
        last.len() > 0 && last[0] == '!' && matches(name, last.skip(1)) ==> !matches_any(
            name,
            patterns.push(last),
        ),
        last.len() > 0 && last[0] != '!' && matches(name, last) ==> matches_any(
            name,
            patterns.push(last),
        ),
        last.len() > 0 && last[0] == '!' && !matches(name, last.skip(1)) ==> matches_any(
            name,
            patterns.push(last),
        ) == matches_any(name, patterns),
        last.len() > 0 && last[0] != '!' && !matches(name, last) ==> matches_any(
            name,
            patterns.push(last),
        ) == matches_any(name, patterns),
        !matches_any(name, Seq::empty()),
{
    assert(patterns.push(last).drop_last() =~= patterns);
    assert(patterns.push(last).last() == last);
    if last.len() > 0 {
        assert(text::tail(last, 1) =~= last.skip(1));
    }
}

} // verus!
