//! Texts in order.
use crate::reach;
use crate::table;
use crate::table::TextMap;
use crate::text;
use crate::value::Value;
use vstd::prelude::*;
use vstd::string::*;

verus! {

/// Each text stands before those behind it.
pub open spec fn is_sorted(list: Seq<Seq<char>>) -> bool {
    forall|i: int, j: int|
        0 <= i < j < list.len() ==> #[trigger] text::text_less(list[i], list[j])
}

/// `list` holds the members of `set` in order.
pub open spec fn lists_in_order(list: Seq<Seq<char>>, set: Set<Seq<char>>) -> bool {
    is_sorted(list) && list.to_set() == set
}

/// The members of `set` in order.
pub open spec fn in_order(set: Set<Seq<char>>) -> Seq<Seq<char>> {
    choose|list: Seq<Seq<char>>| lists_in_order(list, set)
}

/// A set is put in order in one way alone.
pub proof fn lemma_in_order_unique(a: Seq<Seq<char>>, b: Seq<Seq<char>>)
    requires
        is_sorted(a),
        is_sorted(b),
        a.to_set() == b.to_set(),
    ensures
        a == b,
    decreases a.len(),
{
    if a.len() == 0 {
        if b.len() > 0 {
            assert(b.to_set().contains(b[0]));
            assert(a.to_set().contains(b[0]));
        }
        assert(a =~= b);
    } else {
        assert(a.to_set().contains(a.last()));
        assert(b.to_set().contains(a.last()));
        assert(b.to_set().contains(b.last()));
        assert(a.to_set().contains(b.last()));
        let i = choose|i: int| 0 <= i < a.len() && a[i] == b.last();
        let j = choose|j: int| 0 <= j < b.len() && b[j] == a.last();
        text::lemma_text_less_order(a.last(), b.last(), a.last());
        text::lemma_text_less_order(a.last(), a.last(), a.last());
        if a.last() != b.last() {
            assert(text::text_less(a[i], a[a.len() - 1]));
            assert(text::text_less(b[j], b[b.len() - 1]));
        }
        let x = a.drop_last();
        let y = b.drop_last();
        assert forall|i: int, j: int| 0 <= i < j < x.len() implies #[trigger] text::text_less(
            x[i],
            x[j],
        ) by {
            assert(text::text_less(a[i], a[j]));
        }
        assert forall|i: int, j: int| 0 <= i < j < y.len() implies #[trigger] text::text_less(
            y[i],
            y[j],
        ) by {
            assert(text::text_less(b[i], b[j]));
        }
        assert forall|s: Seq<char>| x.to_set().contains(s) <==> y.to_set().contains(s) by {
            lemma_drop_last_members(a, s);
            lemma_drop_last_members(b, s);
            assert(a.to_set().contains(s) <==> b.to_set().contains(s));
        }
        assert(x.to_set() =~= y.to_set());
        lemma_in_order_unique(x, y);
        assert(a =~= x.push(a.last()));
        assert(b =~= y.push(b.last()));
    }
}

proof fn lemma_drop_last_members(a: Seq<Seq<char>>, s: Seq<char>)
    requires
        is_sorted(a),
        a.len() > 0,
    ensures
        a.drop_last().to_set().contains(s) <==> a.to_set().contains(s) && s != a.last(),
{
    let x = a.drop_last();
    if x.to_set().contains(s) {
        let i = choose|i: int| 0 <= i < x.len() && x[i] == s;
        assert(a[i] == s);
        assert(text::text_less(a[i], a[a.len() - 1]));
        text::lemma_text_less_order(s, s, s);
    }
    if a.to_set().contains(s) && s != a.last() {
        let i = choose|i: int| 0 <= i < a.len() && a[i] == s;
        assert(x[i] == s);
    }
}

/// A sorted list is its members in order.
pub proof fn lemma_in_order(list: Seq<Seq<char>>)
    requires
        is_sorted(list),
    ensures
        in_order(list.to_set()) == list,
{
    assert(lists_in_order(list, list.to_set()));
    lemma_in_order_unique(in_order(list.to_set()), list);
}

/// One more text can be put in order.
proof fn lemma_insert(list: Seq<Seq<char>>, s: Seq<char>) -> (longer: Seq<Seq<char>>)
    requires
        is_sorted(list),
        !list.contains(s),
    ensures
        is_sorted(longer),
        longer.to_set() == list.to_set().insert(s),
    decreases list.len(),
{
    if list.len() == 0 {
        let longer = seq![s];
        assert(longer[0] == s);
        assert(longer.to_set() =~= list.to_set().insert(s));
        longer
    } else {
        let last = list.last();
        let rest = list.drop_last();
        assert(list[list.len() - 1] == last);
        assert(list =~= rest.push(last));
        reach::lemma_push_contains(rest, last);
        text::lemma_text_less_order(last, s, last);
        if text::text_less(last, s) {
            let longer = list.push(s);
            reach::lemma_push_contains(list, s);
            assert forall|i: int, j: int| 0 <= i < j < longer.len() implies #[trigger]
                text::text_less(longer[i], longer[j]) by {
                if j == list.len() && i < list.len() - 1 {
                    assert(text::text_less(list[i], list[list.len() - 1]));
                    text::lemma_text_less_order(list[i], last, s);
                }
            }
            assert(longer.to_set() =~= list.to_set().insert(s));
            longer
        } else {
            assert(!rest.contains(s));
            let shorter = lemma_insert(rest, s);
            let longer = shorter.push(last);
            reach::lemma_push_contains(shorter, last);
            assert forall|i: int, j: int| 0 <= i < j < longer.len() implies #[trigger]
                text::text_less(longer[i], longer[j]) by {
                if j == shorter.len() {
                    assert(shorter.to_set().contains(shorter[i]));
                    if shorter[i] != s {
                        assert(rest.contains(shorter[i]));
                        let k = rest.index_of(shorter[i]);
                        assert(text::text_less(list[k], list[list.len() - 1]));
                    }
                }
            }
            assert forall|q: Seq<char>| longer.to_set().contains(q) <==> list.to_set().insert(
                s,
            ).contains(q) by {
                assert(shorter.to_set().contains(q) <==> rest.to_set().insert(s).contains(q));
            }
            assert(longer.to_set() =~= list.to_set().insert(s));
            longer
        }
    }
}

/// Every finite set can be put in order.
pub proof fn lemma_listed(set: Set<Seq<char>>)
    requires
        set.finite(),
    ensures
        lists_in_order(in_order(set), set),
    decreases set.len(),
{
    if set.len() == 0 {
        assert(lists_in_order(Seq::empty(), set)) by {
            assert(Seq::<Seq<char>>::empty().to_set() =~= set);
        }
    } else {
        let s = set.choose();
        lemma_listed(set.remove(s));
        let rest = in_order(set.remove(s));
        assert(!rest.to_set().contains(s));
        let list = lemma_insert(rest, s);
        assert(list.to_set() =~= set);
        assert(lists_in_order(list, set));
    }
}

/// Puts a text where it belongs, unless it is there.
pub fn insert_in_order(list: &mut Vec<String>, s: &str)
    requires
        is_sorted(old(list).deep_view()),
    ensures
        is_sorted(final(list).deep_view()),
        final(list).deep_view().to_set() == old(list).deep_view().to_set().insert(s@),
{
    let ghost before = list.deep_view();
    let mut i: usize = 0;
    while i < list.len() && text::is_less(list[i].as_str(), s)
        invariant
            i <= list@.len(),
            before == list.deep_view(),
            is_sorted(before),
            forall|j: int| 0 <= j < i ==> text::text_less(#[trigger] before[j], s@),
        decreases list@.len() - i,
    {
        assert(before[i as int] == list@[i as int]@);
        i = i + 1;
    }
    if i < list.len() && text::same_text(list[i].as_str(), s) {
        proof {
            assert(before[i as int] == s@);
            assert(before.to_set().insert(s@) =~= before.to_set());
        }
        return;
    }
    list.insert(i, text::copy(s));
    proof {
        let after = list.deep_view();
        assert(after =~= before.insert(i as int, s@));
        assert forall|j: int, k: int| 0 <= j < k < after.len() implies #[trigger] text::text_less(
            after[j],
            after[k],
        ) by {
            let p = if j < i {
                j
            } else {
                j - 1
            };
            let q = if k < i {
                k
            } else {
                k - 1
            };
            if j != i && k != i {
                assert(text::text_less(before[p], before[q]));
            } else if j == i {
                // Behind the new text stand those that are greater.
                assert(before[q] == after[k]);
                text::lemma_text_less_order(s@, before[i as int], before[q]);
                if q > i {
                    assert(text::text_less(before[i as int], before[q]));
                }
            } else {
                assert(text::text_less(before[p], s@));
            }
        }
        assert forall|t: Seq<char>| after.to_set().contains(t) <==> before.to_set().insert(
            s@,
        ).contains(t) by {
            if before.contains(t) {
                let k = before.index_of(t);
                if k < i {
                    assert(after[k] == t);
                } else {
                    assert(after[k + 1] == t);
                }
            }
            if t == s@ {
                assert(after[i as int] == t);
            }
            if after.contains(t) {
                let k = after.index_of(t);
                if k < i {
                    assert(before[k] == t);
                } else if k > i {
                    assert(before[k - 1] == t);
                }
            }
        }
        assert(after.to_set() =~= before.to_set().insert(s@));
    }
}

/// The texts of a list in order, each once.
pub fn sorted_texts(list: &Vec<String>) -> (sorted: Vec<String>)
    ensures
        sorted.deep_view() == in_order(list.deep_view().to_set()),
        is_sorted(sorted.deep_view()),
        sorted.deep_view().to_set() == list.deep_view().to_set(),
{
    let mut sorted: Vec<String> = Vec::new();
    let ghost all = list.deep_view();
    let mut i: usize = 0;
    assert(all.take(0).to_set() =~= sorted.deep_view().to_set());
    while i < list.len()
        invariant
            i <= list@.len(),
            all == list.deep_view(),
            is_sorted(sorted.deep_view()),
            sorted.deep_view().to_set() == all.take(i as int).to_set(),
        decreases list@.len() - i,
    {
        insert_in_order(&mut sorted, list[i].as_str());
        proof {
            assert(all.take(i + 1) =~= all.take(i as int).push(all[i as int]));
            reach::lemma_push_contains(all.take(i as int), all[i as int]);
            assert forall|s: Seq<char>| all.take(i + 1).to_set().contains(s)
                <==> sorted.deep_view().to_set().contains(s) by {
                assert(all.take(i + 1).contains(s) <==> all.take(i as int).contains(s) || s
                    == all[i as int]);
            }
            assert(all.take(i + 1).to_set() =~= sorted.deep_view().to_set());
        }
        i = i + 1;
    }
    proof {
        assert(all.take(i as int) =~= all);
        lemma_in_order(sorted.deep_view());
    }
    sorted
}

/// The keys of a map in order.
pub fn sorted_keys<V: Value>(map: &TextMap<V>) -> (sorted: Vec<String>)
    ensures
        sorted.deep_view() == in_order(map.deep_view().dom()),
        is_sorted(sorted.deep_view()),
        sorted.deep_view().to_set() == map.deep_view().dom(),
{
    let mut list: Vec<String> = Vec::new();
    let n: usize = map.len();
    let ghost pairs = map.pairs();
    let mut i: usize = 0;
    while i < n
        invariant
            n == pairs.len(),
            pairs == map.pairs(),
            i <= n,
            list.deep_view() == table::keys(pairs).take(i as int),
        decreases n - i,
    {
        let ghost before = list.deep_view();
        list.push(map.key_at(i).clone());
        assert(list.deep_view() =~= before.push(pairs[i as int].0));
        i = i + 1;
        assert(list.deep_view() =~= table::keys(pairs).take(i as int));
    }
    proof {
        assert(list.deep_view() =~= table::keys(pairs));
        assert(list.deep_view().to_set() =~= map.deep_view().dom());
    }
    sorted_texts(&list)
}

/// `a` does not stand behind `b`.
pub open spec fn not_behind() -> spec_fn(Seq<char>, Seq<char>) -> bool {
    |a: Seq<char>, b: Seq<char>| !text::text_less(b, a)
}

proof fn lemma_not_behind_total()
    ensures
        vstd::relations::total_ordering(not_behind()),
{
    let leq = not_behind();
    assert forall|a: Seq<char>| #[trigger] leq(a, a) by {
        text::lemma_text_less_order(a, a, a);
    }
    assert forall|a: Seq<char>, b: Seq<char>| #[trigger] leq(a, b) && #[trigger] leq(
        b,
        a,
    ) implies a == b by {
        text::lemma_text_less_order(a, b, a);
    }
    assert forall|a: Seq<char>, b: Seq<char>, c: Seq<char>|
        #[trigger] leq(a, b) && #[trigger] leq(b, c) implies leq(a, c) by {
        text::lemma_text_less_order(a, b, c);
        text::lemma_text_less_order(c, a, b);
        text::lemma_text_less_order(c, b, a);
        text::lemma_text_less_order(b, c, a);
        text::lemma_text_less_order(b, a, c);
    }
    assert forall|a: Seq<char>, b: Seq<char>| #[trigger] leq(a, b) || #[trigger] leq(b, a) by {
        text::lemma_text_less_order(a, b, a);
    }
}

/// The texts of a list in order, equal ones as often as they are there.
pub fn sort_list(list: &Vec<String>) -> (sorted: Vec<String>)
    ensures
        sorted.deep_view() == list.deep_view().sort_by(not_behind()),
        sorted.deep_view().len() == list.deep_view().len(),
{
    let mut sorted: Vec<String> = Vec::new();
    let ghost all = list.deep_view();
    let ghost leq = not_behind();
    let mut i: usize = 0;
    proof {
        assert(all.take(0) =~= sorted.deep_view());
    }
    while i < list.len()
        invariant
            i <= list@.len(),
            all == list.deep_view(),
            leq == not_behind(),
            vstd::relations::sorted_by(sorted.deep_view(), leq),
            sorted.deep_view().to_multiset() == all.take(i as int).to_multiset(),
        decreases list@.len() - i,
    {
        let s = list[i].as_str();
        let ghost before = sorted.deep_view();
        let mut k: usize = 0;
        while k < sorted.len() && text::is_less(sorted[k].as_str(), s)
            invariant
                k <= sorted@.len(),
                before == sorted.deep_view(),
                forall|j: int| 0 <= j < k ==> text::text_less(#[trigger] before[j], s@),
            decreases sorted@.len() - k,
        {
            assert(before[k as int] == sorted@[k as int]@);
            k = k + 1;
        }
        sorted.insert(k, text::copy(s));
        proof {
            let after = sorted.deep_view();
            assert(after =~= before.insert(k as int, s@));
            vstd::seq_lib::to_multiset_insert(before, k as int, s@);
            assert(all.take(i + 1) =~= all.take(i as int).push(all[i as int]));
            vstd::seq_lib::to_multiset_build(all.take(i as int), all[i as int]);
            assert(all[i as int] == s@);
            lemma_not_behind_total();
            assert forall|p: int, q: int| 0 <= p < q < after.len() implies #[trigger] leq(
                after[p],
                after[q],
            ) by {
                let x = if p < k {
                    p
                } else {
                    p - 1
                };
                let y = if q < k {
                    q
                } else {
                    q - 1
                };
                if p != k && q != k {
                    assert(leq(before[x], before[y]));
                } else if q == k {
                    assert(text::text_less(before[x], s@));
                    text::lemma_text_less_order(before[x], s@, s@);
                } else {
                    assert(leq(s@, before[k as int]));
                    if y > k {
                        assert(leq(before[k as int], before[y]));
                    }
                    assert(after[q] == before[y]);
                    assert(leq(s@, before[y]));
                }
            }
        }
        i = i + 1;
    }
    proof {
        assert(all.take(i as int) =~= all);
        lemma_not_behind_total();
        all.lemma_sort_by_ensures(leq);
        vstd::seq_lib::lemma_sorted_unique(sorted.deep_view(), all.sort_by(leq), leq);
        vstd::seq_lib::to_multiset_len(all);
        vstd::seq_lib::to_multiset_len(sorted.deep_view());
    }
    sorted
}

/// No text stands twice in a sorted list.
pub proof fn lemma_sorted_distinct(list: Seq<Seq<char>>)
    requires
        is_sorted(list),
    ensures
        list.no_duplicates(),
{
    assert forall|i: int, j: int|
        0 <= i < list.len() && 0 <= j < list.len() && i != j implies list[i] != list[j] by {
        text::lemma_text_less_order(list[i], list[i], list[i]);
        if i < j {
            assert(text::text_less(list[i], list[j]));
        } else {
            assert(text::text_less(list[j], list[i]));
        }
    }
}

/// Lists of the same texts are put in order in one way.
pub proof fn lemma_sort_by_members(a: Seq<Seq<char>>, b: Seq<Seq<char>>)
    requires
        a.to_multiset() == b.to_multiset(),
    ensures
        a.sort_by(not_behind()) == b.sort_by(not_behind()),
{
    let leq = not_behind();
    lemma_not_behind_total();
    a.lemma_sort_by_ensures(leq);
    b.lemma_sort_by_ensures(leq);
    vstd::seq_lib::lemma_sorted_unique(a.sort_by(leq), b.sort_by(leq), leq);
}

} // verus!
