//! A map that keeps its entries in the order in which their keys came first.
use crate::value::{Compared, Key, Value};
use vstd::prelude::*;
use vstd::string::*;

verus! {

/// A map from `K` to `V`. No two entries have the same key.
#[derive(Debug)]
pub struct Table<K: Key, V: Value> {
    entries: Vec<(K, V)>,
}

/// A map whose keys are texts.
pub type TextMap<V> = Table<String, V>;

/// The keys, in order.
pub open spec fn keys<A, T>(pairs: Seq<(A, T)>) -> Seq<A> {
    Seq::new(pairs.len(), |i: int| pairs[i].0)
}

/// The map that a sequence of pairs with different keys stands for.
pub open spec fn map_of<A, T>(pairs: Seq<(A, T)>) -> Map<A, T> {
    Map::new(
        |id: A| keys(pairs).contains(id),
        |id: A| pairs[keys(pairs).index_of(id)].1,
    )
}

/// The pairs after `key` was given the value `value`.
pub open spec fn put<A, T>(pairs: Seq<(A, T)>, key: A, value: T) -> Seq<(A, T)> {
    let all = keys(pairs);
    if all.contains(key) {
        let i = all.index_of(key);
        pairs.update(i, (pairs[i].0, value))
    } else {
        pairs.push((key, value))
    }
}

/// With different keys, the pair at `i` is what the map holds for its key.
pub proof fn lemma_map_entry<A, T>(pairs: Seq<(A, T)>, i: int)
    requires
        keys(pairs).no_duplicates(),
        0 <= i < pairs.len(),
    ensures
        keys(pairs).contains(pairs[i].0),
        keys(pairs).index_of(pairs[i].0) == i,
        map_of(pairs).dom().contains(pairs[i].0),
        map_of(pairs)[pairs[i].0] == pairs[i].1,
{
    let all = keys(pairs);
    assert(all[i] == pairs[i].0);
    assert(all.contains(all[i]));
    let j = all.index_of(all[i]);
    assert(0 <= j < all.len() && all[j] == all[i]);
}

/// Giving a key a value keeps the keys different and changes the map at that
/// key alone.
pub proof fn lemma_put<A, T>(pairs: Seq<(A, T)>, key: A, value: T)
    requires
        keys(pairs).no_duplicates(),
    ensures
        keys(put(pairs, key, value)).no_duplicates(),
        map_of(put(pairs, key, value)) == map_of(pairs).insert(
            key,
            value,
        ),
{
    let id = key;
    let before = keys(pairs);
    let after_pairs = put(pairs, key, value);
    let after = keys(after_pairs);
    if before.contains(id) {
        let i = before.index_of(id);
        assert(0 <= i < before.len() && before[i] == id);
        assert(after =~= before);
    } else {
        assert(after =~= before.push(id));
        assert forall|i: int, j: int|
            0 <= i < after.len() && 0 <= j < after.len() && i != j implies after[i] != after[j] by {
            if i < before.len() && j < before.len() {
                assert(before[i] != before[j]);
            } else if i < before.len() {
                assert(before.contains(before[i]));
            } else {
                assert(before.contains(before[j]));
            }
        }
    }
    let m = map_of(after_pairs);
    let expected = map_of(pairs).insert(id, value);
    assert forall|k: A| m.dom().contains(k) == expected.dom().contains(k) by {
        if before.contains(k) {
            let i = before.index_of(k);
            assert(before[i] == k);
            assert(after[i] == k);
        }
        if k == id && !before.contains(id) {
            assert(after[before.len() as int] == id);
        }
        if after.contains(k) {
            let i = after.index_of(k);
            assert(after[i] == k);
            if i < before.len() {
                assert(before[i] == k);
            }
        }
    }
    assert forall|k: A| m.dom().contains(k) implies m[k] == expected[k] by {
        let i = after.index_of(k);
        assert(0 <= i < after.len() && after[i] == k);
        if k == id {
            if before.contains(id) {
                let j = before.index_of(id);
                assert(before[j] == id && after[j] == id);
            } else {
                assert(after[before.len() as int] == id);
            }
        } else {
            assert(i < before.len());
            assert(before[i] == k);
            lemma_map_entry(pairs, i);
        }
    }
    assert(m =~= expected);
}

/// There are as many keys in the map as there are pairs.
pub proof fn lemma_map_len<A, T>(pairs: Seq<(A, T)>)
    requires
        keys(pairs).no_duplicates(),
    ensures
        map_of(pairs).dom().finite(),
        map_of(pairs).dom().len() == pairs.len(),
{
    keys(pairs).unique_seq_to_set();
    assert(map_of(pairs).dom() =~= keys(pairs).to_set());
}

/// A key of the map is the key of some pair.
pub proof fn lemma_map_index<A, T>(pairs: Seq<(A, T)>, key: A) -> (i: int)
    requires
        keys(pairs).no_duplicates(),
        map_of(pairs).dom().contains(key),
    ensures
        0 <= i < pairs.len(),
        pairs[i].0 == key,
        pairs[i].1 == map_of(pairs)[key],
        i == keys(pairs).index_of(key),
{
    let i = keys(pairs).index_of(key);
    assert(keys(pairs)[i] == key);
    i
}

/// Changing the values alone keeps the keys, and changes the map value by value.
pub proof fn lemma_mapped_values<A, T, U>(
    pairs: Seq<(A, T)>,
    mapped: Seq<(A, U)>,
    f: spec_fn(A, T) -> U,
)
    requires
        keys(pairs).no_duplicates(),
        mapped.len() == pairs.len(),
        forall|i: int|
            0 <= i < pairs.len() ==> #[trigger] mapped[i] == (
                pairs[i].0,
                f(pairs[i].0, pairs[i].1),
            ),
    ensures
        keys(mapped) == keys(pairs),
        map_of(mapped) == Map::new(
            |key: A| map_of(pairs).dom().contains(key),
            |key: A| f(key, map_of(pairs)[key]),
        ),
{
    assert(keys(mapped) =~= keys(pairs));
    let expected = Map::new(
        |key: A| map_of(pairs).dom().contains(key),
        |key: A| f(key, map_of(pairs)[key]),
    );
    assert forall|key: A| map_of(pairs).dom().contains(key) implies map_of(mapped)[key]
        == expected[key] by {
        let i = lemma_map_index(pairs, key);
        lemma_map_entry(mapped, i);
    }
    assert(map_of(mapped) =~= expected);
}

/// A key that none of the pairs before it has can be put at their end.
pub proof fn lemma_put_next<A, T, U>(pairs: Seq<(A, T)>, done: Seq<(A, U)>, i: int, value: U)
    requires
        keys(pairs).no_duplicates(),
        0 <= i < pairs.len(),
        done.len() == i,
        forall|j: int| 0 <= j < i ==> (#[trigger] done[j]).0 == pairs[j].0,
    ensures
        put(done, pairs[i].0, value) == done.push((pairs[i].0, value)),
{
    assert forall|j: int| 0 <= j < i implies keys(done)[j] != pairs[i].0 by {
        assert(done[j].0 == pairs[j].0);
        assert(keys(pairs)[j] != keys(pairs)[i]);
    }
}

/// One more pair is one more entry.
pub proof fn lemma_take_next<A, T>(pairs: Seq<(A, T)>, i: int)
    requires
        keys(pairs).no_duplicates(),
        0 <= i < pairs.len(),
    ensures
        map_of(pairs.take(i + 1)) == map_of(pairs.take(i)).insert(pairs[i].0, pairs[i].1),
        !map_of(pairs.take(i)).dom().contains(pairs[i].0),
        keys(pairs.take(i)).no_duplicates(),
{
    let done = pairs.take(i);
    let next = pairs.take(i + 1);
    assert forall|j: int, k: int| 0 <= j < i && 0 <= k < i && j != k implies keys(done)[j] != keys(
        done,
    )[k] by {
        assert(keys(pairs)[j] != keys(pairs)[k]);
    }
    if keys(done).contains(pairs[i].0) {
        let j = keys(done).index_of(pairs[i].0);
        assert(keys(done)[j] == keys(pairs)[j]);
        assert(keys(pairs)[j] != keys(pairs)[i]);
    }
    assert(next =~= done.push(pairs[i]));
    assert(next =~= put(done, pairs[i].0, pairs[i].1));
    lemma_put(done, pairs[i].0, pairs[i].1);
}

/// The keys of the pairs that are marked.
pub open spec fn marked<A, T>(pairs: Seq<(A, T)>, marks: Seq<bool>) -> Set<A> {
    Set::new(|key: A| is_marked(pairs, marks, key))
}

/// A pair with this key is marked.
pub open spec fn is_marked<A, T>(pairs: Seq<(A, T)>, marks: Seq<bool>, key: A) -> bool {
    exists|i: int| 0 <= i < marks.len() && marks[i] && (#[trigger] pairs[i]).0 == key
}

/// The part of a map whose entries meet a condition.
pub open spec fn filtered<A, T>(map: Map<A, T>, keep: spec_fn(A, T) -> bool) -> Map<A, T> {
    Map::new(|key: A| map.dom().contains(key) && keep(key, map[key]), |key: A| map[key])
}

/// Marks that tell which pairs meet a condition tell the part of the map that
/// meets it.
pub proof fn lemma_marked_filtered<A, T>(
    pairs: Seq<(A, T)>,
    marks: Seq<bool>,
    keep: spec_fn(A, T) -> bool,
)
    requires
        keys(pairs).no_duplicates(),
        marks.len() == pairs.len(),
        forall|i: int| 0 <= i < pairs.len() ==> #[trigger] marks[i] == keep(pairs[i].0, pairs[i].1),
    ensures
        map_of(pairs).restrict(marked(pairs, marks)) == filtered(map_of(pairs), keep),
{
    let map = map_of(pairs);
    assert forall|key: A| map.dom().contains(key) implies (is_marked(pairs, marks, key) <==> keep(
        key,
        map[key],
    )) by {
        let i = lemma_map_index(pairs, key);
        if keep(key, map[key]) {
            assert(marks[i] && pairs[i].0 == key);
        }
        if is_marked(pairs, marks, key) {
            let j = choose|j: int|
                0 <= j < marks.len() && marks[j] && (#[trigger] pairs[j]).0 == key;
            lemma_map_entry(pairs, j);
        }
    }
    assert(map.restrict(marked(pairs, marks)) =~= filtered(map, keep));
}

/// The entries with the identity of their keys.
pub open spec fn id_pairs<K: Key, V: Value>(entries: Seq<(K, V)>) -> Seq<(K::Id, V::V)> {
    Seq::new(
        entries.len(),
        |i: int| (K::id(entries[i].0.deep_view()), entries[i].1.deep_view()),
    )
}

/// The keys with their identity.
pub open spec fn key_pairs<K: Key, V: Value>(entries: Seq<(K, V)>) -> Seq<(K::Id, K::V)> {
    Seq::new(
        entries.len(),
        |i: int| (K::id(entries[i].0.deep_view()), entries[i].0.deep_view()),
    )
}

/// The keys after an entry was given a value: a key that was there stays as it
/// is.
pub open spec fn with_key<A, T>(all: Map<A, T>, id: A, key: T) -> Map<A, T> {
    if all.dom().contains(id) {
        all
    } else {
        all.insert(id, key)
    }
}

impl<K: Key, V: Value> Table<K, V> {
    /// The entries in order, by the identity of their keys.
    pub closed spec fn pairs(&self) -> Seq<(K::Id, V::V)> {
        id_pairs(self.entries@)
    }

    /// The keys in order, by their identity.
    pub closed spec fn named(&self) -> Seq<(K::Id, K::V)> {
        key_pairs(self.entries@)
    }

    /// The keys by their identity.
    pub open spec fn full_keys(&self) -> Map<K::Id, K::V> {
        map_of(self.named())
    }

    /// The key of the entry at `i`.
    pub closed spec fn key(&self, i: int) -> K {
        self.entries@[i].0
    }

    /// The value of the entry at `i`.
    pub closed spec fn value(&self, i: int) -> V {
        self.entries@[i].1
    }

    /// The pair at `i` is the mathematical value of the entry there.
    pub proof fn lemma_entry(&self, i: int)
        requires
            0 <= i < self.pairs().len(),
        ensures
            self.pairs()[i] == (K::id(self.key(i).deep_view()), self.value(i).deep_view()),
    {
    }

    /// The keys that are named are those of the entries.
    pub proof fn lemma_named(&self)
        ensures
            self.named().len() == self.pairs().len(),
            keys(self.named()) == keys(self.pairs()),
            self.full_keys().dom() == self.deep_view().dom(),
            forall|i: int|
                0 <= i < self.pairs().len() ==> #[trigger] self.named()[i] == (
                    self.pairs()[i].0,
                    self.key(i).deep_view(),
                ),
    {
        assert(keys(self.named()) =~= keys(self.pairs()));
        assert(self.full_keys().dom() =~= self.deep_view().dom());
    }

    #[verifier::type_invariant]
    spec fn keys_differ(&self) -> bool {
        keys(id_pairs(self.entries@)).no_duplicates()
    }
}

impl<K: Key, V: Value> DeepView for Table<K, V> {
    type V = Map<K::Id, V::V>;

    open spec fn deep_view(&self) -> Map<K::Id, V::V> {
        map_of(self.pairs())
    }
}

impl<K: Key, V: Value> Table<K, V> {
    /// A table without entries.
    pub fn new() -> (table: Self)
        ensures
            table.pairs() == Seq::<(K::Id, V::V)>::empty(),
            table.deep_view() == Map::<K::Id, V::V>::empty(),
            table.full_keys() == Map::<K::Id, K::V>::empty(),
    {
        let table = Table { entries: Vec::new() };
        assert(table.pairs() =~= Seq::<(K::Id, V::V)>::empty());
        assert(table.deep_view() =~= Map::<K::Id, V::V>::empty());
        assert(table.full_keys() =~= Map::<K::Id, K::V>::empty());
        table
    }

    /// The number of entries.
    pub fn len(&self) -> (n: usize)
        ensures
            n == self.pairs().len(),
            keys(self.pairs()).no_duplicates(),
            forall|i: int|
                0 <= i < n ==> K::id((#[trigger] self.key(i)).deep_view()) == self.pairs()[i].0,
    {
        proof {
            use_type_invariant(self);
        }
        self.entries.len()
    }

    /// Whether there are no entries.
    pub fn is_empty(&self) -> (empty: bool)
        ensures
            empty == (self.pairs().len() == 0),
            empty == (self.deep_view() == Map::<K::Id, V::V>::empty()),
            keys(self.pairs()).no_duplicates(),
    {
        proof {
            use_type_invariant(self);
            if self.pairs().len() > 0 {
                lemma_map_entry(self.pairs(), 0);
            } else {
                assert(self.deep_view() =~= Map::<K::Id, V::V>::empty());
            }
        }
        self.entries.len() == 0
    }

    /// The key of the entry at `i`.
    pub fn key_at(&self, i: usize) -> (key: &K)
        requires
            i < self.pairs().len(),
        ensures
            K::id(key.deep_view()) == self.pairs()[i as int].0,
            *key == self.key(i as int),
    {
        &self.entries[i].0
    }

    /// The value of the entry at `i`.
    pub fn value_at(&self, i: usize) -> (value: &V)
        requires
            i < self.pairs().len(),
        ensures
            value.deep_view() == self.pairs()[i as int].1,
            *value == self.value(i as int),
    {
        &self.entries[i].1
    }

    /// The position of the entry for `key`.
    pub fn position(&self, key: &K) -> (found: Option<usize>)
        ensures
            keys(self.pairs()).no_duplicates(),
            match found {
                Some(i) => {
                    &&& i < self.pairs().len()
                    &&& self.pairs()[i as int].0 == K::id(key.deep_view())
                    &&& self.deep_view().dom().contains(K::id(key.deep_view()))
                    &&& self.deep_view()[K::id(key.deep_view())] == self.pairs()[i as int].1
                    &&& keys(self.pairs()).contains(K::id(key.deep_view()))
                    &&& keys(self.pairs()).index_of(K::id(key.deep_view())) == i
                },
                None => {
                    &&& !self.deep_view().dom().contains(K::id(key.deep_view()))
                    &&& !keys(self.pairs()).contains(K::id(key.deep_view()))
                },
            },
    {
        proof {
            use_type_invariant(self);
        }
        let ghost all = keys(self.pairs());
        let mut i: usize = 0;
        while i < self.entries.len()
            invariant
                all == keys(self.pairs()),
                all.no_duplicates(),
                all.len() == self.entries@.len(),
                i <= self.entries@.len(),
                forall|j: int| 0 <= j < i ==> all[j] != K::id(key.deep_view()),
            decreases self.entries@.len() - i,
        {
            if self.entries[i].0.is_key(key) {
                proof {
                    lemma_map_entry(self.pairs(), i as int);
                }
                return Some(i);
            }
            assert(all[i as int] == K::id(self.entries@[i as int].0.deep_view()));
            i = i + 1;
        }
        None
    }

    /// The value for `key`.
    pub fn get(&self, key: &K) -> (value: Option<&V>)
        ensures
            value.deep_view() == (if self.deep_view().dom().contains(K::id(key.deep_view())) {
                Some(self.deep_view()[K::id(key.deep_view())])
            } else {
                None
            }),
    {
        match self.position(key) {
            Some(i) => Some(&self.entries[i].1),
            None => None,
        }
    }

    /// Whether there is an entry for `key`.
    pub fn contains_key(&self, key: &K) -> (yes: bool)
        ensures
            yes == self.deep_view().dom().contains(K::id(key.deep_view())),
    {
        self.position(key).is_some()
    }

    /// Gives `key` the value `value`. An entry that was there keeps its place
    /// and its key.
    pub fn insert(&mut self, key: K, value: V)
        ensures
            final(self).pairs() == put(
                old(self).pairs(),
                K::id(key.deep_view()),
                value.deep_view(),
            ),
            final(self).deep_view() == old(self).deep_view().insert(
                K::id(key.deep_view()),
                value.deep_view(),
            ),
            keys(final(self).pairs()).no_duplicates(),
            final(self).full_keys() == with_key(
                old(self).full_keys(),
                K::id(key.deep_view()),
                key.deep_view(),
            ),
    {
        proof {
            use_type_invariant(&*self);
            lemma_put(self.pairs(), K::id(key.deep_view()), value.deep_view());
        }
        let ghost before = self.pairs();
        let ghost new_key = K::id(key.deep_view());
        let ghost model = key.deep_view();
        let ghost named = self.named();
        proof {
            self.lemma_named();
            lemma_put(named, new_key, model);
        }
        let ghost new_value = value.deep_view();
        let found = self.position(&key);
        let mut entries: Vec<(K, V)> = Vec::new();
        std::mem::swap(&mut entries, &mut self.entries);
        match found {
            Some(i) => {
                let (old_key, _) = entries.remove(i);
                entries.insert(i, (old_key, value));
                assert(id_pairs(entries@) =~= put(before, new_key, new_value));
                assert(key_pairs(entries@) =~= named);
            },
            None => {
                entries.push((key, value));
                assert(id_pairs(entries@) =~= put(before, new_key, new_value));
                assert(key_pairs(entries@) =~= put(named, new_key, model));
            },
        }
        self.entries = entries;
    }
}

impl<K: Key, V: Value> Table<K, V> {
    /// The entries that are marked.
    pub fn keep(&self, marks: &Vec<bool>) -> (kept: Self)
        requires
            marks@.len() == self.pairs().len(),
        ensures
            kept.deep_view() == self.deep_view().restrict(marked(self.pairs(), marks@)),
            kept.full_keys() == self.full_keys().restrict(marked(self.pairs(), marks@)),
    {
        let mut kept: Self = Table::new();
        let ghost all_keys = self.full_keys();
        let n: usize = self.len();
        let ghost pairs = self.pairs();
        let ghost model = self.deep_view();
        let mut i: usize = 0;
        proof {
            self.lemma_named();
        }
        while i < n
            invariant
                n == pairs.len(),
                n == marks@.len(),
                self.named().len() == n,
                keys(self.named()) == keys(pairs),
                forall|j: int|
                    0 <= j < n ==> #[trigger] self.named()[j] == (
                        pairs[j].0,
                        self.key(j).deep_view(),
                    ),
                all_keys == self.full_keys(),
                kept.full_keys().submap_of(all_keys),
                pairs == self.pairs(),
                model == self.deep_view(),
                keys(pairs).no_duplicates(),
                i <= n,
                kept.deep_view().submap_of(model),
                forall|key: K::Id| #[trigger]
                    kept.deep_view().dom().contains(key) <==> is_marked(
                        pairs,
                        marks@.take(i as int),
                        key,
                    ),
            decreases n - i,
        {
            let ghost before = kept.deep_view();
            let ghost done = marks@.take(i as int);
            let ghost next = marks@.take(i + 1);
            if marks[i] {
                proof {
                    lemma_map_entry(pairs, i as int);
                    lemma_map_entry(self.named(), i as int);
                    assert(self.named()[i as int].0 == pairs[i as int].0);
                }
                let key = self.key_at(i).duplicate();
                let value = self.value_at(i).duplicate();
                let ghost id = pairs[i as int].0;
                let ghost held = kept.full_keys();
                assert(K::id(key.deep_view()) == id);
                assert(all_keys.dom().contains(id) && all_keys[id] == key.deep_view());
                assert(model.dom().contains(id) && model[id] == value.deep_view());
                let ghost entry = (key.deep_view(), value.deep_view());
                kept.insert(key, value);
                assert(kept.deep_view() == before.insert(id, entry.1));
                assert(kept.deep_view().submap_of(model));
                assert(kept.full_keys() == with_key(held, id, entry.0));
                assert(held.submap_of(all_keys));
                assert(held.insert(id, entry.0).submap_of(all_keys));
            }
            proof {
                assert forall|key: K::Id| #[trigger]
                    kept.deep_view().dom().contains(key) <==> is_marked(pairs, next, key) by {
                    assert(before.dom().contains(key) <==> is_marked(pairs, done, key));
                    if is_marked(pairs, done, key) {
                        let j = choose|j: int|
                            0 <= j < done.len() && done[j] && (#[trigger] pairs[j]).0 == key;
                        assert(next[j] && pairs[j].0 == key);
                    }
                    if is_marked(pairs, next, key) {
                        let j = choose|j: int|
                            0 <= j < next.len() && next[j] && (#[trigger] pairs[j]).0 == key;
                        if j < i {
                            assert(done[j] && pairs[j].0 == key);
                        }
                    }
                    if marks@[i as int] && pairs[i as int].0 == key {
                        assert(next[i as int] && pairs[i as int].0 == key);
                    }
                }
            }
            i = i + 1;
        }
        proof {
            assert(marks@.take(i as int) =~= marks@);
            assert forall|key: K::Id| is_marked(pairs, marks@, key) implies model.dom().contains(
                key,
            ) by {
                let j = choose|j: int|
                    0 <= j < marks@.len() && marks@[j] && (#[trigger] pairs[j]).0 == key;
                lemma_map_entry(pairs, j);
            }
            assert(kept.deep_view() =~= model.restrict(marked(pairs, marks@)));
            kept.lemma_named();
            assert(self.full_keys().dom() == model.dom());
            assert(kept.full_keys() =~= self.full_keys().restrict(marked(pairs, marks@)));
        }
        kept
    }

    /// Takes over the entries of `other`; their values replace those with their
    /// keys.
    pub fn extend(&mut self, other: &Self)
        ensures
            final(self).deep_view() == old(self).deep_view().union_prefer_right(other.deep_view()),
            final(self).full_keys() == other.full_keys().union_prefer_right(old(self).full_keys()),
    {
        let n: usize = other.len();
        let ghost pairs = other.pairs();
        let ghost before = self.deep_view();
        let ghost model = other.deep_view();
        let ghost named = other.named();
        let ghost held = self.full_keys();
        let mut i: usize = 0;
        proof {
            other.lemma_named();
        }
        assert(map_of(named.take(0)).dom() =~= Set::empty());
        assert(self.full_keys() =~= map_of(named.take(0)).union_prefer_right(held));
        assert(map_of(pairs.take(0)).dom() =~= Set::empty());
        assert(self.deep_view() =~= before.union_prefer_right(map_of(pairs.take(0))));
        while i < n
            invariant
                n == pairs.len(),
                pairs == other.pairs(),
                keys(pairs).no_duplicates(),
                i <= n,
                named == other.named(),
                named.len() == n,
                keys(named) == keys(pairs),
                forall|j: int|
                    0 <= j < n ==> #[trigger] named[j] == (pairs[j].0, other.key(j).deep_view()),
                self.full_keys() == map_of(named.take(i as int)).union_prefer_right(held),
                self.deep_view() == before.union_prefer_right(map_of(pairs.take(i as int))),
            decreases n - i,
        {
            self.insert(other.key_at(i).duplicate(), other.value_at(i).duplicate());
            proof {
                lemma_take_next(pairs, i as int);
                lemma_take_next(named, i as int);
                assert(named[i as int].0 == pairs[i as int].0);
                assert(self.deep_view() =~= before.union_prefer_right(map_of(pairs.take(i + 1))));
                assert(self.full_keys() =~= map_of(named.take(i + 1)).union_prefer_right(held));
            }
            i = i + 1;
        }
        assert(pairs.take(i as int) =~= pairs);
        assert(named.take(i as int) =~= named);
    }

    /// Takes over the entries of `other` whose keys have none yet.
    pub fn fill(&mut self, other: &Self)
        ensures
            final(self).deep_view() == other.deep_view().union_prefer_right(old(self).deep_view()),
            final(self).full_keys() == other.full_keys().union_prefer_right(old(self).full_keys()),
    {
        let n: usize = other.len();
        let ghost pairs = other.pairs();
        let ghost before = self.deep_view();
        let ghost named = other.named();
        let ghost held = self.full_keys();
        let mut i: usize = 0;
        proof {
            other.lemma_named();
        }
        assert(map_of(named.take(0)).dom() =~= Set::empty());
        assert(self.full_keys() =~= map_of(named.take(0)).union_prefer_right(held));
        assert(map_of(pairs.take(0)).dom() =~= Set::empty());
        assert(self.deep_view() =~= map_of(pairs.take(0)).union_prefer_right(before));
        while i < n
            invariant
                n == pairs.len(),
                pairs == other.pairs(),
                keys(pairs).no_duplicates(),
                i <= n,
                named == other.named(),
                named.len() == n,
                keys(named) == keys(pairs),
                forall|j: int|
                    0 <= j < n ==> #[trigger] named[j] == (pairs[j].0, other.key(j).deep_view()),
                self.full_keys() == map_of(named.take(i as int)).union_prefer_right(held),
                self.deep_view() == map_of(pairs.take(i as int)).union_prefer_right(before),
            decreases n - i,
        {
            proof {
                self.lemma_named();
                lemma_take_next(pairs, i as int);
                lemma_take_next(named, i as int);
                assert(named[i as int].0 == pairs[i as int].0);
            }
            if !self.contains_key(other.key_at(i)) {
                self.insert(other.key_at(i).duplicate(), other.value_at(i).duplicate());
            }
            assert(self.deep_view() =~= map_of(pairs.take(i + 1)).union_prefer_right(before));
            assert(self.full_keys() =~= map_of(named.take(i + 1)).union_prefer_right(held));
            i = i + 1;
        }
        assert(pairs.take(i as int) =~= pairs);
        assert(named.take(i as int) =~= named);
    }

    /// Whether every entry of `self` is one of `other`.
    pub fn is_part_of(&self, other: &Self) -> (yes: bool)
        ensures
            yes == self.deep_view().submap_of(other.deep_view()),
    {
        let n: usize = self.len();
        let ghost pairs = self.pairs();
        let ghost mine = self.deep_view();
        let ghost theirs = other.deep_view();
        let mut i: usize = 0;
        while i < n
            invariant
                n == pairs.len(),
                pairs == self.pairs(),
                mine == self.deep_view(),
                theirs == other.deep_view(),
                keys(pairs).no_duplicates(),
                i <= n,
                forall|j: int|
                    0 <= j < i ==> theirs.dom().contains(#[trigger] pairs[j].0)
                        && theirs[pairs[j].0] == pairs[j].1,
            decreases n - i,
        {
            proof {
                lemma_map_entry(pairs, i as int);
            }
            match other.get(self.key_at(i)) {
                Some(value) => {
                    if !value.same(self.value_at(i)) {
                        return false;
                    }
                },
                None => {
                    return false;
                },
            }
            i = i + 1;
        }
        assert forall|id: K::Id| mine.dom().contains(id) implies theirs.dom().contains(id)
            && theirs[id] == mine[id] by {
            let k = keys(pairs).index_of(id);
            assert(keys(pairs)[k] == id);
            lemma_map_entry(pairs, k);
        }
        true
    }
}

/// The part of each value that counts when they are compared.
pub open spec fn bare_values<A, T: Compared>(map: Map<A, T::V>) -> Map<A, T::V> {
    Map::new(|key: A| map.dom().contains(key), |key: A| T::bare(map[key]))
}

/// The part of each value that counts, if there are values.
pub open spec fn bare_option<A, T: Compared>(map: Option<Map<A, T::V>>) -> Option<Map<A, T::V>> {
    match map {
        Some(map) => Some(bare_values::<A, T>(map)),
        None => None,
    }
}

impl<K: Key, T: Compared> Table<K, T> {
    /// The part of each value that counts.
    pub fn with_bare_values(&self) -> (bare: Self)
        ensures
            bare.deep_view() == bare_values::<K::Id, T>(self.deep_view()),
    {
        let mut bare: Self = Table::new();
        let n: usize = self.len();
        let ghost pairs = self.pairs();
        let ghost f = |key: K::Id, value: T::V| T::bare(value);
        let mut i: usize = 0;
        while i < n
            invariant
                n == pairs.len(),
                pairs == self.pairs(),
                keys(pairs).no_duplicates(),
                i <= n,
                bare.pairs().len() == i,
                forall|j: int|
                    0 <= j < i ==> #[trigger] bare.pairs()[j] == (
                        pairs[j].0,
                        T::bare(pairs[j].1),
                    ),
            decreases n - i,
        {
            let value = self.value_at(i).to_bare();
            proof {
                lemma_put_next(pairs, bare.pairs(), i as int, value.deep_view());
            }
            bare.insert(self.key_at(i).duplicate(), value);
            i = i + 1;
        }
        proof {
            lemma_mapped_values(pairs, bare.pairs(), f);
            assert(bare.deep_view() =~= bare_values::<K::Id, T>(self.deep_view()));
        }
        bare
    }
}

/// As many marks as asked for, none of them set.
pub fn no_marks(n: usize) -> (marks: Vec<bool>)
    ensures
        marks@.len() == n,
        forall|i: int| 0 <= i < n ==> !marks@[i],
{
    let mut marks: Vec<bool> = Vec::new();
    while marks.len() < n
        invariant
            marks@.len() <= n,
            forall|i: int| 0 <= i < marks@.len() ==> !marks@[i],
        decreases n - marks@.len(),
    {
        marks.push(false);
    }
    marks
}

impl<K: Key, V: Value> Value for Table<K, V> {
    fn duplicate(&self) -> (copy: Self)
        ensures
            copy.pairs() == self.pairs(),
            copy.named() == self.named(),
            copy.full_keys() == self.full_keys(),
    {
        proof {
            use_type_invariant(self);
        }
        let mut entries: Vec<(K, V)> = Vec::new();
        let mut i: usize = 0;
        while i < self.entries.len()
            invariant
                i <= self.entries@.len(),
                id_pairs(entries@) == self.pairs().take(i as int),
                key_pairs(entries@) == self.named().take(i as int),
                entries@.len() == i,
            decreases self.entries@.len() - i,
        {
            let entry = (self.entries[i].0.duplicate(), self.entries[i].1.duplicate());
            let ghost pairs = id_pairs(entries@);
            let ghost named = key_pairs(entries@);
            entries.push(entry);
            assert(id_pairs(entries@) =~= pairs.push(self.pairs()[i as int]));
            assert(key_pairs(entries@) =~= named.push(self.named()[i as int]));
            assert(self.pairs().take(i + 1) =~= pairs.push(self.pairs()[i as int]));
            assert(self.named().take(i + 1) =~= named.push(self.named()[i as int]));
            i = i + 1;
        }
        assert(id_pairs(entries@) =~= self.pairs());
        assert(key_pairs(entries@) =~= self.named());
        Table { entries }
    }

    fn same(&self, other: &Self) -> bool {
        let there = self.is_part_of(other);
        let back = other.is_part_of(self);
        proof {
            if there && back {
                assert(self.deep_view() =~= other.deep_view());
            }
        }
        there && back
    }
}

impl<V: Value> Table<String, V> {
    /// The value for a key given as a text.
    pub fn get_text(&self, key: &str) -> (value: Option<&V>)
        ensures
            value.deep_view() == (if self.deep_view().dom().contains(key@) {
                Some(self.deep_view()[key@])
            } else {
                None
            }),
    {
        let key = String::from_str(key);
        self.get(&key)
    }

    /// Whether there is an entry for a key given as a text.
    pub fn contains_text(&self, key: &str) -> (yes: bool)
        ensures
            yes == self.deep_view().dom().contains(key@),
    {
        let key = String::from_str(key);
        self.contains_key(&key)
    }
}

} // verus!
