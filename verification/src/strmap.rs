//! A string-keyed map that keeps its entries in insertion order.
//!
//! The log records, tag sets and rule tables of this library are keyed by
//! field name. `StrMap` stores them as a vector of `(key, value)` pairs with
//! no key twice, so that every operation has an exact contract and iteration
//! order is deterministic.

use vstd::prelude::*;

verus! {

/// No key occurs twice in `pairs`.
pub open spec fn unique_keys<V>(pairs: Seq<(Seq<char>, V)>) -> bool {
    forall|i: int, j: int|
        0 <= i < pairs.len() && 0 <= j < pairs.len() && i != j ==> pairs[i].0 != pairs[j].0
}

/// `key` occurs in `pairs`.
pub open spec fn has_key<V>(pairs: Seq<(Seq<char>, V)>, key: Seq<char>) -> bool {
    exists|i: int| 0 <= i < pairs.len() && pairs[i].0 == key
}

/// The position of `key` in `pairs` (meaningful when `has_key`).
pub open spec fn key_index<V>(pairs: Seq<(Seq<char>, V)>, key: Seq<char>) -> int {
    choose|i: int| 0 <= i < pairs.len() && pairs[i].0 == key
}

/// The value stored under `key` (meaningful when `has_key`).
pub open spec fn value_of<V>(pairs: Seq<(Seq<char>, V)>, key: Seq<char>) -> V {
    pairs[key_index(pairs, key)].1
}

/// The map that `pairs` denotes.
pub open spec fn pairs_map<V>(pairs: Seq<(Seq<char>, V)>) -> Map<Seq<char>, V> {
    Map::new(|k: Seq<char>| has_key(pairs, k), |k: Seq<char>| value_of(pairs, k))
}

/// `pairs` after `HashMap::insert(key, value)`: the value of an existing key
/// is replaced in place, a new key is appended.
pub open spec fn pairs_insert<V>(pairs: Seq<(Seq<char>, V)>, key: Seq<char>, value: V) -> Seq<
    (Seq<char>, V),
> {
    if has_key(pairs, key) {
        pairs.update(key_index(pairs, key), (key, value))
    } else {
        pairs.push((key, value))
    }
}

/// In a sequence with unique keys, the entry at `i` is the one `key_index` finds.
pub proof fn lemma_key_index<V>(pairs: Seq<(Seq<char>, V)>, i: int)
    requires
        unique_keys(pairs),
        0 <= i < pairs.len(),
    ensures
        has_key(pairs, pairs[i].0),
        key_index(pairs, pairs[i].0) == i,
        value_of(pairs, pairs[i].0) == pairs[i].1,
{
    assert(has_key(pairs, pairs[i].0));
}

/// Inserting keeps the keys unique.
pub proof fn lemma_insert_unique<V>(pairs: Seq<(Seq<char>, V)>, key: Seq<char>, value: V)
    requires
        unique_keys(pairs),
    ensures
        unique_keys(pairs_insert(pairs, key, value)),
        has_key(pairs_insert(pairs, key, value), key),
        value_of(pairs_insert(pairs, key, value), key) == value,
        pairs_map(pairs_insert(pairs, key, value)) == pairs_map(pairs).insert(key, value),
{
    let p2 = pairs_insert(pairs, key, value);
    if has_key(pairs, key) {
        let k = key_index(pairs, key);
        assert forall|i: int, j: int|
            0 <= i < p2.len() && 0 <= j < p2.len() && i != j implies p2[i].0 != p2[j].0 by {
            if i == k {
                assert(pairs[k].0 == key);
            } else if j == k {
                assert(pairs[k].0 == key);
            }
        }
    } else {
        assert forall|i: int, j: int|
            0 <= i < p2.len() && 0 <= j < p2.len() && i != j implies p2[i].0 != p2[j].0 by {
            if i == pairs.len() as int {
                assert(pairs[j].0 != key);
            } else if j == pairs.len() as int {
                assert(pairs[i].0 != key);
            }
        }
    }
    let w = if has_key(pairs, key) { key_index(pairs, key) } else { pairs.len() as int };
    assert(p2[w].0 == key);
    lemma_key_index(p2, w);
    assert forall|k2: Seq<char>| #[trigger] has_key(p2, k2) implies k2 == key || has_key(pairs, k2) by {
        let i = key_index(p2, k2);
        if k2 != key {
            assert(pairs[i].0 == k2);
        }
    }
    assert forall|k2: Seq<char>| k2 != key && #[trigger] has_key(pairs, k2) implies has_key(p2, k2)
        && value_of(p2, k2) == value_of(pairs, k2) by {
        let i = key_index(pairs, k2);
        lemma_key_index(pairs, i);
        assert(p2[i] == pairs[i]);
        lemma_key_index(p2, i);
    }
    assert(pairs_map(p2) =~= pairs_map(pairs).insert(key, value));
}

/// The entries of a map from names to strings, values taken by their characters.
pub open spec fn text_pairs(pairs: Seq<(Seq<char>, String)>) -> Seq<(Seq<char>, Seq<char>)> {
    pairs.map_values(|p: (Seq<char>, String)| (p.0, p.1@))
}

/// Taking values by their characters keeps the keys and their positions.
pub proof fn lemma_text_pairs_keys(pairs: Seq<(Seq<char>, String)>, key: Seq<char>)
    ensures
        unique_keys(pairs) == unique_keys(text_pairs(pairs)),
        has_key(pairs, key) == has_key(text_pairs(pairs), key),
        has_key(pairs, key) && unique_keys(pairs) ==> key_index(pairs, key) == key_index(
            text_pairs(pairs),
            key,
        ),
{
    let t = text_pairs(pairs);
    assert forall|i: int| 0 <= i < pairs.len() implies #[trigger] t[i].0 == pairs[i].0 by {}
    assert(unique_keys(pairs) == unique_keys(t)) by {
        if unique_keys(pairs) {
            assert forall|i: int, j: int|
                0 <= i < t.len() && 0 <= j < t.len() && i != j implies t[i].0 != t[j].0 by {
                assert(t[i].0 == pairs[i].0 && t[j].0 == pairs[j].0);
            }
        }
        if unique_keys(t) {
            assert forall|i: int, j: int|
                0 <= i < pairs.len() && 0 <= j < pairs.len() && i != j implies pairs[i].0
                != pairs[j].0 by {
                assert(t[i].0 == pairs[i].0 && t[j].0 == pairs[j].0);
            }
        }
    }
    if has_key(pairs, key) {
        let i = key_index(pairs, key);
        assert(t[i].0 == key);
    }
    if has_key(t, key) {
        let i = key_index(t, key);
        assert(pairs[i].0 == key);
    }
    if has_key(pairs, key) && unique_keys(pairs) {
        let i = key_index(pairs, key);
        let j = key_index(t, key);
        assert(pairs[j].0 == key);
    }
}

/// Inserting commutes with taking values by their characters.
pub proof fn lemma_text_pairs_insert(pairs: Seq<(Seq<char>, String)>, key: Seq<char>, value: String)
    requires
        unique_keys(pairs),
    ensures
        text_pairs(pairs_insert(pairs, key, value)) == pairs_insert(text_pairs(pairs), key, value@),
{
    lemma_text_pairs_keys(pairs, key);
    assert(text_pairs(pairs_insert(pairs, key, value)) =~= pairs_insert(
        text_pairs(pairs),
        key,
        value@,
    ));
}

/// The entries with each value replaced by `f` of it.
pub open spec fn map_entries<V, W>(pairs: Seq<(Seq<char>, V)>, f: spec_fn(V) -> W) -> Seq<
    (Seq<char>, W),
> {
    pairs.map_values(|p: (Seq<char>, V)| (p.0, f(p.1)))
}

/// Mapping the values keeps the keys and their positions.
pub proof fn lemma_map_entries_keys<V, W>(pairs: Seq<(Seq<char>, V)>, f: spec_fn(V) -> W, key: Seq<char>)
    ensures
        unique_keys(pairs) == unique_keys(map_entries(pairs, f)),
        has_key(pairs, key) == has_key(map_entries(pairs, f), key),
        has_key(pairs, key) && unique_keys(pairs) ==> key_index(pairs, key) == key_index(
            map_entries(pairs, f),
            key,
        ) && value_of(map_entries(pairs, f), key) == f(value_of(pairs, key)),
{
    let t = map_entries(pairs, f);
    assert forall|i: int| 0 <= i < pairs.len() implies #[trigger] t[i].0 == pairs[i].0 by {}
    assert(unique_keys(pairs) == unique_keys(t)) by {
        if unique_keys(pairs) {
            assert forall|i: int, j: int|
                0 <= i < t.len() && 0 <= j < t.len() && i != j implies t[i].0 != t[j].0 by {
                assert(t[i].0 == pairs[i].0 && t[j].0 == pairs[j].0);
            }
        }
        if unique_keys(t) {
            assert forall|i: int, j: int|
                0 <= i < pairs.len() && 0 <= j < pairs.len() && i != j implies pairs[i].0
                != pairs[j].0 by {
                assert(t[i].0 == pairs[i].0 && t[j].0 == pairs[j].0);
            }
        }
    }
    if has_key(pairs, key) {
        let i = key_index(pairs, key);
        assert(t[i].0 == key);
    }
    if has_key(t, key) {
        let i = key_index(t, key);
        assert(pairs[i].0 == key);
    }
    if has_key(pairs, key) && unique_keys(pairs) {
        let i = key_index(pairs, key);
        let j = key_index(t, key);
        assert(pairs[j].0 == key);
    }
}

/// Inserting commutes with mapping the values.
pub proof fn lemma_map_entries_insert<V, W>(
    pairs: Seq<(Seq<char>, V)>,
    f: spec_fn(V) -> W,
    key: Seq<char>,
    value: V,
)
    requires
        unique_keys(pairs),
    ensures
        map_entries(pairs_insert(pairs, key, value), f) == pairs_insert(
            map_entries(pairs, f),
            key,
            f(value),
        ),
{
    lemma_map_entries_keys(pairs, f, key);
    assert(map_entries(pairs_insert(pairs, key, value), f) =~= pairs_insert(
        map_entries(pairs, f),
        key,
        f(value),
    ));
}

/// The entries a map holds after inserting `pairs` one by one, in order,
/// into an empty map.
pub open spec fn inserted_all<V>(pairs: Seq<(Seq<char>, V)>) -> Seq<(Seq<char>, V)>
    decreases pairs.len(),
{
    if pairs.len() == 0 {
        Seq::empty()
    } else {
        pairs_insert(inserted_all(pairs.drop_last()), pairs.last().0, pairs.last().1)
    }
}

/// Inserting one by one keeps the keys unique.
pub proof fn lemma_inserted_all_unique<V>(pairs: Seq<(Seq<char>, V)>)
    ensures
        unique_keys(inserted_all(pairs)),
    decreases pairs.len(),
{
    if pairs.len() > 0 {
        lemma_inserted_all_unique(pairs.drop_last());
        lemma_insert_unique(inserted_all(pairs.drop_last()), pairs.last().0, pairs.last().1);
    }
}

/// One more step of `inserted_all` over a prefix.
pub proof fn lemma_inserted_all_step<V>(pairs: Seq<(Seq<char>, V)>, i: int)
    requires
        0 <= i < pairs.len(),
    ensures
        inserted_all(pairs.take(i + 1)) == pairs_insert(
            inserted_all(pairs.take(i)),
            pairs[i].0,
            pairs[i].1,
        ),
{
    assert(pairs.take(i + 1).drop_last() =~= pairs.take(i));
}

/// A map from field names to values, in insertion order.
#[derive(Debug)]
pub struct StrMap<V> {
    entries: Vec<(String, V)>,
}

impl<V> StrMap<V> {
    /// The entries, keys taken by their characters, in insertion order.
    pub closed spec fn pairs(&self) -> Seq<(Seq<char>, V)> {
        self.entries@.map_values(|e: (String, V)| (e.0@, e.1))
    }

    /// Well-formedness: no key occurs twice.
    pub open spec fn wf(&self) -> bool {
        unique_keys(self.pairs())
    }

    /// The map the entries denote.
    pub open spec fn as_map(&self) -> Map<Seq<char>, V> {
        pairs_map(self.pairs())
    }

    /// An empty map.
    pub fn new() -> (m: Self)
        ensures
            m.pairs() == Seq::<(Seq<char>, V)>::empty(),
            m.wf(),
    {
        let m = StrMap { entries: Vec::new() };
        assert(m.pairs() =~= Seq::<(Seq<char>, V)>::empty());
        m
    }

    /// Number of entries.
    pub fn len(&self) -> (n: usize)
        ensures
            n == self.pairs().len(),
    {
        self.entries.len()
    }

    /// True when there are no entries.
    pub fn is_empty(&self) -> (b: bool)
        ensures
            b == (self.pairs().len() == 0),
    {
        self.entries.len() == 0
    }

    /// The key of entry `i`.
    pub fn key_at(&self, i: usize) -> (k: &String)
        requires
            i < self.pairs().len(),
        ensures
            k@ == self.pairs()[i as int].0,
    {
        &self.entries[i].0
    }

    /// The value of entry `i`.
    pub fn value_at(&self, i: usize) -> (v: &V)
        requires
            i < self.pairs().len(),
        ensures
            *v == self.pairs()[i as int].1,
    {
        &self.entries[i].1
    }

    /// The position of `key`, if it is present.
    pub fn position(&self, key: &str) -> (r: Option<usize>)
        requires
            self.wf(),
        ensures
            match r {
                Some(i) => i < self.pairs().len() && self.pairs()[i as int].0 == key@ && has_key(
                    self.pairs(),
                    key@,
                ) && key_index(self.pairs(), key@) == i,
                None => !has_key(self.pairs(), key@),
            },
    {
        let k = key.to_owned();
        let mut i: usize = 0;
        while i < self.entries.len()
            invariant
                i <= self.entries@.len(),
                k@ == key@,
                self.wf(),
                forall|j: int| 0 <= j < i ==> self.pairs()[j].0 != key@,
            decreases self.entries@.len() - i,
        {
            if self.entries[i].0 == k {
                proof {
                    lemma_key_index(self.pairs(), i as int);
                }
                return Some(i);
            }
            i = i + 1;
        }
        None
    }

    /// True when `key` is present.
    pub fn contains_key(&self, key: &str) -> (b: bool)
        requires
            self.wf(),
        ensures
            b == has_key(self.pairs(), key@),
    {
        self.position(key).is_some()
    }

    /// The value stored under `key`.
    pub fn get(&self, key: &str) -> (r: Option<&V>)
        requires
            self.wf(),
        ensures
            match r {
                Some(v) => has_key(self.pairs(), key@) && *v == value_of(self.pairs(), key@),
                None => !has_key(self.pairs(), key@),
            },
    {
        match self.position(key) {
            Some(i) => Some(&self.entries[i].1),
            None => None,
        }
    }

    /// The entries, moved out in order.
    pub fn into_entries(self) -> (v: Vec<(String, V)>)
        ensures
            v@.map_values(|e: (String, V)| (e.0@, e.1)) == self.pairs(),
    {
        self.entries
    }

    /// Replaces the value of entry `i`.
    pub fn set_value_at(&mut self, i: usize, value: V)
        requires
            i < old(self).pairs().len(),
        ensures
            final(self).pairs() == old(self).pairs().update(
                i as int,
                (old(self).pairs()[i as int].0, value),
            ),
    {
        let ghost before = self.pairs();
        let (k, _) = self.entries.remove(i);
        self.entries.insert(i, (k, value));
        assert(self.pairs() =~= before.update(i as int, (before[i as int].0, value)));
    }

    /// Inserts `value` under `key`, replacing the value of an existing key in place.
    pub fn insert(&mut self, key: String, value: V)
        requires
            old(self).wf(),
        ensures
            final(self).wf(),
            final(self).pairs() == pairs_insert(old(self).pairs(), key@, value),
            final(self).as_map() == old(self).as_map().insert(key@, value),
    {
        proof {
            lemma_insert_unique(self.pairs(), key@, value);
        }
        match self.position(key.as_str()) {
            Some(i) => {
                self.set_value_at(i, value);
            },
            None => {
                let ghost before = self.pairs();
                self.entries.push((key, value));
                assert(self.pairs() =~= before.push((key@, value)));
            },
        }
    }
}

} // verus!
