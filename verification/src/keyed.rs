//! An insertion-ordered map from string keys to values, each key at most once.

use vstd::prelude::*;
use crate::text::str_eq;

verus! {

/// Entries, viewed: the key's characters and the value.
pub type EntrySeq<V> = Seq<(Seq<char>, V)>;

/// No key occurs twice.
pub open spec fn keys_unique<V>(s: EntrySeq<V>) -> bool {
    forall|i: int, j: int| 0 <= i < s.len() && 0 <= j < s.len() && i != j ==> #[trigger] s[i].0 != #[trigger] s[j].0
}

/// The map that a sequence of entries stands for (the first entry of a key wins).
pub open spec fn map_of<V>(s: EntrySeq<V>) -> Map<Seq<char>, V>
    decreases s.len(),
{
    if s.len() == 0 {
        Map::empty()
    } else {
        map_of(s.drop_first()).insert(s[0].0, s[0].1)
    }
}

/// The position of the entry with key `k`, if there is one.
pub open spec fn key_index<V>(s: EntrySeq<V>, k: Seq<char>) -> Option<int> {
    if has_key(s, k) {
        Some(choose|i: int| 0 <= i < s.len() && #[trigger] s[i].0 == k)
    } else {
        None
    }
}

/// In a sequence with unique keys, the entry holding `k` is the one `key_index` names.
pub proof fn lemma_key_index<V>(s: EntrySeq<V>, k: Seq<char>, i: int)
    requires
        keys_unique(s),
        0 <= i < s.len(),
        s[i].0 == k,
    ensures
        key_index(s, k) == Some(i),
{
    let j = choose|j: int| 0 <= j < s.len() && #[trigger] s[j].0 == k;
    assert(s[j].0 == k);
}

/// Whether some entry has key `k`.
pub open spec fn has_key<V>(s: EntrySeq<V>, k: Seq<char>) -> bool {
    exists|i: int| 0 <= i < s.len() && #[trigger] s[i].0 == k
}

/// Looking up a key of a unique-keyed sequence gives the value stored with it.
pub proof fn lemma_map_of_index<V>(s: EntrySeq<V>, i: int)
    requires
        keys_unique(s),
        0 <= i < s.len(),
    ensures
        map_of(s).contains_key(s[i].0),
        map_of(s)[s[i].0] == s[i].1,
    decreases s.len(),
{
    if i > 0 {
        let t = s.drop_first();
        assert(t[i - 1] == s[i]);
        assert(keys_unique(t)) by {
            assert forall|a: int, b: int| 0 <= a < t.len() && 0 <= b < t.len() && a != b implies t[a].0 != t[b].0 by {
                assert(t[a] == s[a + 1] && t[b] == s[b + 1]);
            }
        }
        lemma_map_of_index(t, i - 1);
        assert(s[0].0 != s[i].0);
    }
}

/// The domain of the map is exactly the set of keys of the entries.
pub proof fn lemma_map_of_dom<V>(s: EntrySeq<V>, k: Seq<char>)
    ensures
        map_of(s).contains_key(k) <==> has_key(s, k),
    decreases s.len(),
{
    if s.len() > 0 {
        let t = s.drop_first();
        lemma_map_of_dom(t, k);
        if has_key(t, k) {
            let j = choose|j: int| 0 <= j < t.len() && #[trigger] t[j].0 == k;
            assert(s[j + 1].0 == k);
        }
        if has_key(s, k) && s[0].0 != k {
            let j = choose|j: int| 0 <= j < s.len() && #[trigger] s[j].0 == k;
            assert(t[j - 1].0 == k);
        }
    }
}

/// Every key of a unique-keyed sequence maps to the value at its position,
/// and the map holds no other key.
pub proof fn lemma_map_of_unique<V>(s: EntrySeq<V>)
    requires
        keys_unique(s),
    ensures
        forall|i: int| 0 <= i < s.len() ==> #[trigger] map_of(s).contains_key(s[i].0) && map_of(s)[s[i].0] == s[i].1,
        forall|k: Seq<char>| #[trigger] map_of(s).contains_key(k) <==> has_key(s, k),
{
    assert forall|i: int| 0 <= i < s.len() implies #[trigger] map_of(s).contains_key(s[i].0) && map_of(s)[s[i].0] == s[i].1 by {
        lemma_map_of_index(s, i);
    }
    assert forall|k: Seq<char>| #[trigger] map_of(s).contains_key(k) <==> has_key(s, k) by {
        lemma_map_of_dom(s, k);
    }
}

/// A map keyed by strings that keeps its entries in insertion order.
pub struct KeyedMap<V> {
    entries: Vec<(String, V)>,
}

impl<V> KeyedMap<V> {
    /// The entries in order, keys by their characters.
    pub closed spec fn seq(&self) -> EntrySeq<V> {
        self.entries@.map_values(|e: (String, V)| (e.0@, e.1))
    }

    /// The well-formedness that every map keeps: keys are unique.
    #[verifier::type_invariant]
    pub closed spec fn inv(&self) -> bool {
        keys_unique(self.seq())
    }

    /// No key occurs twice among the entries.
    pub proof fn lemma_unique(&self)
        requires
            self.inv(),
        ensures
            keys_unique(self.seq()),
            forall|i: int| 0 <= i < self.seq().len() ==> #[trigger] self@.contains_key(self.seq()[i].0) && self@[self.seq()[i].0] == self.seq()[i].1,
            forall|k: Seq<char>| #[trigger] self@.contains_key(k) <==> has_key(self.seq(), k),
    {
        lemma_map_of_unique(self.seq());
        assert(self@ == map_of(self.seq()));
        assert forall|i: int| 0 <= i < self.seq().len() implies #[trigger] self@.contains_key(self.seq()[i].0) && self@[self.seq()[i].0] == self.seq()[i].1 by {
            assert(map_of(self.seq()).contains_key(self.seq()[i].0));
        }
    }

    /// An empty map.
    pub fn new() -> (r: Self)
        ensures
            r.seq() == Seq::<(Seq<char>, V)>::empty(),
            r@ == Map::<Seq<char>, V>::empty(),
    {
        let r = KeyedMap { entries: Vec::new() };
        assert(r.seq() =~= Seq::<(Seq<char>, V)>::empty());
        r
    }

    /// Number of entries.
    pub fn len(&self) -> (r: usize)
        ensures
            r == self.seq().len(),
    {
        self.entries.len()
    }

    /// Whether the map holds no entry.
    pub fn is_empty(&self) -> (r: bool)
        ensures
            r == (self.seq().len() == 0),
    {
        self.entries.len() == 0
    }

    /// Position of the entry for `key`.
    pub fn index_of(&self, key: &str) -> (r: Option<usize>)
        ensures
            match r {
                Some(i) => i < self.seq().len() && self.seq()[i as int].0 == key@,
                None => !has_key(self.seq(), key@),
            },
    {
        let mut i: usize = 0;
        while i < self.entries.len()
            invariant
                i <= self.entries.len(),
                forall|j: int| 0 <= j < i ==> #[trigger] self.seq()[j].0 != key@,
            decreases self.entries.len() - i,
        {
            if str_eq(self.entries[i].0.as_str(), key) {
                return Some(i);
            }
            i = i + 1;
        }
        None
    }

    /// Whether an entry for `key` exists.
    pub fn contains_key(&self, key: &str) -> (r: bool)
        ensures
            r == self@.contains_key(key@),
    {
        proof { use_type_invariant(self); self.lemma_unique(); }
        self.index_of(key).is_some()
    }

    /// The value stored for `key`.
    pub fn get(&self, key: &str) -> (r: Option<&V>)
        ensures
            match r {
                Some(v) => self@.contains_key(key@) && *v == self@[key@],
                None => !self@.contains_key(key@),
            },
    {
        proof { use_type_invariant(self); self.lemma_unique(); }
        match self.index_of(key) {
            Some(i) => Some(&self.entries[i].1),
            None => None,
        }
    }

    /// Key of the entry at position `i`.
    pub fn key_at(&self, i: usize) -> (r: &String)
        requires
            i < self.seq().len(),
        ensures
            r@ == self.seq()[i as int].0,
    {
        &self.entries[i].0
    }

    /// Value of the entry at position `i`.
    pub fn value_at(&self, i: usize) -> (r: &V)
        requires
            i < self.seq().len(),
        ensures
            *r == self.seq()[i as int].1,
    {
        &self.entries[i].1
    }

    /// Replaces the value of the entry at position `i`.
    pub fn set_value_at(&mut self, i: usize, v: V)
        requires
            i < old(self).seq().len(),
        ensures
            final(self).seq() == old(self).seq().update(i as int, (old(self).seq()[i as int].0, v)),
    {
        proof { use_type_invariant(&*self); }
        let ghost before = self.seq();
        let mut entries = Vec::new();
        std::mem::swap(&mut entries, &mut self.entries);
        let k = entries[i].0.clone();
        entries.set(i, (k, v));
        assert(entries@.map_values(|e: (String, V)| (e.0@, e.1)) =~= before.update(i as int, (before[i as int].0, v)));
        assert(keys_unique(entries@.map_values(|e: (String, V)| (e.0@, e.1))));
        self.entries = entries;
    }

    /// Puts `v` at position `i` and returns the value that was there.
    pub fn replace_value(&mut self, i: usize, v: V) -> (r: V)
        requires
            i < old(self).seq().len(),
        ensures
            r == old(self).seq()[i as int].1,
            final(self).seq() == old(self).seq().update(i as int, (old(self).seq()[i as int].0, v)),
    {
        proof { use_type_invariant(&*self); }
        let ghost before = self.seq();
        let mut entries = Vec::new();
        std::mem::swap(&mut entries, &mut self.entries);
        let (k, old_v) = entries.remove(i);
        entries.insert(i, (k, v));
        assert(entries@.map_values(|e: (String, V)| (e.0@, e.1)) =~= before.update(i as int, (before[i as int].0, v)));
        assert(keys_unique(entries@.map_values(|e: (String, V)| (e.0@, e.1))));
        self.entries = entries;
        old_v
    }

    /// Stores `value` under `key`: in place if the key is present, else at the end.
    pub fn insert(&mut self, key: String, value: V)
        ensures
            final(self)@ == old(self)@.insert(key@, value),
            match old(self).index_of_spec(key@) {
                Some(i) => final(self).seq() == old(self).seq().update(i, (key@, value)),
                None => final(self).seq() == old(self).seq().push((key@, value)),
            },
    {
        proof { use_type_invariant(&*self); self.lemma_unique(); }
        let ghost before = self.seq();
        match self.index_of(key.as_str()) {
            Some(i) => {
                proof { self.lemma_index_of_spec(key@, i as int); }
                self.set_value_at(i, value);
                proof {
                    use_type_invariant(&*self);
                    self.lemma_unique();
                    assert forall|k: Seq<char>| #[trigger] self@.contains_key(k) <==> old(self)@.insert(key@, value).contains_key(k) by {
                        if has_key(before, k) {
                            let j = choose|j: int| 0 <= j < before.len() && #[trigger] before[j].0 == k;
                            assert(self.seq()[j].0 == k);
                        }
                        if has_key(self.seq(), k) {
                            let j = choose|j: int| 0 <= j < self.seq().len() && #[trigger] self.seq()[j].0 == k;
                            assert(before[j].0 == k);
                        }
                    }
                    assert forall|k: Seq<char>| #[trigger] self@.contains_key(k) implies self@[k] == old(self)@.insert(key@, value)[k] by {
                        let j = choose|j: int| 0 <= j < self.seq().len() && #[trigger] self.seq()[j].0 == k;
                        assert(self.seq()[j].0 == k);
                    }
                    assert(self@ =~= old(self)@.insert(key@, value));
                }
            },
            None => {
                proof { self.lemma_index_of_spec_none(key@); }
                let mut entries = Vec::new();
                std::mem::swap(&mut entries, &mut self.entries);
                entries.push((key, value));
                let ghost after = entries@.map_values(|e: (String, V)| (e.0@, e.1));
                assert(after =~= before.push((key@, value)));
                assert(keys_unique(after)) by {
                    assert forall|a: int, b: int| 0 <= a < after.len() && 0 <= b < after.len() && a != b implies after[a].0 != after[b].0 by {
                        if a == before.len() as int {
                            assert(before[b].0 != key@);
                        } else if b == before.len() as int {
                            assert(before[a].0 != key@);
                        }
                    }
                }
                self.entries = entries;
                proof {
                    use_type_invariant(&*self);
                    self.lemma_unique();
                    assert forall|k: Seq<char>| #[trigger] self@.contains_key(k) <==> old(self)@.insert(key@, value).contains_key(k) by {
                        if has_key(before, k) {
                            let j = choose|j: int| 0 <= j < before.len() && #[trigger] before[j].0 == k;
                            assert(self.seq()[j].0 == k);
                        }
                        if k == key@ {
                            assert(self.seq()[before.len() as int].0 == k);
                        }
                        if has_key(self.seq(), k) && k != key@ {
                            let j = choose|j: int| 0 <= j < self.seq().len() && #[trigger] self.seq()[j].0 == k;
                            assert(before[j].0 == k);
                        }
                    }
                    assert forall|k: Seq<char>| #[trigger] self@.contains_key(k) implies self@[k] == old(self)@.insert(key@, value)[k] by {
                        let j = choose|j: int| 0 <= j < self.seq().len() && #[trigger] self.seq()[j].0 == k;
                        assert(self.seq()[j].0 == k);
                        if j < before.len() {
                            assert(before[j].0 == k);
                        }
                    }
                    assert(self@ =~= old(self)@.insert(key@, value));
                }
            },
        }
    }

    /// Removes the entry for `key`, keeping the order of the others.
    pub fn remove(&mut self, key: &str) -> (r: Option<V>)
        ensures
            final(self)@ == old(self)@.remove(key@),
            match r {
                Some(v) => old(self)@.contains_key(key@) && v == old(self)@[key@],
                None => !old(self)@.contains_key(key@),
            },
            match old(self).index_of_spec(key@) {
                Some(i) => final(self).seq() == old(self).seq().remove(i),
                None => final(self).seq() == old(self).seq(),
            },
    {
        proof { use_type_invariant(&*self); self.lemma_unique(); }
        let ghost before = self.seq();
        match self.index_of(key) {
            Some(i) => {
                proof { self.lemma_index_of_spec(key@, i as int); }
                let mut entries = Vec::new();
                std::mem::swap(&mut entries, &mut self.entries);
                let (_k, v) = entries.remove(i);
                assert(v == before[i as int].1);
                assert(old(self)@.contains_key(old(self).seq()[i as int].0));
                let ghost after = entries@.map_values(|e: (String, V)| (e.0@, e.1));
                assert(after =~= before.remove(i as int));
                assert(keys_unique(after)) by {
                    assert forall|a: int, b: int| 0 <= a < after.len() && 0 <= b < after.len() && a != b implies after[a].0 != after[b].0 by {
                        let a2 = if a < i { a } else { a + 1 };
                        let b2 = if b < i { b } else { b + 1 };
                        assert(after[a] == before[a2] && after[b] == before[b2]);
                    }
                }
                self.entries = entries;
                proof {
                    use_type_invariant(&*self);
                    self.lemma_unique();
                    assert forall|k: Seq<char>| #[trigger] self@.contains_key(k) <==> old(self)@.remove(key@).contains_key(k) by {
                        if has_key(before, k) && k != key@ {
                            let j = choose|j: int| 0 <= j < before.len() && #[trigger] before[j].0 == k;
                            let j2 = if j < i { j } else { j - 1 };
                            assert(self.seq()[j2].0 == k);
                        }
                        if has_key(self.seq(), k) {
                            let j = choose|j: int| 0 <= j < self.seq().len() && #[trigger] self.seq()[j].0 == k;
                            let j2 = if j < i { j } else { j + 1 };
                            assert(before[j2].0 == k);
                        }
                    }
                    assert forall|k: Seq<char>| #[trigger] self@.contains_key(k) implies self@[k] == old(self)@.remove(key@)[k] by {
                        let j = choose|j: int| 0 <= j < self.seq().len() && #[trigger] self.seq()[j].0 == k;
                        let j2 = if j < i { j } else { j + 1 };
                        assert(before[j2].0 == k);
                    }
                    assert(self@ =~= old(self)@.remove(key@));
                }
                Some(v)
            },
            None => {
                proof {
                    self.lemma_index_of_spec_none(key@);
                    assert(self@ =~= old(self)@.remove(key@));
                }
                None
            },
        }
    }

    /// Position of the entry with key `k`, in spec form.
    pub open spec fn index_of_spec(&self, k: Seq<char>) -> Option<int> {
        key_index(self.seq(), k)
    }

    /// The spec position is the unique position holding the key.
    pub proof fn lemma_index_of_spec(&self, k: Seq<char>, i: int)
        requires
            self.inv(),
            0 <= i < self.seq().len(),
            self.seq()[i].0 == k,
        ensures
            self.index_of_spec(k) == Some(i),
    {
        let j = choose|j: int| 0 <= j < self.seq().len() && #[trigger] self.seq()[j].0 == k;
        assert(self.seq()[j].0 == k);
    }

    /// Without an entry for the key there is no spec position.
    pub proof fn lemma_index_of_spec_none(&self, k: Seq<char>)
        requires
            !has_key(self.seq(), k),
        ensures
            self.index_of_spec(k) == None::<int>,
    {
    }
}

/// The entries with each value taken by its view.
pub open spec fn viewed<V: View>(s: EntrySeq<V>) -> Seq<(Seq<char>, V::V)> {
    s.map_values(|e: (Seq<char>, V)| (e.0, e.1@))
}

/// Stores `x` under `k`: in place where `k` already is, else at the end.
pub open spec fn put_entry<W>(s: Seq<(Seq<char>, W)>, k: Seq<char>, x: W) -> Seq<(Seq<char>, W)> {
    match key_index(s, k) {
        Some(i) => s.update(i, (k, x)),
        None => s.push((k, x)),
    }
}

/// Viewing the values keeps the keys, so their uniqueness and positions.
pub proof fn lemma_viewed_keys<V: View>(s: EntrySeq<V>)
    requires
        keys_unique(s),
    ensures
        keys_unique(viewed(s)),
        viewed(s).len() == s.len(),
        forall|k: Seq<char>| #[trigger] has_key(viewed(s), k) <==> has_key(s, k),
        forall|k: Seq<char>| #[trigger] key_index(viewed(s), k) == key_index(s, k),
{
    let t = viewed(s);
    assert forall|a: int, b: int| 0 <= a < t.len() && 0 <= b < t.len() && a != b implies #[trigger] t[a].0 != #[trigger] t[b].0 by {
        assert(t[a].0 == s[a].0 && t[b].0 == s[b].0);
    }
    assert forall|k: Seq<char>| #[trigger] has_key(t, k) <==> has_key(s, k) by {
        if has_key(t, k) {
            let j = choose|j: int| 0 <= j < t.len() && #[trigger] t[j].0 == k;
            assert(s[j].0 == k);
        }
        if has_key(s, k) {
            let j = choose|j: int| 0 <= j < s.len() && #[trigger] s[j].0 == k;
            assert(t[j].0 == k);
        }
    }
    assert forall|k: Seq<char>| #[trigger] key_index(t, k) == key_index(s, k) by {
        if has_key(s, k) {
            let j = choose|j: int| 0 <= j < s.len() && #[trigger] s[j].0 == k;
            assert(t[j].0 == k);
            lemma_key_index(s, k, j);
            lemma_key_index(t, k, j);
        }
    }
}

/// Entries whose keys agree position by position with a unique-keyed
/// sequence have unique keys, at the same positions.
pub proof fn lemma_same_keys<V, W>(s: EntrySeq<V>, t: Seq<(Seq<char>, W)>)
    requires
        keys_unique(s),
        t.len() == s.len(),
        forall|i: int| 0 <= i < s.len() ==> #[trigger] t[i].0 == s[i].0,
    ensures
        keys_unique(t),
        forall|k: Seq<char>| #[trigger] has_key(t, k) <==> has_key(s, k),
        forall|k: Seq<char>| #[trigger] key_index(t, k) == key_index(s, k),
{
    assert forall|a: int, b: int| 0 <= a < t.len() && 0 <= b < t.len() && a != b implies #[trigger] t[a].0 != #[trigger] t[b].0 by {
        assert(t[a].0 == s[a].0 && t[b].0 == s[b].0);
    }
    assert forall|k: Seq<char>| #[trigger] has_key(t, k) <==> has_key(s, k) by {
        if has_key(t, k) {
            let j = choose|j: int| 0 <= j < t.len() && #[trigger] t[j].0 == k;
            assert(s[j].0 == k);
        }
        if has_key(s, k) {
            let j = choose|j: int| 0 <= j < s.len() && #[trigger] s[j].0 == k;
            assert(t[j].0 == k);
        }
    }
    assert forall|k: Seq<char>| #[trigger] key_index(t, k) == key_index(s, k) by {
        if has_key(s, k) {
            let j = choose|j: int| 0 <= j < s.len() && #[trigger] s[j].0 == k;
            assert(t[j].0 == k);
            lemma_key_index(s, k, j);
            lemma_key_index(t, k, j);
        }
    }
}

impl<V: View> KeyedMap<V> {
    /// Position of the entry for `key`, as `key_index` of the viewed entries gives it.
    pub fn lookup(&self, key: &str) -> (r: Option<usize>)
        ensures
            match r {
                Some(i) => i < self.seq().len() && key_index(viewed(self.seq()), key@) == Some(i as int),
                None => key_index(viewed(self.seq()), key@) is None,
            },
    {
        proof {
            use_type_invariant(self);
            lemma_viewed_keys(self.seq());
        }
        match self.index_of(key) {
            Some(i) => {
                proof { lemma_key_index(self.seq(), key@, i as int); }
                Some(i)
            },
            None => None,
        }
    }

    /// Stores `value` under `key`, in place or at the end.
    pub fn store(&mut self, key: String, value: V)
        ensures
            viewed(final(self).seq()) == put_entry(viewed(old(self).seq()), key@, value@),
    {
        proof {
            use_type_invariant(&*self);
            lemma_viewed_keys(self.seq());
        }
        let ghost before = self.seq();
        let ghost k = key@;
        let ghost x = value@;
        self.insert(key, value);
        proof {
            match key_index(before, k) {
                Some(i) => { assert(viewed(self.seq()) =~= viewed(before).update(i, (k, x))); },
                None => { assert(viewed(self.seq()) =~= viewed(before).push((k, x))); },
            }
        }
    }

    /// Replaces the value at position `i`, keeping its key.
    pub fn replace_at(&mut self, i: usize, value: V)
        requires
            i < old(self).seq().len(),
        ensures
            viewed(final(self).seq()) == viewed(old(self).seq()).update(i as int, (old(self).seq()[i as int].0, value@)),
            final(self).seq().len() == old(self).seq().len(),
    {
        let ghost x = value@;
        self.set_value_at(i, value);
        proof {
            assert(viewed(self.seq()) =~= viewed(old(self).seq()).update(i as int, (old(self).seq()[i as int].0, x)));
        }
    }
}

impl KeyedMap<i64> {
    /// A copy of the map.
    pub fn duplicate(&self) -> (r: Self)
        ensures
            r.seq() == self.seq(),
            r@ == self@,
    {
        proof { use_type_invariant(self); }
        let mut entries: Vec<(String, i64)> = Vec::new();
        let mut i: usize = 0;
        while i < self.entries.len()
            invariant
                i <= self.entries@.len(),
                entries@.len() == i,
                keys_unique(self.seq()),
                entries@.map_values(|e: (String, i64)| (e.0@, e.1)) == self.seq().subrange(0, i as int),
            decreases self.entries.len() - i,
        {
            let k = self.entries[i].0.clone();
            let v = self.entries[i].1;
            let ghost before = entries@;
            entries.push((k, v));
            proof {
                assert(self.seq()[i as int] == (self.entries@[i as int].0@, self.entries@[i as int].1));
                assert(before.map_values(|e: (String, i64)| (e.0@, e.1)) =~= self.seq().subrange(0, i as int));
                assert(entries@ == before.push((k, v)));
                let m = entries@.map_values(|e: (String, i64)| (e.0@, e.1));
                let t = self.seq().subrange(0, i + 1);
                assert(self.seq().len() == self.entries@.len());
                assert(before.len() == i);
                assert(m.len() == t.len());
                assert forall|j: int| 0 <= j < m.len() implies m[j] == t[j] by {
                    if j < i {
                        assert(m[j] == before.map_values(|e: (String, i64)| (e.0@, e.1))[j]);
                    } else {
                        assert(m[j] == (entries@[j].0@, entries@[j].1));
                    }
                }
                assert(m =~= t);
            }
            i = i + 1;
        }
        proof { assert(self.seq().subrange(0, i as int) =~= self.seq()); }
        let r = KeyedMap { entries };
        proof { assert(r.seq() =~= self.seq()); }
        r
    }
}

impl<V> View for KeyedMap<V> {
    type V = Map<Seq<char>, V>;

    closed spec fn view(&self) -> Map<Seq<char>, V> {
        map_of(self.seq())
    }
}

} // verus!
