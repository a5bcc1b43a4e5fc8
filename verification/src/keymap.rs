//! A map from texts to values that can be walked in the order of its keys' arrival.
use vstd::prelude::*;

use crate::text;

verus! {

/// A value that can be copied with all that it shows.
pub trait Duplicate: DeepView + Sized {
    /// A copy that shows the same.
    fn duplicate(&self) -> (r: Self)
        ensures
            r.deep_view() == self.deep_view(),
    ;
}

impl Duplicate for u64 {
    fn duplicate(&self) -> (r: Self) {
        *self
    }
}

impl Duplicate for String {
    fn duplicate(&self) -> (r: Self) {
        self.clone()
    }
}

/// A map with texts for keys. No key occurs twice.
pub struct KeyMap<V> {
    entries: Vec<(String, V)>,
}

/// The keys of the entries, in order.
spec fn entry_keys<V>(entries: Seq<(String, V)>) -> Seq<Seq<char>> {
    Seq::new(entries.len(), |i: int| entries[i].0@)
}

/// Where a key stands among the entries.
spec fn place<V>(entries: Seq<(String, V)>, key: Seq<char>, i: int) -> bool {
    0 <= i < entries.len() && entries[i].0@ == key
}

/// The map that the entries stand for.
spec fn entry_map<V: DeepView>(entries: Seq<(String, V)>) -> Map<Seq<char>, V::V> {
    Map::new(
        |key: Seq<char>| exists|i: int| place(entries, key, i),
        |key: Seq<char>| entries[choose|i: int| place(entries, key, i)].1.deep_view(),
    )
}

/// Whether no two entries have the same key.
spec fn distinct<V>(entries: Seq<(String, V)>) -> bool {
    forall|i: int, j: int|
        0 <= i < entries.len() && 0 <= j < entries.len() && #[trigger] entries[i].0@
            == #[trigger] entries[j].0@ ==> i == j
}

impl<V> KeyMap<V> {
    #[verifier::type_invariant]
    spec fn well_formed(self) -> bool {
        distinct(self.entries@)
    }

    /// The keys, in the order in which they came.
    pub closed spec fn keys(&self) -> Seq<Seq<char>> {
        entry_keys(self.entries@)
    }
}

impl<V: DeepView> DeepView for KeyMap<V> {
    type V = Map<Seq<char>, V::V>;

    closed spec fn deep_view(&self) -> Map<Seq<char>, V::V> {
        entry_map(self.entries@)
    }
}

/// The keys after `key` has been given a value.
pub open spec fn keys_with(keys: Seq<Seq<char>>, key: Seq<char>) -> Seq<Seq<char>> {
    if keys.contains(key) {
        keys
    } else {
        keys.push(key)
    }
}

/// The map that the pairs leave behind when each is put in after those before it.
pub open spec fn map_of_pairs<V: DeepView>(pairs: Seq<(String, V)>) -> Map<Seq<char>, V::V>
    decreases pairs.len(),
{
    if pairs.len() == 0 {
        Map::empty()
    } else {
        map_of_pairs(pairs.drop_last()).insert(pairs.last().0@, pairs.last().1.deep_view())
    }
}

/// The order of the keys that the pairs leave behind.
pub open spec fn keys_of_pairs<V>(pairs: Seq<(String, V)>) -> Seq<Seq<char>>
    decreases pairs.len(),
{
    if pairs.len() == 0 {
        Seq::empty()
    } else {
        keys_with(keys_of_pairs(pairs.drop_last()), pairs.last().0@)
    }
}

proof fn lemma_lookup<V: DeepView>(entries: Seq<(String, V)>, i: int)
    requires
        distinct(entries),
        0 <= i < entries.len(),
    ensures
        entry_map(entries).contains_key(entries[i].0@),
        entry_map(entries)[entries[i].0@] == entries[i].1.deep_view(),
{
    assert(place(entries, entries[i].0@, i));
}

proof fn lemma_dom<V: DeepView>(entries: Seq<(String, V)>)
    ensures
        entry_map(entries).dom() == entry_keys(entries).to_set(),
        distinct(entries) ==> entry_keys(entries).no_duplicates(),
{
    assert forall|key: Seq<char>|
        entry_map(entries).dom().contains(key) == entry_keys(entries).to_set().contains(key) by {
        if entry_map(entries).contains_key(key) {
            let i = choose|i: int| place(entries, key, i);
            assert(entry_keys(entries)[i] == key);
        }
        if entry_keys(entries).contains(key) {
            let i = choose|i: int|
                0 <= i < entry_keys(entries).len() && entry_keys(entries)[i] == key;
            assert(place(entries, key, i));
        }
    }
    assert(entry_map(entries).dom() =~= entry_keys(entries).to_set());
}

proof fn lemma_update<V: DeepView>(entries: Seq<(String, V)>, i: int, v: V)
    requires
        distinct(entries),
        0 <= i < entries.len(),
    ensures
        distinct(entries.update(i, (entries[i].0, v))),
        entry_map(entries.update(i, (entries[i].0, v))) == entry_map(entries).insert(
            entries[i].0@,
            v.deep_view(),
        ),
        entry_keys(entries.update(i, (entries[i].0, v))) == entry_keys(entries),
{
    let key = entries[i].0@;
    let after = entries.update(i, (entries[i].0, v));
    let want = entry_map(entries).insert(key, v.deep_view());
    assert(entry_keys(after) =~= entry_keys(entries));
    lemma_dom(entries);
    lemma_dom(after);
    lemma_lookup(entries, i);
    assert(entry_map(after).dom() =~= want.dom());
    assert forall|k: Seq<char>| entry_map(after).contains_key(k) implies entry_map(after)[k]
        == want[k] by {
        let j = choose|j: int| place(after, k, j);
        lemma_lookup(after, j);
        assert(place(entries, k, j));
        lemma_lookup(entries, j);
    }
    assert(entry_map(after) =~= want);
}

proof fn lemma_push<V: DeepView>(entries: Seq<(String, V)>, key: String, v: V)
    requires
        distinct(entries),
        !entry_keys(entries).contains(key@),
    ensures
        distinct(entries.push((key, v))),
        entry_map(entries.push((key, v))) == entry_map(entries).insert(key@, v.deep_view()),
        entry_keys(entries.push((key, v))) == entry_keys(entries).push(key@),
{
    let after = entries.push((key, v));
    let want = entry_map(entries).insert(key@, v.deep_view());
    assert(entry_keys(after) =~= entry_keys(entries).push(key@));
    assert forall|i: int, j: int|
        0 <= i < after.len() && 0 <= j < after.len() && #[trigger] after[i].0@
            == #[trigger] after[j].0@ implies i == j by {
        if i < entries.len() && j == entries.len() {
            assert(entry_keys(entries)[i] == key@);
        }
        if j < entries.len() && i == entries.len() {
            assert(entry_keys(entries)[j] == key@);
        }
    }
    lemma_dom(entries);
    lemma_dom(after);
    assert(entry_map(after).dom() =~= want.dom()) by {
        assert forall|k: Seq<char>|
            entry_keys(entries).push(key@).contains(k) == (entry_keys(entries).contains(k) || k
                == key@) by {
            let ks = entry_keys(entries);
            if ks.contains(k) {
                let i = choose|i: int| 0 <= i < ks.len() && ks[i] == k;
                assert(ks.push(key@)[i] == k);
            }
            assert(ks.push(key@)[ks.len() as int] == key@);
        }
    }
    assert forall|k: Seq<char>| entry_map(after).contains_key(k) implies entry_map(after)[k]
        == want[k] by {
        let j = choose|j: int| place(after, k, j);
        lemma_lookup(after, j);
        if j < entries.len() {
            assert(place(entries, k, j));
            lemma_lookup(entries, j);
            assert(entry_keys(entries)[j] == k);
        }
    }
    assert(entry_map(after) =~= want);
}

impl<V: DeepView> KeyMap<V> {
    /// A map without entries.
    pub fn new() -> (r: Self)
        ensures
            r.deep_view() == Map::<Seq<char>, V::V>::empty(),
            r.keys() == Seq::<Seq<char>>::empty(),
    {
        let r = KeyMap { entries: Vec::new() };
        assert(r.deep_view() =~= Map::<Seq<char>, V::V>::empty());
        assert(r.keys() =~= Seq::<Seq<char>>::empty());
        r
    }

    /// The map that the pairs leave behind when each is put in after those before it.
    pub fn from_pairs(pairs: Vec<(String, V)>) -> (r: Self)
        ensures
            r.deep_view() == map_of_pairs(pairs@),
            r.keys() == keys_of_pairs(pairs@),
    {
        let ghost all = pairs@;
        let mut rest = pairs;
        let mut back: Vec<(String, V)> = Vec::new();
        // The pairs are taken from the end, so they are turned round first.
        while rest.len() > 0
            invariant
                rest@.len() + back@.len() == all.len(),
                rest@ == all.take(rest@.len() as int),
                forall|i: int| 0 <= i < back@.len() ==> back@[i] == #[trigger] all[all.len() - 1 - i],
            decreases rest@.len(),
        {
            match rest.pop() {
                Some(pair) => {
                    back.push(pair);
                },
                None => {},
            }
            assert(rest@ =~= all.take(rest@.len() as int));
            assert forall|i: int| 0 <= i < back@.len() implies back@[i] == #[trigger] all[all.len()
                - 1 - i] by {}
        }
        let mut r: Self = Self::new();
        while back.len() > 0
            invariant
                back@.len() <= all.len(),
                forall|i: int| 0 <= i < back@.len() ==> back@[i] == #[trigger] all[all.len() - 1 - i],
                r.deep_view() == map_of_pairs(all.take(all.len() - back@.len())),
                r.keys() == keys_of_pairs(all.take(all.len() - back@.len())),
            decreases back@.len(),
        {
            let ghost n = all.len() - back@.len();
            assert(back@[back@.len() - 1] == all[all.len() - 1 - (back@.len() - 1)]);
            match back.pop() {
                Some(pair) => {
                    assert(all.take(n + 1).drop_last() =~= all.take(n));
                    assert(all.take(n + 1).last() == pair);
                    r.insert(pair.0, pair.1);
                },
                None => {},
            }
        }
        assert(all.take(all.len() as int) =~= all);
        r
    }

    fn find(&self, key: &str) -> (r: Option<usize>)
        ensures
            match r {
                Some(i) => place(self.entries@, key@, i as int),
                None => !self.keys().contains(key@),
            },
    {
        let mut i: usize = 0;
        while i < self.entries.len()
            invariant
                i <= self.entries@.len(),
                forall|j: int| 0 <= j < i ==> #[trigger] self.entries@[j].0@ != key@,
            decreases self.entries@.len() - i,
        {
            if text::same_text(self.entries[i].0.as_str(), key) {
                return Some(i);
            }
            i += 1;
        }
        proof {
            if self.keys().contains(key@) {
                let j = choose|j: int| 0 <= j < self.keys().len() && self.keys()[j] == key@;
                assert(self.entries@[j].0@ == key@);
            }
        }
        None
    }

    /// The value of a key.
    pub fn get(&self, key: &str) -> (r: Option<&V>)
        ensures
            match r {
                Some(v) => self.deep_view().contains_key(key@) && v.deep_view()
                    == self.deep_view()[key@],
                None => !self.deep_view().contains_key(key@),
            },
    {
        proof {
            use_type_invariant(self);
            lemma_dom(self.entries@);
        }
        match self.find(key) {
            Some(i) => {
                proof {
                    lemma_lookup(self.entries@, i as int);
                }
                Some(&self.entries[i].1)
            },
            None => None,
        }
    }

    /// Whether a key has a value.
    pub fn contains_key(&self, key: &str) -> (r: bool)
        ensures
            r == self.deep_view().contains_key(key@),
    {
        self.get(key).is_some()
    }

    /// Gives a key its value, in place of any it had.
    pub fn insert(&mut self, key: String, value: V)
        ensures
            final(self).deep_view() == old(self).deep_view().insert(key@, value.deep_view()),
            final(self).keys() == keys_with(old(self).keys(), key@),
    {
        proof {
            use_type_invariant(&*self);
        }
        let found: Option<usize> = self.find(key.as_str());
        let mut entries: Vec<(String, V)> = Vec::new();
        let ghost before = self.entries@;
        std::mem::swap(&mut entries, &mut self.entries);
        match found {
            Some(i) => {
                proof {
                    lemma_update(before, i as int, value);
                    assert(entry_keys(before)[i as int] == key@);
                }
                let held: String = entries[i].0.clone();
                entries[i] = (held, value);
                assert(entries@ =~= before.update(i as int, (before[i as int].0, value)));
            },
            None => {
                proof {
                    lemma_push(before, key, value);
                }
                entries.push((key, value));
            },
        }
        self.entries = entries;
    }

    /// The number of keys. Each has one place in the order, and no other text has one.
    pub fn len(&self) -> (r: usize)
        ensures
            r == self.deep_view().len(),
            r == self.keys().len(),
            self.keys().no_duplicates(),
            self.keys().to_set() == self.deep_view().dom(),
    {
        proof {
            use_type_invariant(self);
            lemma_dom(self.entries@);
            self.keys().unique_seq_to_set();
        }
        self.entries.len()
    }

    /// Whether there are no keys.
    pub fn is_empty(&self) -> (r: bool)
        ensures
            r == (self.keys().len() == 0),
            r == (self.deep_view() == Map::<Seq<char>, V::V>::empty()),
    {
        proof {
            use_type_invariant(self);
            lemma_dom(self.entries@);
            if self.keys().len() == 0 {
                assert(self.deep_view() =~= Map::<Seq<char>, V::V>::empty());
            } else {
                assert(self.keys().to_set().contains(self.keys()[0]));
            }
        }
        self.entries.len() == 0
    }

    /// The key and the value that came at place `i`.
    pub fn at(&self, i: usize) -> (r: (&String, &V))
        requires
            i < self.keys().len(),
        ensures
            r.0@ == self.keys()[i as int],
            self.deep_view().contains_key(r.0@),
            r.1.deep_view() == self.deep_view()[r.0@],
    {
        proof {
            use_type_invariant(self);
            lemma_lookup(self.entries@, i as int);
        }
        (&self.entries[i].0, &self.entries[i].1)
    }
}

impl<V: Duplicate> Duplicate for KeyMap<V> {
    fn duplicate(&self) -> (r: Self)
        ensures
            r.keys() == self.keys(),
    {
        proof {
            use_type_invariant(self);
        }
        let mut entries: Vec<(String, V)> = Vec::new();
        let mut i: usize = 0;
        while i < self.entries.len()
            invariant
                i <= self.entries@.len(),
                entries@.len() == i,
                forall|j: int|
                    0 <= j < i ==> (#[trigger] entries@[j]).0@ == self.entries@[j].0@
                        && entries@[j].1.deep_view() == self.entries@[j].1.deep_view(),
            decreases self.entries@.len() - i,
        {
            let key: String = self.entries[i].0.clone();
            let value: V = self.entries[i].1.duplicate();
            entries.push((key, value));
            i += 1;
        }
        proof {
            let a = self.entries@;
            let b = entries@;
            assert(entry_keys(a) =~= entry_keys(b));
            assert(distinct(b)) by {
                assert forall|i: int, j: int|
                    0 <= i < b.len() && 0 <= j < b.len() && #[trigger] b[i].0@
                        == #[trigger] b[j].0@ implies i == j by {
                    assert(a[i].0@ == a[j].0@);
                }
            }
            lemma_dom(a);
            lemma_dom(b);
            assert forall|k: Seq<char>| entry_map(b).contains_key(k) implies entry_map(b)[k]
                == entry_map(a)[k] by {
                let j = choose|j: int| place(b, k, j);
                lemma_lookup(b, j);
                lemma_lookup(a, j);
            }
            assert(entry_map(a) =~= entry_map(b));
        }
        KeyMap { entries }
    }
}

} // verus!
