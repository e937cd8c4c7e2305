//! A table from names to values that remembers the order in which the names
//! came in.
use vstd::prelude::*;

use crate::list::put;
use crate::text::Text;

verus! {

/// What a table holds: the value of each name, and the names in order.
#[verifier::ext_equal]
pub struct Entries<V> {
    pub keys: Seq<Text>,
    pub map: Map<Text, V>,
}

impl<V> Entries<V> {
    /// No entry at all.
    pub open spec fn none() -> Self {
        Entries { keys: Seq::empty(), map: Map::empty() }
    }

    /// Every name occurs once in the order, and those are the names with a value.
    pub open spec fn valid(self) -> bool {
        &&& self.keys.no_duplicates()
        &&& forall|k: Text| #[trigger] self.map.contains_key(k) <==> self.keys.contains(k)
    }

    /// Whether the name has a value.
    pub open spec fn has(self, k: Text) -> bool {
        self.map.contains_key(k)
    }

    /// The value of a name, where it has one.
    pub open spec fn get(self, k: Text) -> Option<V> {
        if self.has(k) {
            Some(self.map[k])
        } else {
            None
        }
    }

    /// The entries with the name's value set: a new name comes last.
    pub open spec fn insert(self, k: Text, v: V) -> Self {
        Entries {
            keys: if self.has(k) {
                self.keys
            } else {
                self.keys.push(k)
            },
            map: self.map.insert(k, v),
        }
    }

    /// The entries without that name.
    pub open spec fn remove(self, k: Text) -> Self {
        Entries {
            keys: if self.has(k) {
                self.keys.remove_value(k)
            } else {
                self.keys
            },
            map: self.map.remove(k),
        }
    }

    /// Setting a value keeps the entries valid.
    pub proof fn lemma_insert(self, k: Text, v: V)
        requires
            self.valid(),
        ensures
            self.insert(k, v).valid(),
    {
        let after = self.insert(k, v);
        if !self.has(k) {
            assert(after.keys.last() == k);
        }
        assert forall|t: Text| #[trigger] after.map.contains_key(t) <==> after.keys.contains(t) by {
            if !self.has(k) {
                if self.keys.contains(t) {
                    let i = choose|i: int| 0 <= i < self.keys.len() && self.keys[i] == t;
                    assert(after.keys[i] == t);
                }
                if after.keys.contains(t) && t != k {
                    let i = choose|i: int| 0 <= i < after.keys.len() && after.keys[i] == t;
                    assert(self.keys[i] == t);
                }
                assert(after.keys[after.keys.len() - 1] == k);
            }
        }
    }

    /// Removing a name keeps the entries valid.
    pub proof fn lemma_remove(self, k: Text)
        requires
            self.valid(),
        ensures
            self.remove(k).valid(),
            !self.remove(k).has(k),
    {
        let after = self.remove(k);
        if self.has(k) {
            self.keys.index_of_first_ensures(k);
            let at = self.keys.index_of_first(k).unwrap();
            assert(after.keys == self.keys.remove(at));
            assert forall|t: Text| #[trigger] after.map.contains_key(t) <==> after.keys.contains(t) by {
                if self.keys.contains(t) && t != k {
                    let i = choose|i: int| 0 <= i < self.keys.len() && self.keys[i] == t;
                    assert(after.keys[if i < at { i } else { i - 1 }] == t);
                }
                if after.keys.contains(t) {
                    let i = choose|i: int| 0 <= i < after.keys.len() && after.keys[i] == t;
                    assert(self.keys[if i < at { i } else { i + 1 }] == t);
                }
            }
        }
    }
}

/// A table from names to values.
pub struct Table<V> {
    entries: Vec<(String, V)>,
}

impl<V> Table<V> {
    closed spec fn keys_of(entries: Seq<(String, V)>) -> Seq<Text> {
        Seq::new(entries.len(), |i: int| entries[i].0@)
    }

    #[verifier::type_invariant]
    closed spec fn each_once(self) -> bool {
        Self::keys_of(self.entries@).no_duplicates()
    }
}

impl<V: DeepView> Table<V> {
    closed spec fn map_of(entries: Seq<(String, V)>) -> Map<Text, V::V> {
        Map::new(
            |k: Text| Self::keys_of(entries).contains(k),
            |k: Text| entries[Self::keys_of(entries).index_of_first(k).unwrap()].1.deep_view(),
        )
    }

    closed spec fn entries_of(entries: Seq<(String, V)>) -> Entries<V::V> {
        Entries { keys: Self::keys_of(entries), map: Self::map_of(entries) }
    }

    /// The value that stands at a place belongs to the name there.
    proof fn lemma_at(entries: Seq<(String, V)>, i: int)
        requires
            Self::keys_of(entries).no_duplicates(),
            0 <= i < entries.len(),
        ensures
            Self::map_of(entries).contains_key(entries[i].0@),
            Self::map_of(entries)[entries[i].0@] == entries[i].1.deep_view(),
    {
        let keys = Self::keys_of(entries);
        assert(keys[i] == entries[i].0@);
        keys.index_of_first_ensures(keys[i]);
    }

    proof fn lemma_valid(entries: Seq<(String, V)>)
        requires
            Self::keys_of(entries).no_duplicates(),
        ensures
            Self::entries_of(entries).valid(),
    {
    }

    /// A table without entries.
    pub fn new() -> (t: Self)
        ensures
            t.deep_view() == Entries::<V::V>::none(),
    {
        let t = Table { entries: Vec::new() };
        assert(t.deep_view().map =~= Map::empty());
        t
    }

    /// The number of names.
    pub fn len(&self) -> (n: usize)
        ensures
            n == self.deep_view().keys.len(),
            self.deep_view().valid(),
    {
        proof {
            use_type_invariant(self);
            Self::lemma_valid(self.entries@);
        }
        self.entries.len()
    }

    /// The name at a place of the order.
    pub fn key_at(&self, i: usize) -> (k: &String)
        requires
            i < self.deep_view().keys.len(),
        ensures
            k@ == self.deep_view().keys[i as int],
    {
        &self.entries[i].0
    }

    /// The value of the name at a place of the order.
    pub fn value_at(&self, i: usize) -> (v: &V)
        requires
            i < self.deep_view().keys.len(),
        ensures
            self.deep_view().has(self.deep_view().keys[i as int]),
            v.deep_view() == self.deep_view().map[self.deep_view().keys[i as int]],
    {
        proof {
            use_type_invariant(self);
            Self::lemma_at(self.entries@, i as int);
        }
        &self.entries[i].1
    }

    /// Where the name stands.
    fn place(&self, k: &str) -> (at: Option<usize>)
        ensures
            match at {
                Some(i) => i < self.entries@.len() && self.entries@[i as int].0@ == k@,
                None => !Self::keys_of(self.entries@).contains(k@),
            },
    {
        let mut i: usize = 0;
        while i < self.entries.len()
            invariant
                i <= self.entries@.len(),
                forall|j: int| 0 <= j < i ==> self.entries@[j].0@ != k@,
            decreases self.entries@.len() - i,
        {
            if self.entries[i].0.as_str().eq(k) {
                return Some(i);
            }
            i = i + 1;
        }
        None
    }

    /// Whether the name has a value.
    pub fn contains_key(&self, k: &str) -> (answer: bool)
        ensures
            answer == self.deep_view().has(k@),
    {
        match self.place(k) {
            Some(i) => {
                assert(Self::keys_of(self.entries@)[i as int] == k@);
                true
            },
            None => false,
        }
    }

    /// The value of the name.
    pub fn get(&self, k: &str) -> (v: Option<&V>)
        ensures
            v.deep_view() == self.deep_view().get(k@),
    {
        match self.place(k) {
            Some(i) => {
                proof {
                    use_type_invariant(self);
                    Self::lemma_at(self.entries@, i as int);
                }
                Some(&self.entries[i].1)
            },
            None => None,
        }
    }

    /// The names in order.
    pub fn keys(&self) -> (all: Vec<String>)
        ensures
            all.deep_view() == self.deep_view().keys,
            self.deep_view().valid(),
    {
        let mut all: Vec<String> = Vec::new();
        let mut i: usize = 0;
        let n: usize = self.len();
        while i < n
            invariant
                i <= n == self.deep_view().keys.len(),
                all.deep_view() == self.deep_view().keys.take(i as int),
            decreases n - i,
        {
            put(&mut all, self.key_at(i).clone());
            i = i + 1;
        }
        all
    }

    /// Sets the value of the name.
    pub fn insert(&mut self, k: String, v: V)
        ensures
            final(self).deep_view() == old(self).deep_view().insert(k@, v.deep_view()),
            final(self).deep_view().valid(),
    {
        proof {
            use_type_invariant(&*self);
        }
        let at = self.place(k.as_str());
        let mut entries: Vec<(String, V)> = Vec::new();
        std::mem::swap(&mut entries, &mut self.entries);
        let ghost before = entries@;
        let ghost key = k@;
        let ghost value = v.deep_view();
        match at {
            Some(i) => {
                entries.set(i, (k, v));
                proof {
                    let after = entries@;
                    assert(Self::keys_of(before)[i as int] == key);
                    assert(Self::keys_of(after) =~= Self::keys_of(before));
                    assert forall|t: Text| #[trigger] Self::map_of(after).contains_key(t) implies
                        Self::map_of(after)[t] == Self::map_of(before).insert(key, value)[t] by {
                        let j = choose|j: int| 0 <= j < after.len() && Self::keys_of(after)[j] == t;
                        Self::lemma_at(after, j);
                        Self::lemma_at(before, j);
                    }
                    assert(Self::map_of(after) =~= Self::map_of(before).insert(key, value));
                }
            },
            None => {
                entries.push((k, v));
                proof {
                    let after = entries@;
                    assert(Self::keys_of(after) =~= Self::keys_of(before).push(key));
                    Self::entries_of(before).lemma_insert(key, value);
                    assert forall|t: Text| #[trigger] Self::map_of(after).contains_key(t) implies
                        Self::map_of(after)[t] == Self::map_of(before).insert(key, value)[t] by {
                        let j = choose|j: int| 0 <= j < after.len() && Self::keys_of(after)[j] == t;
                        Self::lemma_at(after, j);
                        if j < before.len() {
                            Self::lemma_at(before, j);
                        }
                    }
                    assert forall|t: Text| Self::map_of(after).contains_key(t)
                        <==> #[trigger] Self::map_of(before).insert(key, value).contains_key(t) by {
                        assert(Self::entries_of(before).insert(key, value).map.contains_key(t)
                            <==> Self::keys_of(after).contains(t));
                    }
                    assert(Self::map_of(after) =~= Self::map_of(before).insert(key, value));
                }
            },
        }
        self.entries = entries;
    }

    /// Removes the name and hands back its value.
    pub fn remove(&mut self, k: &str) -> (v: Option<V>)
        ensures
            final(self).deep_view() == old(self).deep_view().remove(k@),
            final(self).deep_view().valid(),
            v.deep_view() == old(self).deep_view().get(k@),
    {
        proof {
            use_type_invariant(&*self);
        }
        let at = self.place(k);
        let mut entries: Vec<(String, V)> = Vec::new();
        std::mem::swap(&mut entries, &mut self.entries);
        let ghost before = entries@;
        let ghost key = k@;
        match at {
            Some(i) => {
                let (_, v) = entries.remove(i);
                proof {
                    let after = entries@;
                    let all = Self::keys_of(before);
                    assert(all[i as int] == key);
                    Self::lemma_at(before, i as int);
                    all.index_of_first_ensures(key);
                    assert(all.remove_value(key) =~= all.remove(i as int));
                    assert(Self::keys_of(after) =~= all.remove(i as int));
                    Self::entries_of(before).lemma_remove(key);
                    assert forall|t: Text| #[trigger] Self::map_of(after).contains_key(t) implies
                        Self::map_of(after)[t] == Self::map_of(before).remove(key)[t] by {
                        let j = choose|j: int| 0 <= j < after.len() && Self::keys_of(after)[j] == t;
                        Self::lemma_at(after, j);
                        Self::lemma_at(before, if j < i { j } else { j + 1 });
                    }
                    assert forall|t: Text| Self::map_of(after).contains_key(t)
                        <==> #[trigger] Self::map_of(before).remove(key).contains_key(t) by {
                        assert(Self::entries_of(before).remove(key).map.contains_key(t)
                            <==> Self::keys_of(after).contains(t));
                    }
                    assert(Self::map_of(after) =~= Self::map_of(before).remove(key));
                }
                self.entries = entries;
                Some(v)
            },
            None => {
                assert(Self::map_of(before).remove(key) =~= Self::map_of(before));
                self.entries = entries;
                None
            },
        }
    }
}

/// Values that can be copied without a change in what they stand for.
pub trait Duplicate: DeepView + Sized {
    /// A copy of the value.
    fn duplicate(&self) -> (copy: Self)
        ensures
            copy.deep_view() == self.deep_view(),
    ;
}

impl<V: Duplicate> Duplicate for Table<V> {
    fn duplicate(&self) -> (copy: Self) {
        let mut copy: Table<V> = Table::new();
        let ghost model = self.deep_view();
        let mut i: usize = 0;
        let n: usize = self.len();
        assert(Entries::<V::V> {
            keys: model.keys.take(0),
            map: model.map.restrict(model.keys.take(0).to_set()),
        } =~= Entries::none());
        while i < n
            invariant
                i <= n == model.keys.len(),
                model == self.deep_view(),
                model.valid(),
                copy.deep_view() == (Entries::<V::V> {
                    keys: model.keys.take(i as int),
                    map: model.map.restrict(model.keys.take(i as int).to_set()),
                }),
            decreases n - i,
        {
            let ghost before = copy.deep_view();
            let ghost key = model.keys[i as int];
            assert(model.keys.contains(key));
            assert(!model.keys.take(i as int).contains(key));
            copy.insert(self.key_at(i).clone(), self.value_at(i).duplicate());
            proof {
                let front = model.keys.take(i + 1);
                assert(front == model.keys.take(i as int).push(key));
                assert forall|t: Text| front.contains(t) <==> model.keys.take(i as int).contains(t)
                    || t == key by {
                    if model.keys.take(i as int).contains(t) {
                        let j = choose|j: int| 0 <= j < i && model.keys.take(i as int)[j] == t;
                        assert(front[j] == t);
                    }
                    assert(front[i as int] == key);
                    if front.contains(t) && t != key {
                        let j = choose|j: int| 0 <= j <= i && front[j] == t;
                        assert(model.keys.take(i as int)[j] == t);
                    }
                }
                assert(copy.deep_view().map =~= model.map.restrict(front.to_set()));
            }
            i = i + 1;
        }
        assert(model.keys.take(n as int) == model.keys);
        assert(model.map.restrict(model.keys.to_set()) =~= model.map);
        copy
    }
}

impl<V: DeepView> DeepView for Table<V> {
    type V = Entries<V::V>;

    closed spec fn deep_view(&self) -> Entries<V::V> {
        Self::entries_of(self.entries@)
    }
}

/// What was set for a name is what it has, until it is set anew or removed; and
/// no other name is touched by that.
pub proof fn law_names_are_independent<V>(entries: Entries<V>, k: Text, other: Text, v: V)
    requires
        other != k,
    ensures
        entries.insert(k, v).get(k) == Some(v),
        entries.insert(k, v).get(other) == entries.get(other),
        entries.remove(k).get(k) is None,
        entries.remove(k).get(other) == entries.get(other),
        entries.insert(k, v).keys.len() == if entries.has(k) {
            entries.keys.len()
        } else {
            entries.keys.len() + 1
        },
        !entries.has(k) ==> entries.insert(k, v).keys.last() == k,
        !entries.has(k) ==> entries.remove(k).keys == entries.keys,
        entries.has(k) <==> entries.get(k) is Some,
{
}

} // verus!
