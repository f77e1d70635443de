//! Tables keyed by name that keep the order in which names were first
//! entered, so that every walk over a table is the same walk on every run.

use vstd::prelude::*;

verus! {

/// `i` is the first position of `key` in `keys`.
pub open spec fn is_first_at(keys: Seq<Seq<char>>, key: Seq<char>, i: int) -> bool {
    &&& 0 <= i < keys.len()
    &&& keys[i] == key
    &&& forall|j: int| 0 <= j < i ==> keys[j] != key
}

/// The first position of `key` in `keys`, if it occurs.
pub open spec fn position_of(keys: Seq<Seq<char>>, key: Seq<char>) -> Option<int> {
    if exists|i: int| is_first_at(keys, key, i) {
        Some(choose|i: int| is_first_at(keys, key, i))
    } else {
        None
    }
}

/// No key occurs twice.
pub open spec fn distinct_keys(keys: Seq<Seq<char>>) -> bool {
    forall|i: int, j: int| 0 <= i < j < keys.len() ==> keys[i] != keys[j]
}

/// `position_of` is `Some(i)` exactly where `i` is the first position.
pub proof fn lemma_position_of(keys: Seq<Seq<char>>, key: Seq<char>, i: int)
    requires
        is_first_at(keys, key, i),
    ensures
        position_of(keys, key) == Some(i),
{
    let c = choose|c: int| is_first_at(keys, key, c);
    if c < i {
        assert(keys[c] == key);
    } else if i < c {
        assert(keys[i] == key);
    }
}

/// `position_of` is `None` exactly where the key does not occur.
pub proof fn lemma_position_none(keys: Seq<Seq<char>>, key: Seq<char>)
    requires
        forall|j: int| 0 <= j < keys.len() ==> keys[j] != key,
    ensures
        position_of(keys, key) is None,
{
    if exists|i: int| is_first_at(keys, key, i) {
        let c = choose|c: int| is_first_at(keys, key, c);
        assert(keys[c] == key);
    }
}

/// What `position_of` returns is a first position.
pub proof fn lemma_position_some(keys: Seq<Seq<char>>, key: Seq<char>)
    ensures
        match position_of(keys, key) {
            Some(i) => is_first_at(keys, key, i),
            None => forall|j: int| 0 <= j < keys.len() ==> keys[j] != key,
        },
{
    if !(exists|i: int| is_first_at(keys, key, i)) {
        assert forall|j: int| 0 <= j < keys.len() implies keys[j] != key by {
            if keys[j] == key {
                lemma_first_exists(keys, key, j);
            }
        }
    }
}

/// A key that occurs has a first position.
pub proof fn lemma_first_exists(keys: Seq<Seq<char>>, key: Seq<char>, j: int)
    requires
        0 <= j < keys.len(),
        keys[j] == key,
    ensures
        exists|i: int| is_first_at(keys, key, i),
    decreases j,
{
    if forall|k: int| 0 <= k < j ==> keys[k] != key {
        assert(is_first_at(keys, key, j));
    } else {
        let k = choose|k: int| 0 <= k < j && keys[k] == key;
        lemma_first_exists(keys, key, k);
    }
}

/// The keys of an association sequence, in order.
pub open spec fn assoc_keys<T>(s: Seq<(Seq<char>, T)>) -> Seq<Seq<char>> {
    Seq::new(s.len(), |i: int| s[i].0)
}

/// The position of `key` in an association sequence.
pub open spec fn assoc_index<T>(s: Seq<(Seq<char>, T)>, key: Seq<char>) -> Option<int> {
    position_of(assoc_keys(s), key)
}

/// The value that an association sequence holds for `key`.
pub open spec fn assoc_get<T>(s: Seq<(Seq<char>, T)>, key: Seq<char>) -> Option<T> {
    match assoc_index(s, key) {
        Some(i) => Some(s[i].1),
        None => None,
    }
}

/// The sequence with `value` under `key`: in the old place where the key
/// occurs, at the end where it does not.
pub open spec fn assoc_put<T>(s: Seq<(Seq<char>, T)>, key: Seq<char>, value: T) -> Seq<
    (Seq<char>, T),
> {
    match assoc_index(s, key) {
        Some(i) => s.update(i, (key, value)),
        None => s.push((key, value)),
    }
}

/// What `assoc_put` does to the keys and to every lookup.
pub proof fn lemma_assoc_put<T>(s: Seq<(Seq<char>, T)>, key: Seq<char>, value: T)
    ensures
        assoc_get(assoc_put(s, key, value), key) == Some(value),
        forall|k: Seq<char>| k != key ==> assoc_get(assoc_put(s, key, value), k) == assoc_get(s, k),
        assoc_keys(assoc_put(s, key, value)) == (match assoc_index(s, key) {
            Some(i) => assoc_keys(s),
            None => assoc_keys(s).push(key),
        }),
        distinct_keys(assoc_keys(s)) ==> distinct_keys(assoc_keys(assoc_put(s, key, value))),
{
    let t = assoc_put(s, key, value);
    lemma_position_some(assoc_keys(s), key);
    match assoc_index(s, key) {
        Some(i) => {
            assert(assoc_keys(t) =~= assoc_keys(s));
        },
        None => {
            assert(assoc_keys(t) =~= assoc_keys(s).push(key));
            lemma_position_of(assoc_keys(t), key, s.len() as int);
        },
    }
    assert forall|k: Seq<char>| k != key implies assoc_get(t, k) == assoc_get(s, k) by {
        lemma_position_some(assoc_keys(s), k);
        match position_of(assoc_keys(s), k) {
            Some(i) => {
                lemma_position_of(assoc_keys(t), k, i);
            },
            None => {
                lemma_position_none(assoc_keys(t), k);
            },
        }
    }
}

/// An ordered table from names to values.
pub struct NameMap<V> {
    pub entries: Vec<(String, V)>,
}

impl<V: DeepView> DeepView for NameMap<V> {
    type V = Seq<(Seq<char>, V::V)>;

    open spec fn deep_view(&self) -> Seq<(Seq<char>, V::V)> {
        self.entries.deep_view()
    }
}

impl<V: DeepView> NameMap<V> {
    /// No name is entered twice.
    pub open spec fn wf(&self) -> bool {
        distinct_keys(assoc_keys(self.deep_view()))
    }

    pub fn new() -> (m: Self)
        ensures
            m.deep_view() == Seq::<(Seq<char>, V::V)>::empty(),
            m.entries@.len() == 0,
            m.wf(),
    {
        let m = NameMap { entries: Vec::new() };
        assert(m.deep_view() =~= Seq::<(Seq<char>, V::V)>::empty());
        m
    }

    pub fn len(&self) -> (n: usize)
        ensures
            n == self.deep_view().len(),
            n == self.entries@.len(),
    {
        self.entries.len()
    }

    /// The position of `key`, if the table has it.
    pub fn find(&self, key: &String) -> (r: Option<usize>)
        ensures
            match r {
                Some(i) => assoc_index(self.deep_view(), key@) == Some(i as int) && i
                    < self.entries@.len(),
                None => assoc_index(self.deep_view(), key@) is None,
            },
    {
        let ghost keys = assoc_keys(self.deep_view());
        let mut i: usize = 0;
        while i < self.entries.len()
            invariant
                i <= self.entries@.len(),
                keys == assoc_keys(self.deep_view()),
                keys.len() == self.entries@.len(),
                forall|j: int| 0 <= j < i ==> keys[j] != key@,
            decreases self.entries@.len() - i,
        {
            assert(keys[i as int] == self.entries@[i as int].0@);
            if self.entries[i].0 == *key {
                proof {
                    lemma_position_of(keys, key@, i as int);
                }
                return Some(i);
            }
            i += 1;
        }
        proof {
            lemma_position_none(keys, key@);
        }
        None
    }

    pub fn contains_key(&self, key: &String) -> (r: bool)
        ensures
            r == (assoc_get(self.deep_view(), key@) is Some),
    {
        self.find(key).is_some()
    }

    /// The value entered under `key`, if the table has one.
    pub fn get(&self, key: &String) -> (r: Option<&V>)
        ensures
            match r {
                Some(v) => assoc_get(self.deep_view(), key@) == Some(v.deep_view()),
                None => assoc_get(self.deep_view(), key@) is None,
            },
    {
        match self.find(key) {
            Some(i) => {
                assert(self.deep_view()[i as int].1 == self.entries@[i as int].1.deep_view());
                Some(&self.entries[i].1)
            },
            None => None,
        }
    }

    /// Enters `value` under `key` at the end, whether or not the table has
    /// the key: an earlier entry of the name stays the one that lookups find.
    pub fn append(&mut self, key: String, value: V)
        ensures
            final(self).entries@ == old(self).entries@.push((key, value)),
            final(self).deep_view() == old(self).deep_view().push((key@, value.deep_view())),
    {
        let ghost before = self.deep_view();
        self.entries.push((key, value));
        assert(self.deep_view() =~= before.push((key@, value.deep_view())));
    }

    /// Enters `value` under `key`: in the place of the old value where the
    /// table has the key, at the end where it has not.
    pub fn insert(&mut self, key: String, value: V)
        ensures
            final(self).deep_view() == assoc_put(old(self).deep_view(), key@, value.deep_view()),
            old(self).wf() ==> final(self).wf(),
    {
        let ghost before = self.deep_view();
        match self.find(&key) {
            Some(i) => {
                self.entries.set(i, (key, value));
                assert(self.deep_view() =~= before.update(
                    i as int,
                    (key@, value.deep_view()),
                ));
            },
            None => {
                self.entries.push((key, value));
                assert(self.deep_view() =~= before.push((key@, value.deep_view())));
            },
        }
        proof {
            lemma_assoc_put(before, key@, value.deep_view());
        }
    }
}

} // verus!
