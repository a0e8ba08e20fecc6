//! A map with string keys that remembers the order in which its keys came.
use vstd::prelude::*;

use crate::text::same_text;

verus! {

/// The first position at or after `i` whose key is `key`, or the length of
/// `entries` when there is none.
pub open spec fn key_from<T>(entries: Seq<(Seq<char>, T)>, key: Seq<char>, i: int) -> int
    decreases entries.len() - i,
{
    if i >= entries.len() {
        entries.len() as int
    } else if entries[i].0 == key {
        i
    } else {
        key_from(entries, key, i + 1)
    }
}

/// The value that `entries` holds for `key`.
pub open spec fn lookup<T>(entries: Seq<(Seq<char>, T)>, key: Seq<char>) -> Option<T> {
    let i = key_from(entries, key, 0);
    if 0 <= i < entries.len() {
        Some(entries[i].1)
    } else {
        None
    }
}

/// `entries` once `value` is stored for `key`: in the key's place when it has
/// one, else at the end.
pub open spec fn stored<T>(entries: Seq<(Seq<char>, T)>, key: Seq<char>, value: T) -> Seq<
    (Seq<char>, T),
> {
    let i = key_from(entries, key, 0);
    if 0 <= i < entries.len() {
        entries.update(i, (key, value))
    } else {
        entries.push((key, value))
    }
}

/// No key occurs twice.
pub open spec fn distinct_keys<T>(entries: Seq<(Seq<char>, T)>) -> bool {
    forall|i: int, j: int|
        0 <= i < j < entries.len() ==> #[trigger] entries[i].0 != #[trigger] entries[j].0
}

/// `key_from` is a position at or after `i`, holds `key` if it is not the end,
/// and no position before it does.
pub proof fn lemma_key_from<T>(entries: Seq<(Seq<char>, T)>, key: Seq<char>, i: int)
    requires
        0 <= i <= entries.len(),
    ensures
        i <= key_from(entries, key, i) <= entries.len(),
        key_from(entries, key, i) < entries.len() ==> entries[key_from(entries, key, i)].0 == key,
        forall|k: int| i <= k < key_from(entries, key, i) ==> (#[trigger] entries[k]).0 != key,
    decreases entries.len() - i,
{
    if i < entries.len() && entries[i].0 != key {
        lemma_key_from(entries, key, i + 1);
    }
}

/// A position that holds `key`, with no such position before it, is the first.
pub proof fn lemma_key_from_is<T>(entries: Seq<(Seq<char>, T)>, key: Seq<char>, i: int, j: int)
    requires
        0 <= i <= j <= entries.len(),
        forall|k: int| i <= k < j ==> (#[trigger] entries[k]).0 != key,
        j < entries.len() ==> entries[j].0 == key,
    ensures
        key_from(entries, key, i) == j,
    decreases j - i,
{
    if i < j {
        lemma_key_from_is(entries, key, i + 1, j);
    }
}

/// A value that was stored is found under its key, and every other key keeps
/// what it had.
pub proof fn law_lookup_of_stored<T>(
    entries: Seq<(Seq<char>, T)>,
    key: Seq<char>,
    value: T,
    other: Seq<char>,
)
    ensures
        lookup(stored(entries, key, value), key) == Some(value),
        other != key ==> lookup(stored(entries, key, value), other) == lookup(entries, other),
{
    let after = stored(entries, key, value);
    let p = key_from(entries, key, 0);
    lemma_key_from(entries, key, 0);
    lemma_key_from_is(after, key, 0, p);
    if other != key {
        let q = key_from(entries, other, 0);
        lemma_key_from(entries, other, 0);
        if p < entries.len() {
            lemma_key_from_is(after, other, 0, q);
        } else if q < entries.len() {
            lemma_key_from_is(after, other, 0, q);
        } else {
            lemma_key_from_is(after, other, 0, after.len() as int);
        }
    }
}

/// What is found under a key is the value at the first place that holds the key,
/// and nothing is found exactly where no place does.
pub proof fn law_lookup_finds_the_first<T>(entries: Seq<(Seq<char>, T)>, key: Seq<char>)
    ensures
        match lookup(entries, key) {
            Some(v) => exists|i: int|
                0 <= i < entries.len() && #[trigger] entries[i] == (key, v) && forall|k: int|
                    0 <= k < i ==> (#[trigger] entries[k]).0 != key,
            None => forall|k: int| 0 <= k < entries.len() ==> (#[trigger] entries[k]).0 != key,
        },
{
    lemma_key_from(entries, key, 0);
    let i = key_from(entries, key, 0);
    if i < entries.len() {
        assert(entries[i] == (key, entries[i].1));
    }
}

/// Storing keeps every key in its place and adds no place but one at the end,
/// for a key that had none.
pub proof fn law_stored_keeps_places<T>(entries: Seq<(Seq<char>, T)>, key: Seq<char>, value: T)
    ensures
        entries.len() <= stored(entries, key, value).len() <= entries.len() + 1,
        forall|k: int|
            0 <= k < entries.len() ==> (#[trigger] stored(entries, key, value)[k]).0
                == entries[k].0 && (entries[k].0 != key ==> stored(entries, key, value)[k]
                == entries[k]),
        stored(entries, key, value).len() == entries.len() + 1 <==> forall|k: int|
            0 <= k < entries.len() ==> (#[trigger] entries[k]).0 != key,
        stored(entries, key, value).len() == entries.len() + 1 ==> stored(
            entries,
            key,
            value,
        ).last() == (key, value),
{
    lemma_key_from(entries, key, 0);
}

/// Storing keeps the keys distinct.
pub proof fn law_stored_keeps_keys_distinct<T>(
    entries: Seq<(Seq<char>, T)>,
    key: Seq<char>,
    value: T,
)
    requires
        distinct_keys(entries),
    ensures
        distinct_keys(stored(entries, key, value)),
{
    lemma_key_from(entries, key, 0);
}

/// A map from strings to `V`. Keys are distinct; a key keeps the place it
/// first came in.
#[derive(Debug)]
pub struct StringMap<V> {
    entries: Vec<(String, V)>,
}

impl<V> StringMap<V> {
    /// The keys and values as they are held, in order.
    pub closed spec fn raw(&self) -> Seq<(String, V)> {
        self.entries@
    }

    #[verifier::type_invariant]
    spec fn keys_distinct(&self) -> bool {
        forall|i: int, j: int|
            0 <= i < j < self.entries@.len() ==> #[trigger] self.entries@[i].0@
                != #[trigger] self.entries@[j].0@
    }
}

impl<V: Clone> Clone for StringMap<V> {
    fn clone(&self) -> (r: Self)
        ensures
            r.raw().len() == self.raw().len(),
            forall|i: int|
                0 <= i < self.raw().len() ==> (#[trigger] r.raw()[i]).0@ == self.raw()[i].0@
                    && cloned::<V>(self.raw()[i].1, r.raw()[i].1),
    {
        proof {
            use_type_invariant(self);
        }
        let mut entries: Vec<(String, V)> = Vec::new();
        let mut i: usize = 0;
        while i < self.entries.len()
            invariant
                i <= self.entries@.len(),
                entries@.len() == i,
                forall|k: int|
                    0 <= k < i ==> (#[trigger] entries@[k]).0@ == self.entries@[k].0@
                        && cloned::<V>(self.entries@[k].1, entries@[k].1),
            decreases self.entries@.len() - i,
        {
            entries.push((self.entries[i].0.clone(), self.entries[i].1.clone()));
            i = i + 1;
        }
        proof {
            assert forall|a: int, b: int|
                0 <= a < b < entries@.len() implies #[trigger] entries@[a].0@
                != #[trigger] entries@[b].0@ by {
                assert(self.entries@[a].0@ != self.entries@[b].0@);
            }
        }
        StringMap { entries }
    }
}

impl<V: DeepView> StringMap<V> {
    /// The entries, in order.
    pub open spec fn entries(&self) -> Seq<(Seq<char>, V::V)> {
        self.raw().map_values(|e: (String, V)| (e.0@, e.1.deep_view()))
    }

    /// An empty map.
    pub fn new() -> (r: Self)
        ensures
            r.entries() == Seq::<(Seq<char>, V::V)>::empty(),
    {
        let r = StringMap { entries: Vec::new() };
        proof {
            assert(r.entries() =~= Seq::<(Seq<char>, V::V)>::empty());
        }
        r
    }

    /// The number of keys.
    pub fn len(&self) -> (r: usize)
        ensures
            r == self.entries().len(),
            distinct_keys(self.entries()),
    {
        proof {
            use_type_invariant(self);
        }
        self.entries.len()
    }

    /// The position of `key`, or the length.
    fn position(&self, key: &str) -> (r: usize)
        ensures
            r == key_from(self.entries(), key@, 0),
            r <= self.entries@.len(),
    {
        let mut i: usize = 0;
        while i < self.entries.len()
            invariant
                i <= self.entries@.len(),
                key_from(self.entries(), key@, 0) == key_from(self.entries(), key@, i as int),
            decreases self.entries@.len() - i,
        {
            if same_text(self.entries[i].0.as_str(), key) {
                return i;
            }
            i = i + 1;
        }
        i
    }

    /// The value stored for `key`.
    pub fn get(&self, key: &str) -> (r: Option<&V>)
        ensures
            match r {
                Some(v) => lookup(self.entries(), key@) == Some(v.deep_view()),
                None => lookup(self.entries(), key@) is None,
            },
    {
        let i = self.position(key);
        if i < self.entries.len() {
            Some(&self.entries[i].1)
        } else {
            None
        }
    }

    /// Whether something is stored for `key`.
    pub fn contains_key(&self, key: &str) -> (r: bool)
        ensures
            r == lookup(self.entries(), key@) is Some,
    {
        match self.get(key) {
            Some(_) => true,
            None => false,
        }
    }

    /// The entry at position `i`.
    pub fn entry(&self, i: usize) -> (r: (&String, &V))
        requires
            i < self.entries().len(),
        ensures
            (r.0@, r.1.deep_view()) == self.entries()[i as int],
    {
        (&self.entries[i].0, &self.entries[i].1)
    }

    /// Stores `value` for `key`, over what was stored for it before.
    pub fn insert(&mut self, key: String, value: V)
        ensures
            final(self).entries() == stored(old(self).entries(), key@, value.deep_view()),
    {
        proof {
            use_type_invariant(&*self);
        }
        let ghost before = self.entries();
        let i = self.position(key.as_str());
        let mut entries: Vec<(String, V)> = Vec::new();
        std::mem::swap(&mut entries, &mut self.entries);
        let ghost was = entries@;
        proof {
            lemma_key_from(before, key@, 0);
            assert forall|k: int| 0 <= k < was.len() implies was[k].0@ == #[trigger] before[k].0 by {}
        }
        if i < entries.len() {
            entries.set(i, (key, value));
        } else {
            entries.push((key, value));
        }
        proof {
            assert forall|a: int, b: int|
                0 <= a < b < entries@.len() implies #[trigger] entries@[a].0@
                != #[trigger] entries@[b].0@ by {
                if a < was.len() && b < was.len() {
                    assert(was[a].0@ == before[a].0 && was[b].0@ == before[b].0);
                } else {
                    assert(was[a].0@ == before[a].0);
                }
            }
        }
        self.entries = entries;
        proof {
            assert(self.entries() =~= stored(before, key@, value.deep_view()));
        }
    }
}

} // verus!
