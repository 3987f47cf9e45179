//! A map from text keys to values, kept as a list of entries.
//!
//! A key is looked up by its characters. An insertion under a key that is
//! present replaces its value in place; another key is added at the end, so
//! the entries stay in the order in which their keys first came.

use vstd::prelude::*;

verus! {

/// The value of the first entry with the key `key`.
pub open spec fn first_match<V>(entries: Seq<(String, V)>, key: Seq<char>) -> Option<V>
    decreases entries.len(),
{
    if entries.len() == 0 {
        None
    } else if entries[0].0@ == key {
        Some(entries[0].1)
    } else {
        first_match(entries.drop_first(), key)
    }
}

/// The map that a list of entries stands for: each key with the value of its
/// first entry.
pub open spec fn entries_map<V>(entries: Seq<(String, V)>) -> Map<Seq<char>, V> {
    Map::new(
        |key: Seq<char>| first_match(entries, key) is Some,
        |key: Seq<char>| first_match(entries, key).unwrap(),
    )
}

proof fn lemma_first_match_skip<V>(entries: Seq<(String, V)>, key: Seq<char>, k: int)
    requires
        0 <= k <= entries.len(),
        forall|j: int| 0 <= j < k ==> (#[trigger] entries[j]).0@ != key,
    ensures
        first_match(entries, key) == first_match(entries.skip(k), key),
    decreases k,
{
    if k == 0 {
        assert(entries.skip(0) == entries);
    } else {
        assert(entries[0].0@ != key);
        let rest = entries.drop_first();
        assert forall|j: int| 0 <= j < k - 1 implies (#[trigger] rest[j]).0@ != key by {
            assert(rest[j] == entries[j + 1]);
        }
        lemma_first_match_skip(rest, key, k - 1);
        assert(rest.skip(k - 1) == entries.skip(k));
    }
}

/// A new entry at the end is found only under a key that was absent.
proof fn lemma_first_match_push<V>(
    entries: Seq<(String, V)>,
    entry: (String, V),
    key: Seq<char>,
)
    ensures
        first_match(entries.push(entry), key) == (match first_match(entries, key) {
            Some(v) => Some(v),
            None => if entry.0@ == key {
                Some(entry.1)
            } else {
                None
            },
        }),
    decreases entries.len(),
{
    let grown = entries.push(entry);
    if entries.len() == 0 {
        assert(grown.drop_first() == Seq::<(String, V)>::empty());
    } else {
        assert(grown[0] == entries[0]);
        assert(grown.drop_first() == entries.drop_first().push(entry));
        if entries[0].0@ != key {
            lemma_first_match_push(entries.drop_first(), entry, key);
        }
    }
}

/// A new value for the first entry of a key changes what is found under that
/// key and nothing else.
proof fn lemma_first_match_update<V>(
    entries: Seq<(String, V)>,
    at: int,
    entry: (String, V),
    key: Seq<char>,
)
    requires
        0 <= at < entries.len(),
        entries[at].0@ == entry.0@,
        forall|j: int| 0 <= j < at ==> (#[trigger] entries[j]).0@ != entry.0@,
    ensures
        first_match(entries.update(at, entry), key) == (if key == entry.0@ {
            Some(entry.1)
        } else {
            first_match(entries, key)
        }),
    decreases at,
{
    let changed = entries.update(at, entry);
    if at == 0 {
        assert(changed.drop_first() == entries.drop_first());
    } else {
        assert(changed[0] == entries[0]);
        assert(entries[0].0@ != entry.0@);
        let rest = entries.drop_first();
        assert(changed.drop_first() == rest.update(at - 1, entry));
        assert forall|j: int| 0 <= j < at - 1 implies (#[trigger] rest[j]).0@ != entry.0@ by {
            assert(rest[j] == entries[j + 1]);
        }
        lemma_first_match_update(rest, at - 1, entry, key);
    }
}

/// A map from text keys to values.
pub struct TextMap<V> {
    entries: Vec<(String, V)>,
}

impl<V> TextMap<V> {
    /// The map as a mathematical map from the characters of a key to its
    /// value.
    pub closed spec fn view(&self) -> Map<Seq<char>, V> {
        entries_map(self.entries@)
    }

    /// The keys in the order in which they first came.
    pub closed spec fn keys(&self) -> Seq<Seq<char>> {
        self.entries@.map_values(|e: (String, V)| e.0@)
    }

    /// An empty map.
    pub fn new() -> (map: Self)
        ensures
            map@ == Map::<Seq<char>, V>::empty(),
            map.keys() == Seq::<Seq<char>>::empty(),
    {
        let map = TextMap { entries: Vec::new() };
        assert(map@ =~= Map::<Seq<char>, V>::empty());
        assert(map.keys() =~= Seq::<Seq<char>>::empty());
        map
    }

    /// The position of the first entry with the key `key`.
    fn find(&self, key: &String) -> (r: Option<usize>)
        ensures
            match r {
                Some(i) => {
                    &&& i < self.entries@.len()
                    &&& self.entries@[i as int].0@ == key@
                    &&& forall|j: int| 0 <= j < i ==> (#[trigger] self.entries@[j]).0@ != key@
                    &&& first_match(self.entries@, key@) == Some(self.entries@[i as int].1)
                },
                None => {
                    &&& first_match(self.entries@, key@).is_none()
                    &&& forall|j: int|
                        0 <= j < self.entries@.len() ==> (#[trigger] self.entries@[j]).0@ != key@
                },
            },
    {
        let mut i: usize = 0;
        while i < self.entries.len()
            invariant
                i <= self.entries.len(),
                forall|j: int| 0 <= j < i ==> (#[trigger] self.entries@[j]).0@ != key@,
            decreases self.entries.len() - i,
        {
            if self.entries[i].0 == *key {
                proof {
                    lemma_first_match_skip(self.entries@, key@, i as int);
                    assert(self.entries@.skip(i as int)[0] == self.entries@[i as int]);
                }
                return Some(i);
            }
            i += 1;
        }
        proof {
            lemma_first_match_skip(self.entries@, key@, i as int);
            assert(self.entries@.skip(i as int).len() == 0);
        }
        None
    }

    /// The value under `key`.
    pub fn get(&self, key: &str) -> (r: Option<&V>)
        ensures
            match r {
                Some(v) => self@.contains_key(key@) && self@[key@] == *v,
                None => !self@.contains_key(key@),
            },
    {
        let owned = key.to_owned();
        match self.find(&owned) {
            Some(i) => Some(&self.entries[i].1),
            None => None,
        }
    }

    /// Whether a value stands under `key`.
    pub fn contains_key(&self, key: &str) -> (r: bool)
        ensures
            r == self@.contains_key(key@),
    {
        let owned = key.to_owned();
        self.find(&owned).is_some()
    }

    /// Puts `value` under `key`, in place of the value that stood there.
    pub fn insert(&mut self, key: String, value: V)
        ensures
            final(self)@ == old(self)@.insert(key@, value),
            final(self).keys() == (if old(self)@.contains_key(key@) {
                old(self).keys()
            } else {
                old(self).keys().push(key@)
            }),
    {
        let ghost before = self.entries@;
        match self.find(&key) {
            Some(i) => {
                let ghost entry = (key, value);
                self.entries[i] = (key, value);
                proof {
                    assert(self.entries@ == before.update(i as int, entry));
                    assert forall|k: Seq<char>|
                        first_match(self.entries@, k) == (if k == entry.0@ {
                            Some(entry.1)
                        } else {
                            first_match(before, k)
                        }) by {
                        lemma_first_match_update(before, i as int, entry, k);
                    }
                    assert(self@ =~= old(self)@.insert(entry.0@, entry.1));
                    assert(self.keys() =~= old(self).keys());
                }
            },
            None => {
                let ghost entry = (key, value);
                self.entries.push((key, value));
                proof {
                    assert(self.entries@ == before.push(entry));
                    assert forall|k: Seq<char>|
                        first_match(self.entries@, k) == (match first_match(before, k) {
                            Some(v) => Some(v),
                            None => if entry.0@ == k {
                                Some(entry.1)
                            } else {
                                None
                            },
                        }) by {
                        lemma_first_match_push(before, entry, k);
                    }
                    assert(self@ =~= old(self)@.insert(entry.0@, entry.1));
                    assert(self.keys() =~= old(self).keys().push(entry.0@));
                }
            },
        }
    }

    /// The key that came first, if the map holds any.
    pub fn first_key(&self) -> (r: Option<&String>)
        ensures
            match r {
                Some(key) => self.keys().len() > 0 && key@ == self.keys()[0],
                None => self.keys().len() == 0,
            },
    {
        if self.entries.len() > 0 {
            Some(&self.entries[0].0)
        } else {
            None
        }
    }
}

} // verus!
