//! A small map from tags, the strings that name images, buffers and passes,
//! to values.

use vstd::prelude::*;
use vstd::string::*;

verus! {

/// One association of a `TagMap`.
#[derive(Clone, Debug)]
struct Entry<V> {
    key: String,
    value: V,
}

/// The position of `key` among the first `n` of `entries`.
spec fn position<V>(entries: Seq<Entry<V>>, key: Seq<char>, n: int) -> Option<int>
    decreases n,
{
    if n <= 0 {
        None
    } else if entries[n - 1].key@ == key {
        Some(n - 1)
    } else {
        position(entries, key, n - 1)
    }
}

/// No two of `entries` have the same key.
spec fn distinct_keys<V>(entries: Seq<Entry<V>>) -> bool {
    forall|i: int, j: int|
        0 <= i < j < entries.len() ==> (#[trigger] entries[i]).key@ != (#[trigger] entries[j]).key@
}

/// The map that `entries` stand for.
spec fn map_of<V>(entries: Seq<Entry<V>>) -> Map<Seq<char>, V> {
    Map::new(
        |k: Seq<char>| position(entries, k, entries.len() as int) is Some,
        |k: Seq<char>| entries[position(entries, k, entries.len() as int).unwrap()].value,
    )
}

/// What `position` finds has the key, and what it does not find is not
/// there.
proof fn lemma_position<V>(entries: Seq<Entry<V>>, key: Seq<char>, n: int)
    requires
        0 <= n <= entries.len(),
    ensures
        match position(entries, key, n) {
            Some(i) => 0 <= i < n && entries[i].key@ == key,
            None => forall|i: int| 0 <= i < n ==> (#[trigger] entries[i]).key@ != key,
        },
    decreases n,
{
    if n > 0 && entries[n - 1].key@ != key {
        lemma_position(entries, key, n - 1);
    }
}

/// A finite map keyed by tags.
#[derive(Clone, Debug)]
pub struct TagMap<V> {
    entries: Vec<Entry<V>>,
}

impl<V> View for TagMap<V> {
    type V = Map<Seq<char>, V>;

    closed spec fn view(&self) -> Map<Seq<char>, V> {
        map_of(self.entries@)
    }
}

impl<V> TagMap<V> {
    /// No tag is held twice.
    pub closed spec fn wf(&self) -> bool {
        distinct_keys(self.entries@)
    }

    /// The empty map.
    pub fn new() -> (map: Self)
        ensures
            map.wf(),
            map@ == Map::<Seq<char>, V>::empty(),
    {
        let map = TagMap { entries: Vec::new() };
        map
    }

    fn find(&self, key: &String) -> (found: Option<usize>)
        requires
            self.wf(),
        ensures
            match found {
                Some(i) => i < self.entries@.len() && position(
                    self.entries@,
                    key@,
                    self.entries@.len() as int,
                ) == Some(i as int),
                None => position(self.entries@, key@, self.entries@.len() as int) is None,
            },
    {
        let mut i: usize = 0;
        while i < self.entries.len()
            invariant
                0 <= i <= self.entries@.len(),
                distinct_keys(self.entries@),
                forall|j: int| 0 <= j < i ==> (#[trigger] self.entries@[j]).key@ != key@,
            decreases self.entries@.len() - i,
        {
            if self.entries[i].key == *key {
                proof {
                    lemma_position(self.entries@, key@, self.entries@.len() as int);
                }
                return Some(i);
            }
            i += 1;
        }
        proof {
            lemma_position(self.entries@, key@, self.entries@.len() as int);
        }
        None
    }

    /// Whether `key` has a value.
    pub fn contains(&self, key: &str) -> (present: bool)
        requires
            self.wf(),
        ensures
            present == self@.contains_key(key@),
    {
        let k = String::from_str(key);
        self.find(&k).is_some()
    }

    /// The value of `key`, if it has one.
    pub fn get(&self, key: &str) -> (value: Option<&V>)
        requires
            self.wf(),
        ensures
            match value {
                Some(v) => self@.contains_key(key@) && *v == self@[key@],
                None => !self@.contains_key(key@),
            },
    {
        let k = String::from_str(key);
        match self.find(&k) {
            Some(i) => Some(&self.entries[i].value),
            None => None,
        }
    }

    /// Gives `key` the value `value`, in place of the one it had, if any.
    pub fn insert(&mut self, key: &str, value: V)
        requires
            old(self).wf(),
        ensures
            final(self).wf(),
            final(self)@ == old(self)@.insert(key@, value),
    {
        let k = String::from_str(key);
        let ghost before = self.entries@;
        match self.find(&k) {
            Some(i) => {
                self.entries[i].value = value;
                proof {
                    let after = self.entries@;
                    lemma_position(before, key@, before.len() as int);
                    assert forall|q: Seq<char>|
                        position(after, q, after.len() as int) == position(
                            before,
                            q,
                            before.len() as int,
                        ) by {
                        lemma_same_keys_same_position(before, after, q, before.len() as int);
                    }
                    assert forall|q: Seq<char>| #[trigger]
                        map_of(after).contains_key(q) && q != key@ implies map_of(after)[q]
                        == map_of(before)[q] by {
                        lemma_position(before, q, before.len() as int);
                    }
                }
            },
            None => {
                self.entries.push(Entry { key: k, value });
                proof {
                    let after = self.entries@;
                    lemma_position(before, key@, before.len() as int);
                    assert forall|q: Seq<char>|
                        position(after, q, after.len() as int) == (if q == key@ {
                            Some(before.len() as int)
                        } else {
                            position(before, q, before.len() as int)
                        }) by {
                        lemma_same_keys_same_position(before, after, q, before.len() as int);
                    }
                    assert forall|q: Seq<char>| #[trigger]
                        map_of(after).contains_key(q) && q != key@ implies map_of(after)[q]
                        == map_of(before)[q] by {
                        lemma_position(before, q, before.len() as int);
                    }
                }
            },
        }
    }

    /// Forgets every association.
    pub fn clear(&mut self)
        ensures
            final(self).wf(),
            final(self)@ == Map::<Seq<char>, V>::empty(),
    {
        self.entries = Vec::new();
    }
}

/// Lists with the same keys at the same places find a key at the same
/// place.
proof fn lemma_same_keys_same_position<V>(
    a: Seq<Entry<V>>,
    b: Seq<Entry<V>>,
    key: Seq<char>,
    n: int,
)
    requires
        0 <= n <= a.len(),
        n <= b.len(),
        forall|i: int| 0 <= i < n ==> (#[trigger] a[i]).key@ == b[i].key@,
    ensures
        position(a, key, n) == position(b, key, n),
    decreases n,
{
    if n > 0 {
        if a[n - 1].key@ != key {
            lemma_same_keys_same_position(a, b, key, n - 1);
        }
    }
}

} // verus!
