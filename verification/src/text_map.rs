//! A map with text keys that keeps its entries in the order of insertion.

use crate::text::same_str;
use vstd::prelude::*;

verus! {

/// A map from texts to values.
#[derive(Debug)]
pub struct TextMap<V> {
    entries: Vec<(String, V)>,
}

/// The index of the first entry with the key, or the number of entries.
pub open spec fn key_index<V>(entries: Seq<(String, V)>, key: Seq<char>) -> int
    decreases entries.len(),
{
    if entries.len() == 0 {
        0
    } else if entries[0].0@ == key {
        0
    } else {
        1 + key_index(entries.skip(1), key)
    }
}

/// Whether no key occurs twice.
pub open spec fn distinct_keys<V>(entries: Seq<(String, V)>) -> bool {
    forall|i: int, j: int|
        0 <= i < j < entries.len() ==> (#[trigger] entries[i]).0@ != (#[trigger] entries[j]).0@
}

/// The map that a row of entries stands for.
pub open spec fn entries_map<V>(entries: Seq<(String, V)>) -> Map<Seq<char>, V> {
    Map::new(
        |k: Seq<char>| key_index(entries, k) < entries.len(),
        |k: Seq<char>| entries[key_index(entries, k)].1,
    )
}

proof fn lemma_key_index<V>(entries: Seq<(String, V)>, key: Seq<char>)
    ensures
        0 <= key_index(entries, key) <= entries.len(),
        forall|j: int| 0 <= j < key_index(entries, key) ==> (#[trigger] entries[j]).0@ != key,
        key_index(entries, key) < entries.len() ==> entries[key_index(entries, key)].0@ == key,
    decreases entries.len(),
{
    if entries.len() > 0 && entries[0].0@ != key {
        lemma_key_index(entries.skip(1), key);
        assert forall|j: int| 0 <= j < key_index(entries, key) implies (
        #[trigger] entries[j]).0@ != key by {
            if j > 0 {
                assert(entries.skip(1)[j - 1] == entries[j]);
            }
        }
    }
}

proof fn lemma_key_index_is<V>(entries: Seq<(String, V)>, key: Seq<char>, i: int)
    requires
        0 <= i <= entries.len(),
        forall|j: int| 0 <= j < i ==> (#[trigger] entries[j]).0@ != key,
        i == entries.len() || entries[i].0@ == key,
    ensures
        key_index(entries, key) == i,
{
    lemma_key_index(entries, key);
    let k = key_index(entries, key);
    if k < i {
        assert(entries[k].0@ != key);
    } else if k > i {
        assert(entries[i].0@ != key);
    }
}

impl<V> TextMap<V> {
    /// Whether no key occurs twice.
    pub closed spec fn wf(self) -> bool {
        distinct_keys(self.entries@)
    }

    /// The entries in the order in which their keys were first put in.
    pub closed spec fn rows(self) -> Seq<(String, V)> {
        self.entries@
    }

    /// The map without entries.
    pub fn new() -> (r: TextMap<V>)
        ensures
            r.wf(),
            r@ == Map::<Seq<char>, V>::empty(),
            r.rows().len() == 0,
    {
        let r = TextMap { entries: Vec::new() };
        assert(r@ =~= Map::<Seq<char>, V>::empty());
        r
    }

    fn position(&self, key: &str) -> (i: usize)
        ensures
            i == key_index(self.entries@, key@),
            i <= self.entries@.len(),
    {
        let mut i: usize = 0;
        while i < self.entries.len() && !same_str(self.entries[i].0.as_str(), key)
            invariant
                i <= self.entries@.len(),
                forall|j: int| 0 <= j < i ==> (#[trigger] self.entries@[j]).0@ != key@,
            decreases self.entries@.len() - i,
        {
            i += 1;
        }
        proof {
            lemma_key_index_is(self.entries@, key@, i as int);
        }
        i
    }

    /// The number of entries.
    pub fn len(&self) -> (n: usize)
        ensures
            n == self.rows().len(),
    {
        self.entries.len()
    }

    /// The key of an entry.
    pub fn key_at(&self, i: usize) -> (r: &String)
        requires
            i < self.rows().len(),
        ensures
            *r == self.rows()[i as int].0,
    {
        &self.entries[i].0
    }

    /// The value of an entry.
    pub fn value_at(&self, i: usize) -> (r: &V)
        requires
            i < self.rows().len(),
        ensures
            *r == self.rows()[i as int].1,
    {
        &self.entries[i].1
    }

    /// Whether the key has a value.
    pub fn contains(&self, key: &str) -> (r: bool)
        ensures
            r == self@.dom().contains(key@),
    {
        self.position(key) < self.entries.len()
    }

    /// The value of a key.
    pub fn get(&self, key: &str) -> (r: Option<&V>)
        ensures
            match r {
                Some(v) => self@.dom().contains(key@) && *v == self@[key@],
                None => !self@.dom().contains(key@),
            },
    {
        let i = self.position(key);
        if i < self.entries.len() {
            Some(&self.entries[i].1)
        } else {
            None
        }
    }

    /// Gives a key a value.
    pub fn insert(&mut self, key: String, value: V)
        requires
            old(self).wf(),
        ensures
            final(self).wf(),
            final(self)@ == old(self)@.insert(key@, value),
    {
        let i = self.position(key.as_str());
        let ghost before = self.entries@;
        proof {
            lemma_key_index(before, key@);
        }
        let ghost new_key = key;
        if i < self.entries.len() {
            self.entries.set(i, (key, value));
        } else {
            self.entries.push((key, value));
        }
        proof {
            let after = self.entries@;
            assert(forall|j: int| 0 <= j < before.len() ==> (#[trigger] after[j]).0@
                == before[j].0@);
            assert(after[i as int].0@ == new_key@);
            assert forall|k: Seq<char>| true implies #[trigger] entries_map(after).dom().contains(k) == (
            entries_map(before).dom().contains(k) || k == new_key@) && (entries_map(
                after,
            ).dom().contains(k) ==> entries_map(after)[k] == (if k == new_key@ {
                value
            } else {
                entries_map(before)[k]
            })) by {
                lemma_key_index(before, k);
                lemma_key_index(after, k);
                if k == new_key@ {
                    lemma_key_index_is(after, k, i as int);
                } else if key_index(before, k) < before.len() {
                    lemma_key_index_is(after, k, key_index(before, k));
                } else {
                    lemma_key_index_is(after, k, after.len() as int);
                }
            }
            assert(entries_map(after).dom() =~= entries_map(before).insert(new_key@, value).dom());
            assert(entries_map(after) =~= entries_map(before).insert(new_key@, value));
        }
    }

    /// Takes the value of a key out.
    pub fn remove(&mut self, key: &str) -> (r: Option<V>)
        requires
            old(self).wf(),
        ensures
            final(self).wf(),
            final(self)@ == old(self)@.remove(key@),
            match r {
                Some(v) => old(self)@.dom().contains(key@) && v == old(self)@[key@],
                None => !old(self)@.dom().contains(key@),
            },
    {
        let i = self.position(key);
        let ghost before = self.entries@;
        proof {
            lemma_key_index(before, key@);
        }
        if i < self.entries.len() {
            let e = self.entries.remove(i);
            proof {
                let after = self.entries@;
                assert(after =~= before.remove(i as int));
                assert(forall|j: int| 0 <= j < i ==> after[j] == before[j]);
                assert(forall|j: int| i <= j < after.len() ==> after[j] == before[j + 1]);
                assert forall|k: Seq<char>| true implies #[trigger] entries_map(after).dom().contains(k) == (
                entries_map(before).dom().contains(k) && k != key@) && (entries_map(
                    after,
                ).dom().contains(k) ==> entries_map(after)[k] == entries_map(before)[k]) by {
                    lemma_key_index(before, k);
                    lemma_key_index(after, k);
                    let b = key_index(before, k);
                    if k == key@ {
                        assert forall|j: int| 0 <= j < after.len() implies (
                        #[trigger] after[j]).0@ != k by {
                            if j < i {
                                assert(before[j].0@ != before[i as int].0@);
                            } else {
                                assert(before[i as int].0@ != before[j + 1].0@);
                            }
                        }
                        lemma_key_index_is(after, k, after.len() as int);
                    } else if b < before.len() {
                        let a = if b < i {
                            b
                        } else {
                            b - 1
                        };
                        assert forall|j: int| 0 <= j < a implies (#[trigger] after[j]).0@ != k by {
                            if j < i {
                                assert(before[j].0@ != k);
                            } else {
                                assert(before[j + 1].0@ != k);
                            }
                        }
                        lemma_key_index_is(after, k, a);
                    } else {
                        assert forall|j: int| 0 <= j < after.len() implies (
                        #[trigger] after[j]).0@ != k by {
                            if j < i {
                                assert(before[j].0@ != k);
                            } else {
                                assert(before[j + 1].0@ != k);
                            }
                        }
                        lemma_key_index_is(after, k, after.len() as int);
                    }
                }
                assert(entries_map(after).dom() =~= entries_map(before).remove(key@).dom());
                assert(entries_map(after) =~= entries_map(before).remove(key@));
                assert forall|x: int, y: int| 0 <= x < y < after.len() implies (
                #[trigger] after[x]).0@ != (#[trigger] after[y]).0@ by {
                    let p = if x < i {
                        x
                    } else {
                        x + 1
                    };
                    let q = if y < i {
                        y
                    } else {
                        y + 1
                    };
                    assert(before[p].0@ != before[q].0@);
                }
            }
            Some(e.1)
        } else {
            assert(entries_map(before) =~= entries_map(before).remove(key@));
            None
        }
    }

    /// What the rows say of the map: a key is in the map exactly where a row has
    /// it, and the row then has its value.
    pub proof fn lemma_rows(&self)
        requires
            self.wf(),
        ensures
            distinct_keys(self.rows()),
            forall|i: int|
                0 <= i < self.rows().len() ==> self@.dom().contains(
                    (#[trigger] self.rows()[i]).0@,
                ) && self@[self.rows()[i].0@] == self.rows()[i].1,
            forall|k: Seq<char>| #[trigger]
                self@.dom().contains(k) ==> exists|i: int|
                    0 <= i < self.rows().len() && (#[trigger] self.rows()[i]).0@ == k,
    {
        assert forall|i: int| 0 <= i < self.rows().len() implies self@.dom().contains(
            (#[trigger] self.rows()[i]).0@,
        ) && self@[self.rows()[i].0@] == self.rows()[i].1 by {
            assert forall|j: int| 0 <= j < i implies (#[trigger] self.entries@[j]).0@
                != self.entries@[i].0@ by {}
            lemma_key_index_is(self.entries@, self.entries@[i].0@, i);
        }
        assert forall|k: Seq<char>| #[trigger] self@.dom().contains(k) implies exists|i: int|
            0 <= i < self.rows().len() && (#[trigger] self.rows()[i]).0@ == k by {
            lemma_key_index(self.entries@, k);
            let i = key_index(self.entries@, k);
            assert(self.rows()[i].0@ == k);
        }
    }
}

impl<V> View for TextMap<V> {
    type V = Map<Seq<char>, V>;

    closed spec fn view(&self) -> Map<Seq<char>, V> {
        entries_map(self.entries@)
    }
}

} // verus!
