//! A table: values under keys, each key a tuple of texts.

use vstd::prelude::*;

use crate::text::{same_text, texts};

verus! {

/// Values under keys.
#[derive(Debug, PartialEq, Eq)]
pub struct Table<V> {
    pub entries: Vec<(Vec<String>, V)>,
}

/// The key of an entry.
pub open spec fn key_of<V>(entry: (Vec<String>, V)) -> Seq<Seq<char>> {
    texts(entry.0@)
}

/// The position of the entry under a key, from `from` on, or the number of entries.
pub open spec fn entry_position<V>(
    entries: Seq<(Vec<String>, V)>,
    key: Seq<Seq<char>>,
    from: int,
) -> int
    decreases entries.len() - from,
{
    if from < 0 || from >= entries.len() {
        entries.len() as int
    } else if key_of(entries[from]) == key {
        from
    } else {
        entry_position(entries, key, from + 1)
    }
}

/// What `entry_position` finds is under the key, and nothing before it is.
pub proof fn entry_position_is_first<V>(
    entries: Seq<(Vec<String>, V)>,
    key: Seq<Seq<char>>,
    from: int,
)
    requires
        0 <= from <= entries.len(),
    ensures
        from <= entry_position(entries, key, from) <= entries.len(),
        entry_position(entries, key, from) < entries.len() ==> key_of(
            entries[entry_position(entries, key, from)],
        ) == key,
        forall|i: int|
            from <= i < entry_position(entries, key, from) ==> key_of(#[trigger] entries[i]) != key,
    decreases entries.len() - from,
{
    if from < entries.len() && key_of(entries[from]) != key {
        entry_position_is_first(entries, key, from + 1);
    }
}

impl<V> View for Table<V> {
    type V = Map<Seq<Seq<char>>, V>;

    open spec fn view(&self) -> Map<Seq<Seq<char>>, V> {
        Map::new(
            |key: Seq<Seq<char>>| entry_position(self.entries@, key, 0) < self.entries@.len(),
            |key: Seq<Seq<char>>| self.entries@[entry_position(self.entries@, key, 0)].1,
        )
    }
}

/// Whether two lists of texts are the same.
pub fn same_texts(a: &Vec<String>, b: &Vec<String>) -> (same: bool)
    ensures
        same == (texts(a@) == texts(b@)),
{
    if a.len() != b.len() {
        assert(texts(a@).len() != texts(b@).len());
        return false;
    }
    let mut i: usize = 0;
    while i < a.len()
        invariant
            i <= a.len() == b.len(),
            forall|j: int| 0 <= j < i ==> texts(a@)[j] == texts(b@)[j],
        decreases a.len() - i,
    {
        if !same_text(a[i].as_str(), b[i].as_str()) {
            assert(texts(a@)[i as int] != texts(b@)[i as int]);
            return false;
        }
        i += 1;
    }
    assert(texts(a@) =~= texts(b@));
    true
}

impl<V> Table<V> {
    /// No key occurs twice.
    pub open spec fn wf(self) -> bool {
        forall|i: int, j: int|
            0 <= i < j < self.entries@.len() ==> key_of(#[trigger] self.entries@[i]) != key_of(
                #[trigger] self.entries@[j],
            )
    }

    /// The entry at a position is what the table holds under its key.
    pub proof fn holds_entry(self, at: int)
        requires
            self.wf(),
            0 <= at < self.entries@.len(),
        ensures
            self@.contains_key(key_of(self.entries@[at])),
            self@[key_of(self.entries@[at])] == self.entries@[at].1,
            entry_position(self.entries@, key_of(self.entries@[at]), 0) == at,
    {
        let key = key_of(self.entries@[at]);
        entry_position_is_first(self.entries@, key, 0);
        let p = entry_position(self.entries@, key, 0);
        if p < at {
            assert(key_of(self.entries@[p]) != key_of(self.entries@[at]));
        }
    }

    /// What the table holds under a key stands in one of its entries.
    pub proof fn entry_of(self, key: Seq<Seq<char>>) -> (at: int)
        requires
            self@.contains_key(key),
        ensures
            0 <= at < self.entries@.len(),
            key_of(self.entries@[at]) == key,
            self.entries@[at].1 == self@[key],
    {
        entry_position_is_first(self.entries@, key, 0);
        entry_position(self.entries@, key, 0)
    }

    /// A key that no entry has is not in the table.
    pub proof fn lacks(self, key: Seq<Seq<char>>)
        requires
            forall|i: int| 0 <= i < self.entries@.len() ==> key_of(#[trigger] self.entries@[i]) != key,
        ensures
            !self@.contains_key(key),
    {
        entry_position_is_first(self.entries@, key, 0);
    }

    /// A table has as many keys as entries.
    pub proof fn count(self)
        requires
            self.wf(),
        ensures
            self@.dom().finite(),
            self@.dom().len() == self.entries@.len(),
    {
        let keys = self.entries@.map_values(|e: (Vec<String>, V)| key_of(e));
        assert(keys.no_duplicates()) by {
            assert forall|i: int, j: int|
                0 <= i < keys.len() && 0 <= j < keys.len() && i != j implies keys[i] != keys[j] by {
                if i < j {
                    assert(key_of(self.entries@[i]) != key_of(self.entries@[j]));
                } else {
                    assert(key_of(self.entries@[j]) != key_of(self.entries@[i]));
                }
            }
        }
        keys.unique_seq_to_set();
        assert forall|key: Seq<Seq<char>>| keys.to_set().contains(key) == self@.dom().contains(key) by {
            if keys.contains(key) {
                let i = choose|i: int| 0 <= i < keys.len() && keys[i] == key;
                self.holds_entry(i);
            }
            if self@.contains_key(key) {
                let i = self.entry_of(key);
                assert(keys[i] == key);
            }
        }
        assert(keys.to_set() =~= self@.dom());
    }

    /// The empty table.
    pub fn new() -> (table: Table<V>)
        ensures
            table.wf(),
            table@ == Map::<Seq<Seq<char>>, V>::empty(),
    {
        let table = Table { entries: Vec::new() };
        assert(table@ =~= Map::empty());
        table
    }

    /// Where the entry under a key stands.
    fn find(&self, key: &Vec<String>) -> (at: usize)
        ensures
            at == entry_position(self.entries@, texts(key@), 0),
            at <= self.entries.len(),
    {
        let mut i: usize = 0;
        while i < self.entries.len()
            invariant
                i <= self.entries.len(),
                entry_position(self.entries@, texts(key@), 0) == entry_position(
                    self.entries@,
                    texts(key@),
                    i as int,
                ),
            decreases self.entries.len() - i,
        {
            if same_texts(&self.entries[i].0, key) {
                return i;
            }
            i += 1;
        }
        i
    }

    /// The value under a key.
    pub fn get(&self, key: &Vec<String>) -> (value: Option<&V>)
        ensures
            match value {
                Some(value) => self@.contains_key(texts(key@)) && self@[texts(key@)] == *value,
                None => !self@.contains_key(texts(key@)),
            },
    {
        let at = self.find(key);
        if at < self.entries.len() {
            Some(&self.entries[at].1)
        } else {
            None
        }
    }

    /// Puts a value under a key; what was there before is gone.
    pub fn insert(&mut self, key: Vec<String>, value: V)
        requires
            old(self).wf(),
        ensures
            final(self).wf(),
            final(self)@ == old(self)@.insert(texts(key@), value),
    {
        let at = self.find(&key);
        let ghost before = *self;
        let ghost k = texts(key@);
        proof {
            entry_position_is_first(before.entries@, k, 0);
        }
        if at < self.entries.len() {
            self.entries.set(at, (key, value));
        } else {
            self.entries.push((key, value));
        }
        proof {
            let now = *self;
            assert(key_of(now.entries@[at as int]) == k);
            assert forall|i: int, j: int| 0 <= i < j < now.entries@.len() implies key_of(
                #[trigger] now.entries@[i],
            ) != key_of(#[trigger] now.entries@[j]) by {
                if at < before.entries@.len() {
                    assert(key_of(now.entries@[i]) == key_of(before.entries@[i]));
                    assert(key_of(now.entries@[j]) == key_of(before.entries@[j]));
                } else if j < at {
                    assert(now.entries@[i] == before.entries@[i]);
                    assert(now.entries@[j] == before.entries@[j]);
                } else {
                    assert(now.entries@[i] == before.entries@[i]);
                }
            }
            assert(now.wf());
            assert forall|other: Seq<Seq<char>>| #[trigger] now@.contains_key(other) == before@.insert(
                k,
                value,
            ).contains_key(other) && (now@.contains_key(other) ==> now@[other] == before@.insert(
                k,
                value,
            )[other]) by {
                now.holds_entry(at as int);
                if other != k {
                    if before@.contains_key(other) {
                        let p = before.entry_of(other);
                        assert(now.entries@[p] == before.entries@[p]);
                        now.holds_entry(p);
                    }
                    if now@.contains_key(other) {
                        let p = now.entry_of(other);
                        assert(p != at);
                        assert(now.entries@[p] == before.entries@[p]);
                        before.holds_entry(p);
                    }
                }
            }
            assert(now@ =~= before@.insert(k, value));
        }
    }

    /// Takes a key out of the table.
    pub fn remove(&mut self, key: &Vec<String>)
        requires
            old(self).wf(),
        ensures
            final(self).wf(),
            final(self)@ == old(self)@.remove(texts(key@)),
    {
        let at = self.find(key);
        let ghost before = *self;
        let ghost k = texts(key@);
        proof {
            entry_position_is_first(before.entries@, k, 0);
        }
        if at < self.entries.len() {
            self.entries.remove(at);
            proof {
                let now = *self;
                assert(now.entries@ == before.entries@.remove(at as int));
                assert forall|i: int, j: int| 0 <= i < j < now.entries@.len() implies key_of(
                    #[trigger] now.entries@[i],
                ) != key_of(#[trigger] now.entries@[j]) by {
                    let a = if i < at {
                        i
                    } else {
                        i + 1
                    };
                    let b = if j < at {
                        j
                    } else {
                        j + 1
                    };
                    assert(now.entries@[i] == before.entries@[a]);
                    assert(now.entries@[j] == before.entries@[b]);
                }
                assert(now.wf());
                assert forall|other: Seq<Seq<char>>| #[trigger] now@.contains_key(other)
                    == before@.remove(k).contains_key(other) && (now@.contains_key(other)
                    ==> now@[other] == before@.remove(k)[other]) by {
                    if before@.contains_key(other) && other != k {
                        let p = before.entry_of(other);
                        let q = if p < at {
                            p
                        } else {
                            p - 1
                        };
                        assert(now.entries@[q] == before.entries@[p]);
                        now.holds_entry(q);
                    }
                    if now@.contains_key(other) {
                        let q = now.entry_of(other);
                        let p = if q < at {
                            q
                        } else {
                            q + 1
                        };
                        assert(now.entries@[q] == before.entries@[p]);
                        before.holds_entry(p);
                        before.holds_entry(at as int);
                    }
                }
                assert(now@ =~= before@.remove(k));
            }
        } else {
            assert(self@ =~= before@.remove(k));
        }
    }
}

} // verus!
