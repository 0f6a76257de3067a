//! A map from integer ids to values that remembers the order its keys came in.
use vstd::prelude::*;

verus! {

/// Values kept by id, in the order their ids were first seen.
///
/// What a scene holds is a handful of entries, so a lookup is a walk; what
/// matters is that one walk over the table is the same walk every time.
pub struct Table<V> {
    entries: Vec<(i64, V)>,
}

/// The position of `key` among `keys`, counting from the front.
pub open spec fn position_of(keys: Seq<i64>, key: i64) -> int {
    keys.index_of(key)
}

impl<V> View for Table<V> {
    type V = Map<i64, V>;

    closed spec fn view(&self) -> Map<i64, V> {
        Map::new(
            |k: i64| self.keys().contains(k),
            |k: i64| self.entries@[position_of(self.keys(), k)].1,
        )
    }
}

impl<V> Table<V> {
    /// The ids held, oldest first.
    pub closed spec fn keys(&self) -> Seq<i64> {
        Seq::new(self.entries@.len(), |i: int| self.entries@[i].0)
    }

    /// No id is held twice.
    pub open spec fn wf(&self) -> bool {
        self.keys().no_duplicates()
    }

    /// What one lookup answers.
    pub open spec fn at(&self, key: i64) -> Option<V> {
        if self@.dom().contains(key) {
            Some(self@[key])
        } else {
            None
        }
    }

    /// No id is held just where the map is empty.
    pub proof fn lemma_empty(&self)
        ensures
            self.keys().len() == 0 <==> self@ == Map::<i64, V>::empty(),
    {
        self.lemma_keys();
        if self.keys().len() == 0 {
            assert forall|k: i64| !self@.dom().contains(k) by {
                assert(!self.keys().contains(k));
            }
            assert(self@ =~= Map::<i64, V>::empty());
        } else {
            assert(self.keys().contains(self.keys()[0]));
            assert(self@.dom().contains(self.keys()[0]));
        }
    }

    /// The ids and the map are two views of the same entries.
    pub proof fn lemma_keys(&self)
        ensures
            forall|k: i64| self@.dom().contains(k) <==> #[trigger] self.keys().contains(k),
    {
    }

    /// Each position holds the value its id maps to.
    proof fn lemma_entry(&self, i: int)
        requires
            self.wf(),
            0 <= i < self.entries@.len(),
        ensures
            self.keys()[i] == self.entries@[i].0,
            self.keys().contains(self.entries@[i].0),
            position_of(self.keys(), self.entries@[i].0) == i,
            self@.dom().contains(self.entries@[i].0),
            self@[self.entries@[i].0] == self.entries@[i].1,
    {
        let k = self.entries@[i].0;
        assert(self.keys()[i] == k);
        assert(self.keys().contains(k));
        let j = position_of(self.keys(), k);
        assert(0 <= j < self.keys().len() && self.keys()[j] == k);
        assert(j == i);
    }

    /// A table with nothing in it.
    pub fn new() -> (r: Self)
        ensures
            r.wf(),
            r@ == Map::<i64, V>::empty(),
            r.keys() == Seq::<i64>::empty(),
    {
        let r = Table { entries: Vec::new() };
        proof {
            assert(r.keys() =~= Seq::<i64>::empty());
            assert(r@ =~= Map::<i64, V>::empty());
        }
        r
    }

    /// How many ids are held.
    pub fn len(&self) -> (r: usize)
        ensures
            r == self.keys().len(),
    {
        self.entries.len()
    }

    /// The id at one position.
    pub fn key_at(&self, i: usize) -> (r: i64)
        requires
            i < self.keys().len(),
        ensures
            r == self.keys()[i as int],
    {
        self.entries[i].0
    }

    /// The value at one position.
    pub fn value_at(&self, i: usize) -> (r: &V)
        requires
            self.wf(),
            i < self.keys().len(),
        ensures
            self@.dom().contains(self.keys()[i as int]),
            *r == self@[self.keys()[i as int]],
    {
        proof {
            self.lemma_entry(i as int);
        }
        &self.entries[i].1
    }

    /// Where an id stands, if it is held.
    fn find(&self, key: i64) -> (r: Option<usize>)
        requires
            self.wf(),
        ensures
            match r {
                Some(i) => i < self.entries@.len() && self.entries@[i as int].0 == key,
                None => !self@.dom().contains(key),
            },
    {
        let mut i: usize = 0;
        while i < self.entries.len()
            invariant
                i <= self.entries@.len(),
                forall|j: int| 0 <= j < i ==> self.keys()[j] != key,
            decreases self.entries@.len() - i,
        {
            if self.entries[i].0 == key {
                return Some(i);
            }
            assert(self.keys()[i as int] != key);
            i = i + 1;
        }
        assert(!self.keys().contains(key));
        None
    }

    /// Looks one id up.
    pub fn get(&self, key: i64) -> (r: Option<&V>)
        requires
            self.wf(),
        ensures
            match r {
                Some(v) => self@.dom().contains(key) && *v == self@[key],
                None => !self@.dom().contains(key),
            },
    {
        match self.find(key) {
            Some(i) => {
                proof {
                    self.lemma_entry(i as int);
                }
                Some(&self.entries[i].1)
            },
            None => None,
        }
    }

    /// Whether an id is held.
    pub fn contains(&self, key: i64) -> (r: bool)
        requires
            self.wf(),
        ensures
            r == self@.dom().contains(key),
    {
        match self.find(key) {
            Some(i) => {
                proof {
                    self.lemma_entry(i as int);
                }
                true
            },
            None => false,
        }
    }

    /// Puts a value at one position and answers with the one it replaces.
    pub fn replace_at(&mut self, i: usize, value: V) -> (r: V)
        requires
            old(self).wf(),
            i < old(self).keys().len(),
        ensures
            final(self).wf(),
            final(self).keys() == old(self).keys(),
            final(self)@ == old(self)@.insert(old(self).keys()[i as int], value),
            old(self)@.dom().contains(old(self).keys()[i as int]),
            r == old(self)@[old(self).keys()[i as int]],
    {
        let mut held: V = value;
        let ghost stored = value;
        proof {
            self.lemma_entry(i as int);
        }
        core::mem::swap(&mut self.entries[i].1, &mut held);
        proof {
            assert(self.keys() =~= old(self).keys());
            self.lemma_update(*old(self), i as int, stored);
        }
        held
    }

    /// Stores a value under an id, answering with the one it replaces.
    ///
    /// An id already held keeps its place; a new one goes to the end.
    pub fn insert(&mut self, key: i64, value: V) -> (r: Option<V>)
        requires
            old(self).wf(),
        ensures
            final(self).wf(),
            final(self)@ == old(self)@.insert(key, value),
            final(self).keys() == (if old(self)@.dom().contains(key) {
                old(self).keys()
            } else {
                old(self).keys().push(key)
            }),
            r == old(self).at(key),
    {
        match self.find(key) {
            Some(i) => {
                proof {
                    self.lemma_entry(i as int);
                }
                Some(self.replace_at(i, value))
            },
            None => {
                self.entries.push((key, value));
                proof {
                    assert(self.keys() =~= old(self).keys().push(key));
                    assert forall|k: i64| self.keys().contains(k) <==> (old(self).keys().contains(k)
                        || k == key) by {
                        if old(self).keys().contains(k) {
                            let j = old(self).keys().index_of(k);
                            assert(self.keys()[j] == k);
                        }
                        assert(self.keys()[old(self).keys().len() as int] == key);
                    }
                    assert forall|k: i64| #[trigger] self@.dom().contains(k) implies self@[k]
                        == old(self)@.insert(key, value)[k] by {
                        let j = position_of(self.keys(), k);
                        assert(0 <= j < self.keys().len() && self.keys()[j] == k);
                        if k != key {
                            let h = position_of(old(self).keys(), k);
                            assert(old(self).keys()[h] == k);
                            assert(self.keys()[h] == k);
                        }
                    }
                    assert(self@ =~= old(self)@.insert(key, value));
                }
                None
            },
        }
    }

    /// Takes an id out, answering with what it held.
    pub fn remove(&mut self, key: i64) -> (r: Option<V>)
        requires
            old(self).wf(),
        ensures
            final(self).wf(),
            final(self)@ == old(self)@.remove(key),
            final(self).keys() == (if old(self)@.dom().contains(key) {
                old(self).keys().remove(position_of(old(self).keys(), key))
            } else {
                old(self).keys()
            }),
            r == old(self).at(key),
    {
        match self.find(key) {
            Some(i) => {
                proof {
                    self.lemma_entry(i as int);
                }
                let entry: (i64, V) = self.entries.remove(i);
                proof {
                    self.lemma_removed(*old(self), i as int);
                }
                Some(entry.1)
            },
            None => {
                proof {
                    assert(self@ =~= old(self)@.remove(key));
                }
                None
            },
        }
    }

    /// Keeps only the ids that `keep` names.
    pub fn retain_in(&mut self, keep: &Vec<i64>)
        requires
            old(self).wf(),
        ensures
            final(self).wf(),
            final(self)@ == old(self)@.restrict(keep@.to_set()),
            final(self).keys() == old(self).keys().filter(|k: i64| keep@.contains(k)),
    {
        let ghost kept = |k: i64| keep@.contains(k);
        let mut i: usize = 0;
        let ghost mut done: int = 0;
        proof {
            assert(old(self).keys().subrange(0, 0) =~= Seq::<i64>::empty());
            reveal(Seq::filter);
            let keys = old(self).keys();
            assert(keys.subrange(0, keys.len() as int) =~= keys);
        }
        while i < self.entries.len()
            invariant
                self.wf(),
                i <= self.keys().len(),
                0 <= done <= old(self).keys().len(),
                kept == (|k: i64| keep@.contains(k)),
                self.keys().subrange(i as int, self.keys().len() as int) == old(
                    self,
                ).keys().subrange(done, old(self).keys().len() as int),
                self.keys().subrange(0, i as int) == old(self).keys().subrange(0, done).filter(
                    kept,
                ),
                forall|k: i64|
                    self@.dom().contains(k) ==> #[trigger] old(self)@.dom().contains(k) && self@[k]
                        == old(self)@[k],
            decreases self.keys().len() - i,
        {
            let key: i64 = self.entries[i].0;
            let ghost before = *self;
            proof {
                self.lemma_entry(i as int);
                let rest = self.keys().subrange(i as int, self.keys().len() as int);
                let left = old(self).keys().subrange(done, old(self).keys().len() as int);
                assert(rest.len() == left.len());
                assert(rest[0] == key);
                assert(left[0] == old(self).keys()[done]);
                assert(old(self).keys().subrange(0, done + 1) =~= old(self).keys().subrange(
                    0,
                    done,
                ).push(key));
                old(self).keys().subrange(0, done).lemma_filter_push(key, kept);
            }
            if holds(keep, key) {
                proof {
                    assert(self.keys().subrange(0, i + 1) =~= self.keys().subrange(
                        0,
                        i as int,
                    ).push(key));
                    assert(self.keys().subrange(i + 1, self.keys().len() as int) =~= old(
                        self,
                    ).keys().subrange(done + 1, old(self).keys().len() as int)) by {
                        let a = self.keys().subrange(i as int, self.keys().len() as int);
                        let b = old(self).keys().subrange(done, old(self).keys().len() as int);
                        assert(a.skip(1) =~= self.keys().subrange(
                            i + 1,
                            self.keys().len() as int,
                        ));
                        assert(b.skip(1) =~= old(self).keys().subrange(
                            done + 1,
                            old(self).keys().len() as int,
                        ));
                    }
                }
                i = i + 1;
            } else {
                self.entries.remove(i);
                proof {
                    self.lemma_removed(before, i as int);
                    let a = before.keys().subrange(i as int, before.keys().len() as int);
                    let b = old(self).keys().subrange(done, old(self).keys().len() as int);
                    assert(a.skip(1) =~= self.keys().subrange(i as int, self.keys().len() as int));
                    assert(b.skip(1) =~= old(self).keys().subrange(
                        done + 1,
                        old(self).keys().len() as int,
                    ));
                    assert(self.keys().subrange(0, i as int) =~= before.keys().subrange(
                        0,
                        i as int,
                    ));
                }
            }
            proof {
                done = done + 1;
            }
        }
        proof {
            assert(done == old(self).keys().len()) by {
                let a = self.keys().subrange(i as int, self.keys().len() as int);
                assert(a.len() == 0);
                assert(old(self).keys().subrange(done, old(self).keys().len() as int).len()
                    == old(self).keys().len() - done);
            }
            assert(self.keys().subrange(0, i as int) =~= self.keys());
            broadcast use vstd::seq_lib::group_filter_ensures;

            assert forall|k: i64| self.keys().contains(k) <==> (old(self).keys().contains(k)
                && keep@.contains(k)) by {
                if self.keys().contains(k) {
                    let j = self.keys().index_of(k);
                    assert(self.keys()[j] == k);
                    assert(kept(self.keys()[j]));
                    old(self).keys().lemma_filter_contains_rev(kept, k);
                }
                if old(self).keys().contains(k) && keep@.contains(k) {
                    let j = old(self).keys().index_of(k);
                    assert(kept(old(self).keys()[j]));
                }
            }
            assert(self@ =~= old(self)@.restrict(keep@.to_set()));
        }
    }

    proof fn lemma_update(&self, before: Self, i: int, value: V)
        requires
            before.wf(),
            0 <= i < before.entries@.len(),
            self.entries@ == before.entries@.update(i, (before.entries@[i].0, value)),
            self.keys() == before.keys(),
        ensures
            self@ == before@.insert(before.entries@[i].0, value),
    {
        let key = before.entries@[i].0;
        before.lemma_entry(i);
        assert forall|k: i64| #[trigger] self@.dom().contains(k) implies self@[k]
            == before@.insert(key, value)[k] by {
            let j = position_of(self.keys(), k);
            assert(self.keys().contains(k));
            assert(0 <= j < self.keys().len() && self.keys()[j] == k);
        }
        assert(self@ =~= before@.insert(key, value));
    }

    proof fn lemma_removed(&self, before: Self, i: int)
        requires
            before.wf(),
            0 <= i < before.entries@.len(),
            self.entries@ == before.entries@.remove(i),
        ensures
            self.wf(),
            self.keys() == before.keys().remove(i),
            self@ == before@.remove(before.entries@[i].0),
            position_of(before.keys(), before.entries@[i].0) == i,
    {
        let key = before.entries@[i].0;
        before.lemma_entry(i);
        assert(self.keys() =~= before.keys().remove(i));
        assert forall|k: i64| self.keys().contains(k) <==> (before.keys().contains(k) && k
            != key) by {
            if self.keys().contains(k) {
                let j = self.keys().index_of(k);
                assert(self.keys()[j] == k);
                let h = if j < i { j } else { j + 1 };
                assert(before.keys()[h] == k);
                assert(h != i);
            }
            if before.keys().contains(k) && k != key {
                let h = before.keys().index_of(k);
                assert(before.keys()[h] == k);
                let j = if h < i { h } else { h - 1 };
                assert(self.keys()[j] == k);
            }
        }
        assert forall|k: i64| #[trigger] self@.dom().contains(k) implies self@[k]
            == before@.remove(key)[k] by {
            let j = self.keys().index_of(k);
            assert(self.keys().contains(k));
            assert(0 <= j < self.keys().len() && self.keys()[j] == k);
            let h = if j < i { j } else { j + 1 };
            assert(before.keys()[h] == k);
            before.lemma_entry(h);
        }
        assert(self@ =~= before@.remove(key));
    }
}

/// Whether `ids` names `id`.
pub fn holds(ids: &Vec<i64>, id: i64) -> (r: bool)
    ensures
        r == ids@.contains(id),
{
    let mut i: usize = 0;
    while i < ids.len()
        invariant
            i <= ids@.len(),
            forall|j: int| 0 <= j < i ==> ids@[j] != id,
        decreases ids@.len() - i,
    {
        if ids[i] == id {
            return true;
        }
        i = i + 1;
    }
    false
}

/// What a table holds under an id is read back, and nothing where it holds
/// nothing; an id stands where it is looked for.
pub proof fn law_a_table_is_read_where_it_is_written<V>(
    table: Table<V>,
    key: i64,
    keys: Seq<i64>,
)
    ensures
        table@.dom().contains(key) ==> table.at(key) == Some(table@[key]),
        !table@.dom().contains(key) ==> table.at(key) is None,
        keys.contains(key) ==> 0 <= position_of(keys, key) < keys.len() && keys[position_of(
            keys,
            key,
        )] == key,
{
}

} // verus!
