//! A map from texts to values that remembers the order in which its keys came.
use vstd::prelude::*;

use crate::text::equal;

verus! {

/// A map from texts to values; its entries stand in the order in which their keys first came.
#[derive(Debug)]
pub struct Table<V> {
    entries: Vec<(String, V)>,
}

impl<V> View for Table<V> {
    type V = Map<Seq<char>, V>;

    open spec fn view(&self) -> Map<Seq<char>, V> {
        Map::new(
            |key: Seq<char>| self.keys().contains(key),
            |key: Seq<char>| self.values()[self.keys().index_of(key)],
        )
    }
}

impl<V> Table<V> {
    /// The keys, in order.
    pub closed spec fn keys(&self) -> Seq<Seq<char>> {
        self.entries@.map_values(|e: (String, V)| e.0@)
    }

    /// The values, in the order of their keys.
    pub closed spec fn values(&self) -> Seq<V> {
        self.entries@.map_values(|e: (String, V)| e.1)
    }

    /// No key occurs twice.
    pub open spec fn wf(&self) -> bool {
        &&& self.keys().no_duplicates()
        &&& self.keys().len() == self.values().len()
    }

    /// A map without entries.
    pub fn new() -> (r: Table<V>)
        ensures
            r.wf(),
            r@ == Map::<Seq<char>, V>::empty(),
            r.keys() == Seq::<Seq<char>>::empty(),
    {
        let r = Table { entries: Vec::new() };
        assert(r.keys() =~= seq![]);
        assert(r@ =~= Map::<Seq<char>, V>::empty());
        r
    }

    /// The number of entries.
    pub fn len(&self) -> (r: usize)
        ensures
            r == self.keys().len(),
            r == self.values().len(),
    {
        self.entries.len()
    }

    /// The value at a position.
    pub fn value_at(&self, i: usize) -> (r: &V)
        requires
            i < self.values().len(),
        ensures
            *r == self.values()[i as int],
    {
        &self.entries[i].1
    }

    /// A position holds the value of the key that stands there.
    pub proof fn lemma_at(&self, i: int)
        requires
            self.wf(),
            0 <= i < self.keys().len(),
        ensures
            self@.dom().contains(self.keys()[i]),
            self@[self.keys()[i]] == self.values()[i],
    {
        let key = self.keys()[i];
        assert(self.keys().contains(key));
        let j = self.keys().index_of(key);
        assert(self.keys()[j] == key);
    }

    fn position(&self, key: &str) -> (r: Option<usize>)
        ensures
            match r {
                Some(i) => i < self.keys().len() && self.keys()[i as int] == key@,
                None => !self.keys().contains(key@),
            },
    {
        let mut i: usize = 0;
        while i < self.entries.len()
            invariant
                i <= self.entries@.len(),
                forall|j: int| 0 <= j < i ==> #[trigger] self.keys()[j] != key@,
            decreases self.entries@.len() - i,
        {
            if equal(self.entries[i].0.as_str(), key) {
                return Some(i);
            }
            i += 1;
        }
        None
    }

    /// The value of a key.
    pub fn get(&self, key: &str) -> (r: Option<&V>)
        requires
            self.wf(),
        ensures
            match r {
                Some(value) => self@.dom().contains(key@) && *value == self@[key@],
                None => !self@.dom().contains(key@),
            },
    {
        match self.position(key) {
            Some(i) => {
                proof {
                    self.lemma_at(i as int);
                }
                Some(&self.entries[i].1)
            },
            None => None,
        }
    }

    /// Gives a key a value, in place of the one it had.
    pub fn insert(&mut self, key: String, value: V)
        requires
            old(self).wf(),
        ensures
            final(self).wf(),
            final(self)@ == old(self)@.insert(key@, value),
            final(self).keys() == if old(self).keys().contains(key@) {
                old(self).keys()
            } else {
                old(self).keys().push(key@)
            },
    {
        match self.position(key.as_str()) {
            Some(i) => {
                self.entries.set(i, (key, value));
                proof {
                    assert(self.keys() =~= old(self).keys());
                    assert(self.values() =~= old(self).values().update(i as int, value));
                    assert forall|k: Seq<char>| self.keys().contains(k) implies self@[k]
                        == old(self)@.insert(key@, value)[k] by {
                        let j = self.keys().index_of(k);
                        if k == key@ {
                            assert(j == i);
                        }
                    }
                    assert(self@ =~= old(self)@.insert(key@, value));
                }
            },
            None => {
                self.entries.push((key, value));
                proof {
                    let n = old(self).entries@.len() as int;
                    assert(self.keys() =~= old(self).keys().push(key@));
                    assert(self.values() =~= old(self).values().push(value));
                    assert(self.keys()[n] == key@);
                    assert forall|k: Seq<char>| self.keys().contains(k) implies self@[k]
                        == old(self)@.insert(key@, value)[k] && (k == key@ || old(
                        self,
                    ).keys().contains(k)) by {
                        let j = self.keys().index_of(k);
                        assert(self.keys()[j] == k);
                        if j == n {
                            assert(k == key@);
                        } else {
                            assert(old(self).keys()[j] == k);
                            old(self).lemma_at(j);
                        }
                    }
                    assert forall|k: Seq<char>| old(self).keys().contains(k) implies
                        self.keys().contains(k) by {
                        let j = old(self).keys().index_of(k);
                        assert(self.keys()[j] == k);
                    }
                    assert(self@ =~= old(self)@.insert(key@, value));
                }
            },
        }
    }

    /// Takes a key and its value out.
    pub fn remove(&mut self, key: &str)
        requires
            old(self).wf(),
        ensures
            final(self).wf(),
            final(self)@ == old(self)@.remove(key@),
            final(self).keys() == old(self).keys().remove_value(key@),
    {
        match self.position(key) {
            Some(i) => {
                self.entries.remove(i);
                proof {
                    let keys = old(self).keys();
                    assert(self.keys() =~= keys.remove(i as int));
                    assert(self.values() =~= old(self).values().remove(i as int));
                    assert(keys.contains(key@));
                    assert forall|k: Seq<char>| self.keys().contains(k) implies k != key@
                        && keys.contains(k) && self@[k] == old(self)@[k] by {
                        let j = self.keys().index_of(k);
                        let o = if j < i {
                            j
                        } else {
                            j + 1
                        };
                        assert(self.keys()[j] == k);
                        assert(keys[o] == k);
                        old(self).lemma_at(o);
                    }
                    assert forall|k: Seq<char>| k != key@ && keys.contains(k) implies
                        self.keys().contains(k) by {
                        let o = keys.index_of(k);
                        if o < i {
                            assert(self.keys()[o] == k);
                        } else {
                            assert(self.keys()[o - 1] == k);
                        }
                    }
                    assert(self@ =~= old(self)@.remove(key@));
                    let first = keys.index_of_first(key@);
                    keys.index_of_first_ensures(key@);
                    assert(first == Some(i as int));
                }
            },
            None => {
                proof {
                    self.keys().index_of_first_ensures(key@);
                    assert(self@ =~= old(self)@.remove(key@));
                }
            },
        }
    }
}

/// A table is read by its keys: it has a value for those and no others, and at the place of a key
/// stands its value.
pub proof fn law_table_by_its_keys<V>(table: Table<V>, i: int, key: Seq<char>)
    requires
        table.wf(),
    ensures
        table@.dom().contains(key) <==> table.keys().contains(key),
        0 <= i < table.keys().len() && table.keys()[i] == key ==> table@[key] == table.values()[i],
{
    if 0 <= i < table.keys().len() && table.keys()[i] == key {
        table.lemma_at(i);
    }
}

} // verus!
