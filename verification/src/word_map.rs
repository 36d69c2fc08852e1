//! Finite maps keyed by words, kept in the order of first insertion.

use vstd::prelude::*;
use crate::word::Word;

verus! {

/// The keys of a list of entries, in order.
pub open spec fn keys_of<V>(entries: Seq<(Word, V)>) -> Seq<Word> {
    Seq::new(entries.len(), |i: int| entries[i].0)
}

/// A map from words to values: a list of entries in the order in which the
/// keys were first inserted.  A well-formed map has no two entries with the
/// same key; `new` makes such a map and every operation keeps it so.
#[derive(Debug)]
pub struct WordMap<V> {
    entries: Vec<(Word, V)>,
}

impl<V> View for WordMap<V> {
    type V = Map<Word, V>;

    closed spec fn view(&self) -> Map<Word, V> {
        Map::new(
            |k: Word| keys_of(self.entries@).contains(k),
            |k: Word| self.entries@[keys_of(self.entries@).index_of(k)].1,
        )
    }
}

impl<V> WordMap<V> {
    /// No two entries have the same key.
    pub closed spec fn wf(&self) -> bool {
        keys_of(self.entries@).no_duplicates()
    }

    /// The keys in the order of first insertion.
    pub closed spec fn keys(&self) -> Seq<Word> {
        keys_of(self.entries@)
    }

    pub fn new() -> (r: Self)
        ensures
            r.wf(),
            r@ == Map::<Word, V>::empty(),
            r.keys() == Seq::<Word>::empty(),
    {
        let r = WordMap { entries: Vec::new() };
        assert(keys_of(r.entries@) =~= Seq::<Word>::empty());
        assert(r@ =~= Map::<Word, V>::empty());
        r
    }

    /// The number of entries.
    pub fn len(&self) -> (r: usize)
        ensures
            r == self.keys().len(),
            self@.dom() == self.keys().to_set(),
            self.wf() ==> self.keys().no_duplicates(),
    {
        proof {
            assert(self@.dom() =~= self.keys().to_set());
        }
        self.entries.len()
    }

    /// The keys of a well-formed map are distinct and are its domain.
    pub proof fn lemma_keys(&self)
        requires
            self.wf(),
        ensures
            self.keys().no_duplicates(),
            self@.dom() == self.keys().to_set(),
            self@.dom().finite(),
            forall|i: int| 0 <= i < self.keys().len() ==> self@.contains_key(#[trigger] self.keys()[i]),
    {
        assert(self@.dom() =~= self.keys().to_set());
        vstd::seq_lib::seq_to_set_is_finite(self.keys());
        assert forall|i: int| 0 <= i < self.keys().len() implies self@.contains_key(
            #[trigger] self.keys()[i],
        ) by {
            assert(self.keys().contains(self.keys()[i]));
        }
    }

    /// The place of `key` in the order, if it has an entry.
    pub fn position(&self, key: &Word) -> (r: Option<usize>)
        ensures
            r matches Some(i) ==> i < self.keys().len() && self.keys()[i as int] == *key
                && self@.contains_key(*key),
            r is None ==> !self@.contains_key(*key),
    {
        let mut i: usize = 0;
        while i < self.entries.len()
            invariant
                i <= self.entries.len(),
                forall|j: int| 0 <= j < i ==> keys_of(self.entries@)[j] != *key,
            decreases self.entries.len() - i,
        {
            if self.entries[i].0 == *key {
                assert(keys_of(self.entries@)[i as int] == *key);
                return Some(i);
            }
            i += 1;
        }
        None
    }

    /// Whether `key` has an entry.
    pub fn contains_key(&self, key: &Word) -> (r: bool)
        ensures
            r == self@.contains_key(*key),
    {
        self.position(key).is_some()
    }

    /// The key at a place of the order.
    pub fn key_at(&self, i: usize) -> (r: Word)
        requires
            i < self.keys().len(),
        ensures
            r == self.keys()[i as int],
            self@.contains_key(r),
    {
        assert(keys_of(self.entries@)[i as int] == self.entries@[i as int].0);
        self.entries[i].0
    }

    /// The value at a place of the order.
    pub fn value_at(&self, i: usize) -> (r: &V)
        requires
            self.wf(),
            i < self.keys().len(),
        ensures
            self@.contains_key(self.keys()[i as int]),
            *r == self@[self.keys()[i as int]],
    {
        proof {
            let ks = keys_of(self.entries@);
            assert(ks[i as int] == self.entries@[i as int].0);
            assert(ks.contains(ks[i as int]));
            ks.index_of_first_ensures(ks[i as int]);
            assert(ks.index_of(ks[i as int]) == i);
        }
        &self.entries[i].1
    }

    /// The value of `key`, if it has an entry.
    pub fn get(&self, key: &Word) -> (r: Option<&V>)
        requires
            self.wf(),
        ensures
            r == (if self@.contains_key(*key) {
                Some(&self@[*key])
            } else {
                None
            }),
    {
        match self.position(key) {
            Some(i) => Some(self.value_at(i)),
            None => None,
        }
    }

    /// Gives `key` the value `value`, in place of the one it had if any.
    pub fn insert(&mut self, key: Word, value: V)
        requires
            old(self).wf(),
        ensures
            final(self).wf(),
            final(self)@ == old(self)@.insert(key, value),
            final(self).keys() == (if old(self)@.contains_key(key) {
                old(self).keys()
            } else {
                old(self).keys().push(key)
            }),
    {
        let found = self.position(&key);
        let ghost before = self.entries@;
        let ghost before_map = self@;
        match found {
            Some(i) => {
                self.entries.set(i, (key, value));
                assert(keys_of(self.entries@) =~= keys_of(before));
            },
            None => {
                self.entries.push((key, value));
                assert(keys_of(self.entries@) =~= keys_of(before).push(key));
            },
        }
        let ghost after = self.entries@;
        proof {
            let ks0 = keys_of(before);
            let ks1 = keys_of(after);
            assert forall|k: Word| ks1.contains(k) <==> (k == key || ks0.contains(k)) by {
                if ks0.contains(k) {
                    let j = choose|j: int| 0 <= j < ks0.len() && ks0[j] == k;
                    assert(ks1[j] == k);
                }
                if k == key {
                    match found {
                        Some(i) => {
                            assert(ks1[i as int] == k);
                        },
                        None => {
                            assert(ks1[ks0.len() as int] == k);
                        },
                    }
                }
            }
            assert forall|k: Word| ks1.contains(k) implies #[trigger] self@[k] == before_map.insert(
                key,
                value,
            )[k] by {
                ks1.index_of_first_ensures(k);
                let j = ks1.index_of(k);
                if k != key {
                    ks0.index_of_first_ensures(k);
                    let j0 = ks0.index_of(k);
                    assert(ks1[j0] == k);
                    assert(j0 == j);
                } else {
                    match found {
                        Some(i) => {
                            assert(ks1[i as int] == k);
                            assert(j == i);
                        },
                        None => {
                            assert(ks1[ks0.len() as int] == k);
                            assert(j == ks0.len());
                        },
                    }
                }
            }
            assert(self@ =~= before_map.insert(key, value));
        }
    }

    /// The value of `key` for changing it in place.
    pub fn get_mut(&mut self, key: &Word) -> (r: Option<&mut V>)
        requires
            old(self).wf(),
        ensures
            !old(self)@.contains_key(*key) ==> r is None && *final(self) == *old(self),
            old(self)@.contains_key(*key) ==> r is Some && *r->0 == old(self)@[*key]
                && final(self).wf() && final(self).keys() == old(self).keys() && final(self)@ == old(
                self,
            )@.insert(*key, *final(r->0)),
    {
        match self.position(key) {
            Some(i) => Some(self.value_at_mut(i)),
            None => None,
        }
    }

    /// The value at a place of the order for changing it in place.
    pub fn value_at_mut(&mut self, i: usize) -> (r: &mut V)
        requires
            old(self).wf(),
            i < old(self).keys().len(),
        ensures
            *r == old(self)@[old(self).keys()[i as int]],
            final(self).wf(),
            final(self).keys() == old(self).keys(),
            final(self)@ == old(self)@.insert(old(self).keys()[i as int], *final(r)),
    {
        proof {
            let ks = keys_of(self.entries@);
            assert(ks[i as int] == self.entries@[i as int].0);
            assert(ks.contains(ks[i as int]));
            ks.index_of_first_ensures(ks[i as int]);
            assert(ks.index_of(ks[i as int]) == i);
            lemma_update_value(self.entries@, i as int);
        }
        &mut self.entries[i].1
    }
}

/// Changing the value of one entry leaves the keys as they are.
proof fn lemma_update_value<V>(entries: Seq<(Word, V)>, i: int)
    requires
        0 <= i < entries.len(),
    ensures
        forall|v: V| #[trigger] keys_of(entries.update(i, (entries[i].0, v))) == keys_of(entries),
{
    assert forall|v: V| #[trigger] keys_of(entries.update(i, (entries[i].0, v))) == keys_of(
        entries,
    ) by {
        assert(keys_of(entries.update(i, (entries[i].0, v))) =~= keys_of(entries));
    }
}

} // verus!
