//! A key-value dictionary that finds its entries by linear search. Keys and
//! values are kept in two buffers of equal length: the value of the key at
//! an index is the value at the same index.

use crate::compact::{lemma_stored_at_frame, Compact};
use crate::compact_vec::{CompactVec, VEC_FIXED_SIZE};
use crate::entries::{
    distinct_keys, inserted, inserted_all, is_first_match, lemma_position_of_absent, lemma_position_of_match,
    lemma_push_keeps_distinct, lemma_remove_keeps_distinct, lemma_swapped_keeps_distinct,
    lemma_update_keeps_keys, most_frequently_used, most_recently_used, position_of, removed,
    swapped, value_at, with_values,
};
use crate::pointer_to_maybe_compact::Inner;
use vstd::laws_eq::obeys_concrete_eq;
use vstd::prelude::*;
use vstd::std_specs::iter::IteratorSpec;
use vstd::std_specs::slice::into_iter_elts;

verus! {

/// A dictionary of entries in the order that insertions and lookups have
/// given them. No two entries have the same key.
#[derive(Debug)]
pub struct CompactDict<K: Copy, V: Compact + Clone> {
    keys: CompactVec<K>,
    values: CompactVec<V>,
}

impl<K: Copy, V: Compact + Clone> View for CompactDict<K, V> {
    type V = Seq<(K, V)>;

    closed spec fn view(&self) -> Seq<(K, V)> {
        Seq::new(self.keys@.len(), |i: int| (self.keys@[i], self.values@[i]))
    }
}

impl<K: Copy, V: Compact + Clone> CompactDict<K, V> {
    /// The two buffers have the same length.
    pub closed spec fn aligned(&self) -> bool {
        self.keys@.len() == self.values@.len()
    }

    /// The invariant of the dictionary: keys and values are aligned, and no
    /// key occurs twice.
    pub open spec fn wf(&self) -> bool {
        self.aligned() && distinct_keys(self@)
    }

    /// The state of the pointer to the storage of the keys.
    pub closed spec fn keys_pointer(&self) -> Inner {
        self.keys.pointer()
    }

    /// The state of the pointer to the storage of the values.
    pub closed spec fn values_pointer(&self) -> Inner {
        self.values.pointer()
    }
}

impl<K: Copy + Compact, V: Compact + Clone> CompactDict<K, V> {
    /// What holds of a valid dictionary holds of its two buffers.
    proof fn lemma_buffers_of_valid(&self)
        requires
            self.valid(),
        ensures
            self.keys.valid(),
            self.values.valid(),
            self.keys@.len() == self.values@.len(),
            self.keys.content() == self.content().0,
            self.values.content() == self.content().1,
            self.still_compact() == (self.keys.still_compact() && self.values.still_compact()),
    {
        assert(self.keys.content() =~= self.content().0);
        assert(self.values.content() =~= self.content().1);
        assert forall|i: int| 0 <= i < self.keys@.len() implies (#[trigger] self.keys@[i]).valid() by {
            assert(self@[i].0.valid());
        }
        assert forall|i: int| 0 <= i < self.values@.len() implies (
        #[trigger] self.values@[i]).valid() by {
            assert(self@[i].1.valid());
        }
        if self.keys.still_compact() && self.values.still_compact() {
            assert forall|i: int| 0 <= i < self@.len() implies (
            #[trigger] self@[i]).0.still_compact() && self@[i].1.still_compact() by {
                assert(self.keys@[i].still_compact());
                assert(self.values@[i].still_compact());
            }
        }
        if self.still_compact() {
            assert forall|i: int| 0 <= i < self.keys@.len() implies (
            #[trigger] self.keys@[i]).still_compact() by {
                assert(self@[i].0.still_compact());
            }
            assert forall|i: int| 0 <= i < self.values@.len() implies (
            #[trigger] self.values@[i]).still_compact() by {
                assert(self@[i].1.still_compact());
            }
        }
    }
}

impl<K: Eq + Copy, V: Compact + Clone> CompactDict<K, V> {

    /// Create new, empty dictionary
    pub fn new() -> (dict: Self)
        ensures
            dict@ == Seq::<(K, V)>::empty(),
            dict.wf(),
            dict.keys_pointer() == Inner::Uninitialized,
            dict.values_pointer() == Inner::Uninitialized,
    {
        let dict = CompactDict { keys: CompactVec::new(), values: CompactVec::new() };
        assert(dict@ =~= Seq::<(K, V)>::empty());
        dict
    }

    /// Create new, empty dictionary with storage for `cap` entries
    pub fn with_capacity(cap: usize) -> (dict: Self)
        ensures
            dict@ == Seq::<(K, V)>::empty(),
            dict.wf(),
            dict.keys_pointer() is Free,
            dict.values_pointer() is Free,
    {
        let dict = CompactDict {
            keys: CompactVec::with_capacity(cap),
            values: CompactVec::with_capacity(cap),
        };
        assert(dict@ =~= Seq::<(K, V)>::empty());
        dict
    }

    /// Amount of entries in the dictionary
    pub fn len(&self) -> (len: usize)
        ensures
            len == self@.len(),
    {
        self.keys.len()
    }

    /// Is the dictionary empty?
    pub fn is_empty(&self) -> (empty: bool)
        ensures
            empty == (self@.len() == 0),
    {
        self.keys.is_empty()
    }

    /// The index of the entry for `query`, found by a scan from the front.
    fn position(&self, query: K) -> (index: Option<usize>)
        requires
            obeys_concrete_eq::<K>(),
        ensures
            match index {
                Some(i) => position_of(self@, query) == Some(i as int) && is_first_match(
                    self@,
                    query,
                    i as int,
                ),
                None => position_of(self@, query) is None,
            },
    {
        let mut i: usize = 0;
        while i < self.keys.len()
            invariant
                i <= self.keys@.len(),
                obeys_concrete_eq::<K>(),
                forall|j: int| 0 <= j < i ==> self@[j].0 != query,
            decreases self.keys@.len() - i,
        {
            proof {
                reveal(obeys_concrete_eq);
            }
            if *self.keys.get(i) == query {
                proof {
                    lemma_position_of_match(self@, query, i as int);
                }
                return Some(i);
            }
            i += 1;
        }
        proof {
            lemma_position_of_absent(self@, query);
        }
        None
    }

    /// Look up the value for key `query`, if it exists
    pub fn get(&self, query: K) -> (value: Option<&V>)
        requires
            self.wf(),
            obeys_concrete_eq::<K>(),
        ensures
            match value {
                Some(value) => value_at(self@, query) == Some(*value),
                None => value_at(self@, query) is None,
            },
    {
        match self.position(query) {
            Some(i) => Some(self.values.get(i)),
            None => None,
        }
    }

    /// Look up the value for key `query` mutably, if it exists
    pub fn get_mut(&mut self, query: K) -> (value: Option<&mut V>)
        requires
            old(self).wf(),
            obeys_concrete_eq::<K>(),
        ensures
            match position_of(old(self)@, query) {
                Some(i) => value is Some && *value.unwrap() == old(self)@[i].1 && final(self)@
                    == old(self)@.update(i, (query, *final(value.unwrap()))),
                None => value is None && final(self)@ == old(self)@,
            },
            final(self).wf(),
            final(self).keys_pointer() == old(self).keys_pointer(),
            final(self).values_pointer() == old(self).values_pointer(),
    {
        match self.position(query) {
            Some(i) => {
                proof {
                    let entries = self@;
                    assert forall|value: V|
                        distinct_keys(#[trigger] entries.update(i as int, (query, value))) by {
                        lemma_update_keeps_keys(entries, i as int, value);
                    }
                }
                Some(self.values.get_mut(i))
            },
            None => None,
        }
    }

    /// Look up the value for key `query`, if it exists, and exchange its
    /// entry with the first one, so that a repeated lookup for that key
    /// finds it at once.
    pub fn get_mru(&mut self, query: K) -> (value: Option<&V>)
        requires
            old(self).wf(),
            obeys_concrete_eq::<K>(),
        ensures
            match value {
                Some(value) => value_at(old(self)@, query) == Some(*value),
                None => value_at(old(self)@, query) is None,
            },
            final(self)@ == most_recently_used(old(self)@, query),
            final(self).wf(),
            final(self).keys_pointer() == old(self).keys_pointer(),
            final(self).values_pointer() == old(self).values_pointer(),
    {
        match self.position(query) {
            Some(i) => {
                self.keys.swap(0, i);
                self.values.swap(0, i);
                proof {
                    lemma_swapped_keeps_distinct(old(self)@, 0, i as int);
                    assert(self@ =~= swapped(old(self)@, 0, i as int));
                }
                Some(self.values.get(0))
            },
            None => None,
        }
    }

    /// Look up the value for key `query`, if it exists, and move its entry
    /// one index towards the front, so that lookups for keys that are asked
    /// for often become faster.
    pub fn get_mfu(&mut self, query: K) -> (value: Option<&V>)
        requires
            old(self).wf(),
            obeys_concrete_eq::<K>(),
        ensures
            match value {
                Some(value) => value_at(old(self)@, query) == Some(*value),
                None => value_at(old(self)@, query) is None,
            },
            final(self)@ == most_frequently_used(old(self)@, query),
            final(self).wf(),
            final(self).keys_pointer() == old(self).keys_pointer(),
            final(self).values_pointer() == old(self).values_pointer(),
    {
        match self.position(query) {
            Some(i) => {
                if i > 0 {
                    self.keys.swap(i - 1, i);
                    self.values.swap(i - 1, i);
                    proof {
                        lemma_swapped_keeps_distinct(old(self)@, i - 1, i as int);
                        assert(self@ =~= swapped(old(self)@, i - 1, i as int));
                    }
                    Some(self.values.get(i - 1))
                } else {
                    Some(self.values.get(0))
                }
            },
            None => None,
        }
    }

    /// Does the dictionary contain a value for `query`?
    pub fn contains_key(&self, query: K) -> (found: bool)
        requires
            obeys_concrete_eq::<K>(),
        ensures
            found == value_at(self@, query) is Some,
    {
        self.position(query).is_some()
    }

    /// Insert new value at key `query` and return the previous value at that key, if any existed
    pub fn insert(&mut self, query: K, new_value: V) -> (previous: Option<V>)
        requires
            old(self).wf(),
            obeys_concrete_eq::<K>(),
        ensures
            previous == value_at(old(self)@, query),
            final(self)@ == inserted(old(self)@, query, new_value),
            final(self).wf(),
            previous is Some ==> final(self).keys_pointer() == old(self).keys_pointer()
                && final(self).values_pointer() == old(self).values_pointer(),
            previous is None ==> final(self).keys_pointer() is Free
                && final(self).values_pointer() is Free,
    {
        match self.position(query) {
            Some(i) => {
                let previous = self.values.replace(i, new_value);
                proof {
                    lemma_update_keeps_keys(old(self)@, i as int, new_value);
                    assert(self@ =~= old(self)@.update(i as int, (query, new_value)));
                }
                Some(previous)
            },
            None => {
                self.keys.push(query);
                self.values.push(new_value);
                proof {
                    lemma_push_keeps_distinct(old(self)@, query, new_value);
                    assert(self@ =~= old(self)@.push((query, new_value)));
                }
                None
            },
        }
    }

    /// Remove value at key `query` and return it, if it existed
    pub fn remove(&mut self, query: K) -> (value: Option<V>)
        requires
            old(self).wf(),
            obeys_concrete_eq::<K>(),
        ensures
            value == value_at(old(self)@, query),
            final(self)@ == removed(old(self)@, query),
            final(self).wf(),
            final(self).keys_pointer() == old(self).keys_pointer(),
            final(self).values_pointer() == old(self).values_pointer(),
    {
        match self.position(query) {
            Some(i) => {
                self.keys.remove(i);
                let removed = self.values.remove(i);
                proof {
                    lemma_remove_keeps_distinct(old(self)@, i as int);
                    assert(self@ =~= old(self)@.remove(i as int));
                }
                Some(removed)
            },
            None => None,
        }
    }

    /// Insert every pair, in the order of the pairs
    pub fn extend(&mut self, pairs: Vec<(K, V)>)
        requires
            old(self).wf(),
            obeys_concrete_eq::<K>(),
        ensures
            final(self)@ == inserted_all(old(self)@, pairs@),
            final(self).wf(),
            final(self)@.len() >= old(self)@.len(),
            final(self)@.len() == old(self)@.len() ==> final(self).keys_pointer() == old(
                self,
            ).keys_pointer() && final(self).values_pointer() == old(self).values_pointer(),
            final(self)@.len() > old(self)@.len() ==> final(self).keys_pointer() is Free
                && final(self).values_pointer() is Free,
    {
        let ghost all = pairs@;
        for pair in iter: pairs
            invariant
                self.wf(),
                obeys_concrete_eq::<K>(),
                iter.seq() == all,
                self@ == inserted_all(old(self)@, all.take(iter.index() as int)),
                self@.len() >= old(self)@.len(),
                self@.len() == old(self)@.len() ==> self.keys_pointer() == old(
                    self,
                ).keys_pointer() && self.values_pointer() == old(self).values_pointer(),
                self@.len() > old(self)@.len() ==> self.keys_pointer() is Free
                    && self.values_pointer() is Free,
        {
            proof {
                let next = all.take(iter.index() + 1);
                assert(next.drop_last() =~= all.take(iter.index() as int));
                assert(next.last() == pair);
            }
            self.insert(pair.0, pair.1);
        }
        assert(all.take(all.len() as int) =~= all);
    }

    /// Construct a dictionary from key-value pairs: every pair is inserted,
    /// in the order of the pairs
    pub fn from_iter(pairs: Vec<(K, V)>) -> (dict: Self)
        requires
            obeys_concrete_eq::<K>(),
        ensures
            dict@ == inserted_all(Seq::<(K, V)>::empty(), pairs@),
            dict.wf(),
    {
        let mut dict = Self::new();
        dict.extend(pairs);
        dict
    }

    /// Iterator over all keys in the dictionary
    pub fn keys(&self) -> (keys: std::slice::Iter<'_, K>)
        ensures
            into_iter_elts(keys) == Seq::new(self@.len(), |i: int| self@[i].0),
    {
        let keys = self.keys.as_slice().iter();
        assert(into_iter_elts(keys) =~= Seq::new(self@.len(), |i: int| self@[i].0));
        keys
    }

    /// Iterator over all values in the dictionary
    pub fn values(&self) -> (values: std::slice::Iter<'_, V>)
        requires
            self.wf(),
        ensures
            into_iter_elts(values) == Seq::new(self@.len(), |i: int| self@[i].1),
    {
        let values = self.values.as_slice().iter();
        assert(into_iter_elts(values) =~= Seq::new(self@.len(), |i: int| self@[i].1));
        values
    }

    /// All values in the dictionary, for writing. The keys stay as they are.
    pub fn values_mut(&mut self) -> (values: &mut [V])
        requires
            old(self).wf(),
        ensures
            values@ == Seq::new(old(self)@.len(), |i: int| old(self)@[i].1),
            final(self)@ == with_values(old(self)@, final(values)@),
            final(values)@.len() == values@.len() ==> final(self).wf(),
            final(self).keys_pointer() == old(self).keys_pointer(),
            final(self).values_pointer() == old(self).values_pointer(),
    {
        proof {
            let entries = self@;
            assert(self.values@ =~= Seq::new(entries.len(), |i: int| entries[i].1));
            assert forall|written: Seq<V>|
                distinct_keys(#[trigger] with_values(entries, written)) by {
                let after = with_values(entries, written);
                assert forall|i: int, j: int| 0 <= i < j < after.len() implies after[i].0
                    != after[j].0 by {
                    assert(after[i].0 == entries[i].0);
                    assert(after[j].0 == entries[j].0);
                }
            }
        }
        self.values.as_mut_slice()
    }

    /// All key-value pairs in the dictionary, in their order
    pub fn pairs(&self) -> (pairs: Vec<(&K, &V)>)
        requires
            self.wf(),
        ensures
            pairs@.len() == self@.len(),
            forall|i: int|
                0 <= i < self@.len() ==> *(#[trigger] pairs@[i]).0 == self@[i].0 && *pairs@[i].1
                    == self@[i].1,
    {
        let mut pairs: Vec<(&K, &V)> = Vec::new();
        let mut i: usize = 0;
        while i < self.keys.len()
            invariant
                self.wf(),
                i <= self@.len(),
                pairs@.len() == i,
                forall|j: int|
                    0 <= j < i ==> *(#[trigger] pairs@[j]).0 == self@[j].0 && *pairs@[j].1
                        == self@[j].1,
            decreases self@.len() - i,
        {
            pairs.push((self.keys.get(i), self.values.get(i)));
            i += 1;
        }
        pairs
    }
}

impl<K: Eq + Copy, I: Compact + Clone> CompactDict<K, CompactVec<I>> {
    /// Push a value onto the buffer at the key `query`; where the key has
    /// no buffer yet, it gets one that holds the value.
    pub fn push_at(&mut self, query: K, item: I)
        requires
            old(self).wf(),
            obeys_concrete_eq::<K>(),
        ensures
            match position_of(old(self)@, query) {
                Some(i) => {
                    &&& final(self)@ == old(self)@.update(i, (query, final(self)@[i].1))
                    &&& final(self)@[i].1@ == old(self)@[i].1@.push(item)
                    &&& final(self)@[i].1.pointer() is Free
                    &&& final(self).keys_pointer() == old(self).keys_pointer()
                    &&& final(self).values_pointer() == old(self).values_pointer()
                },
                None => {
                    &&& final(self)@ == old(self)@.push((query, final(self)@.last().1))
                    &&& final(self)@.last().1@ == seq![item]
                    &&& final(self)@.last().1.pointer() is Free
                    &&& final(self).keys_pointer() is Free
                    &&& final(self).values_pointer() is Free
                },
            },
            final(self).wf(),
    {
        match self.position(query) {
            Some(i) => {
                let ghost before = self@[i as int].1;
                let values = self.values.get_mut(i);
                values.push(item);
                proof {
                    lemma_update_keeps_keys(old(self)@, i as int, self@[i as int].1);
                    assert(self@ =~= old(self)@.update(i as int, (query, self@[i as int].1)));
                }
            },
            None => {
                self.keys.push(query);
                let mut vec = CompactVec::new();
                vec.push(item);
                assert(vec@ =~= seq![item]);
                self.values.push(vec);
                proof {
                    lemma_push_keeps_distinct(old(self)@, query, vec);
                    assert(self@ =~= old(self)@.push((query, vec)));
                }
            },
        }
    }

    /// Iterator over the buffer at the key `query`; over nothing where the
    /// key has none.
    pub fn get_iter<'a>(&'a self, query: K) -> (items: std::slice::Iter<'a, I>)
        requires
            self.wf(),
            obeys_concrete_eq::<K>(),
        ensures
            into_iter_elts(items) == match value_at(self@, query) {
                Some(vec) => vec@,
                None => Seq::<I>::empty(),
            },
    {
        match self.get(query) {
            Some(vec) => vec.as_slice().iter(),
            None => {
                let empty: &[I] = &[];
                empty.iter()
            },
        }
    }

    /// Remove the buffer at the key `query` and iterate over its elements
    /// (if it existed)
    pub fn remove_iter(&mut self, query: K) -> (items: std::vec::IntoIter<I>)
        requires
            old(self).wf(),
            obeys_concrete_eq::<K>(),
        ensures
            items.remaining() == match value_at(old(self)@, query) {
                Some(vec) => vec@,
                None => Seq::<I>::empty(),
            },
            final(self)@ == removed(old(self)@, query),
            final(self).wf(),
            final(self).keys_pointer() == old(self).keys_pointer(),
            final(self).values_pointer() == old(self).values_pointer(),
    {
        match self.remove(query) {
            Some(vec) => vec.into_vec().into_iter(),
            None => {
                let empty: Vec<I> = Vec::new();
                empty.into_iter()
            },
        }
    }
}

impl<K: Copy, V: Compact + Clone> Clone for CompactDict<K, V> {
    /// A dictionary with the same keys in the same order, the value of
    /// each a clone of the value here, in heap storage of its own.
    fn clone(&self) -> (copy: Self)
        ensures
            self.aligned() ==> copy.aligned(),
            copy@.len() == self@.len(),
            forall|i: int|
                0 <= i < self@.len() && self.aligned() ==> (#[trigger] copy@[i]).0 == self@[i].0
                    && cloned::<V>(self@[i].1, copy@[i].1),
            self.wf() ==> copy.wf(),
            copy.keys_pointer() is Free,
            copy.values_pointer() is Free,
    {
        let mut keys = CompactVec::with_capacity(self.keys.len());
        keys.extend_from_copy_slice(self.keys.as_slice());
        assert(keys@ =~= self.keys@);
        let values = self.values.clone();
        let copy = CompactDict { keys, values };
        proof {
            if self.wf() {
                assert forall|i: int, j: int| 0 <= i < j < copy@.len() implies copy@[i].0
                    != copy@[j].0 by {
                    assert(self@[i].0 != self@[j].0);
                }
            }
        }
        copy
    }
}

impl<K: Copy + Eq, V: Compact + Clone> Default for CompactDict<K, V> {
    /// The empty dictionary.
    fn default() -> (dict: Self)
        ensures
            dict@ == Seq::<(K, V)>::empty(),
            dict.wf(),
    {
        CompactDict::new()
    }
}

/// The number of bytes that the fixed part of a dictionary occupies in a
/// region: the fixed part of the keys, then that of the values.
pub const DICT_FIXED_SIZE: usize = 34;

impl<K: Copy + Compact, V: Compact + Clone> Compact for CompactDict<K, V> {
    type Content = (Seq<K::Content>, Seq<V::Content>);

    open spec fn content(&self) -> (Seq<K::Content>, Seq<V::Content>) {
        (
            Seq::new(self@.len(), |i: int| self@[i].0.content()),
            Seq::new(self@.len(), |i: int| self@[i].1.content()),
        )
    }

    open spec fn valid(&self) -> bool {
        &&& self.wf()
        &&& self.content().0.no_duplicates()
        &&& forall|i: int|
            0 <= i < self@.len() ==> (#[trigger] self@[i]).0.valid() && self@[i].1.valid()
    }

    open spec fn still_compact(&self) -> bool {
        &&& !(self.keys_pointer() is Free)
        &&& !(self.values_pointer() is Free)
        &&& forall|i: int|
            0 <= i < self@.len() ==> (#[trigger] self@[i]).0.still_compact()
                && self@[i].1.still_compact()
    }

    open spec fn detached(&self) -> bool {
        &&& self.keys_pointer() is Free
        &&& self.values_pointer() is Free
        &&& forall|i: int|
            0 <= i < self@.len() ==> (#[trigger] self@[i]).0.detached() && self@[i].1.detached()
    }

    open spec fn fixed_size() -> nat {
        DICT_FIXED_SIZE as nat
    }

    open spec fn dynamic_size(content: (Seq<K::Content>, Seq<V::Content>)) -> nat {
        CompactVec::<K>::dynamic_size(content.0) + CompactVec::<V>::dynamic_size(content.1)
    }

    open spec fn offsets_fit(
        position: int,
        dynamic_start: int,
        content: (Seq<K::Content>, Seq<V::Content>),
    ) -> bool {
        &&& CompactVec::<K>::offsets_fit(position, dynamic_start, content.0)
        &&& CompactVec::<V>::offsets_fit(
            position + VEC_FIXED_SIZE,
            dynamic_start + CompactVec::<K>::dynamic_size(content.0),
            content.1,
        )
    }

    open spec fn stored_at(
        region: Seq<u8>,
        position: int,
        dynamic_start: int,
        content: (Seq<K::Content>, Seq<V::Content>),
    ) -> bool {
        &&& content.0.len() == content.1.len()
        &&& content.0.no_duplicates()
        &&& CompactVec::<K>::stored_at(region, position, dynamic_start, content.0)
        &&& CompactVec::<V>::stored_at(
            region,
            position + VEC_FIXED_SIZE,
            dynamic_start + CompactVec::<K>::dynamic_size(content.0),
            content.1,
        )
    }

    open spec fn decoded(region: Seq<u8>, position: int) -> Option<
        (Seq<K::Content>, Seq<V::Content>),
    > {
        match (
            CompactVec::<K>::decoded(region, position),
            CompactVec::<V>::decoded(region, position + VEC_FIXED_SIZE),
        ) {
            (Some(keys), Some(values)) => if keys.len() == values.len() && keys.no_duplicates() {
                Some((keys, values))
            } else {
                None
            },
            _ => None,
        }
    }

    proof fn lemma_offsets_fit_nearby(
        position: int,
        dynamic_start: int,
        content: (Seq<K::Content>, Seq<V::Content>),
    ) {
        CompactVec::<K>::lemma_offsets_fit_nearby(position, dynamic_start, content.0);
        CompactVec::<V>::lemma_offsets_fit_nearby(
            position + VEC_FIXED_SIZE,
            dynamic_start + CompactVec::<K>::dynamic_size(content.0),
            content.1,
        );
    }

    proof fn lemma_stored_at_inside(
        region: Seq<u8>,
        position: int,
        dynamic_start: int,
        content: (Seq<K::Content>, Seq<V::Content>),
    ) {
    }

    proof fn lemma_stored_at_moved(
        region: Seq<u8>,
        moved: Seq<u8>,
        position: int,
        dynamic_start: int,
        shift: int,
        content: (Seq<K::Content>, Seq<V::Content>),
    ) {
        CompactVec::<K>::lemma_stored_at_moved(
            region,
            moved,
            position,
            dynamic_start,
            shift,
            content.0,
        );
        CompactVec::<V>::lemma_stored_at_moved(
            region,
            moved,
            position + VEC_FIXED_SIZE,
            dynamic_start + CompactVec::<K>::dynamic_size(content.0),
            shift,
            content.1,
        );
    }

    proof fn lemma_stored_at_decoded(
        region: Seq<u8>,
        position: int,
        dynamic_start: int,
        content: (Seq<K::Content>, Seq<V::Content>),
    ) {
        CompactVec::<K>::lemma_stored_at_decoded(region, position, dynamic_start, content.0);
        CompactVec::<V>::lemma_stored_at_decoded(
            region,
            position + VEC_FIXED_SIZE,
            dynamic_start + CompactVec::<K>::dynamic_size(content.0),
            content.1,
        );
    }

    fn is_still_compact(&self) -> (compact: bool) {
        proof {
            self.lemma_buffers_of_valid();
        }
        self.keys.is_still_compact() && self.values.is_still_compact()
    }

    fn fixed_size_bytes() -> (size: usize) {
        DICT_FIXED_SIZE
    }

    fn dynamic_size_bytes(&self) -> (size: usize) {
        proof {
            self.lemma_buffers_of_valid();
        }
        self.keys.dynamic_size_bytes() + self.values.dynamic_size_bytes()
    }

    fn compact(self, region: &mut Vec<u8>, dest: usize, dynamic_start: usize) {
        let ghost content = self.content();
        proof {
            self.lemma_buffers_of_valid();
        }
        let end: usize = region.len();
        let CompactDict { keys, values } = self;
        let keys_share = keys.dynamic_size_bytes();
        keys.compact(region, dest, dynamic_start);
        let ghost between = region@;
        values.compact(region, dest + VEC_FIXED_SIZE, dynamic_start + keys_share);
        proof {
            lemma_stored_at_frame::<CompactVec<K>>(
                between,
                region@,
                dest as int,
                dynamic_start as int,
                content.0,
            );
            Self::lemma_stored_at_decoded(region@, dest as int, dynamic_start as int, content);
        }
    }

    fn decompact(region: &[u8], source: usize) -> (value: Self) {
        let end: usize = region.len();
        let keys = CompactVec::<K>::decompact(region, source);
        let values = CompactVec::<V>::decompact(region, source + VEC_FIXED_SIZE);
        let value = CompactDict { keys, values };
        proof {
            let content = Self::decoded(region@, source as int).unwrap();
            assert(value.content().0 =~= content.0);
            assert(value.content().1 =~= content.1);
            assert forall|i: int, j: int| 0 <= i < j < value@.len() implies value@[i].0
                != value@[j].0 by {
                assert(content.0[i] == value@[i].0.content());
                assert(content.0[j] == value@[j].0.content());
            }
            assert forall|i: int| 0 <= i < value@.len() implies (#[trigger] value@[i]).0.valid()
                && value@[i].1.valid() && value@[i].0.detached() && value@[i].1.detached() by {
                assert(value.keys@[i].valid() && value.keys@[i].detached());
                assert(value.values@[i].valid() && value.values@[i].detached());
            }
        }
        value
    }
}

} // verus!
