//! The dictionary as a sequence of entries: what a lookup finds, what an
//! insertion, a removal and a reordering lookup make of the sequence, and
//! what holds of these together.

use vstd::prelude::*;

verus! {

/// The value of the first entry with this key, if there is one: what a
/// lookup finds.
pub open spec fn value_at<K, V>(entries: Seq<(K, V)>, key: K) -> Option<V> {
    match position_of(entries, key) {
        Some(i) => Some(entries[i].1),
        None => None,
    }
}

/// The entries after an insertion: the entry with this key has the new
/// value, or, where there was none, a new entry stands at the end.
pub open spec fn inserted<K, V>(entries: Seq<(K, V)>, key: K, value: V) -> Seq<(K, V)> {
    match position_of(entries, key) {
        Some(i) => entries.update(i, (key, value)),
        None => entries.push((key, value)),
    }
}

/// The entries after a removal: the entry with this key is gone and the
/// later ones have moved one place towards the front.
pub open spec fn removed<K, V>(entries: Seq<(K, V)>, key: K) -> Seq<(K, V)> {
    match position_of(entries, key) {
        Some(i) => entries.remove(i),
        None => entries,
    }
}

/// The entries after a lookup that moves what it finds to the front: the
/// entry with this key and the first one have changed places.
pub open spec fn most_recently_used<K, V>(entries: Seq<(K, V)>, key: K) -> Seq<(K, V)> {
    match position_of(entries, key) {
        Some(i) => swapped(entries, 0, i),
        None => entries,
    }
}

/// The entries after a lookup that moves what it finds one step towards the
/// front: the entry with this key and the one before it have changed
/// places.
pub open spec fn most_frequently_used<K, V>(entries: Seq<(K, V)>, key: K) -> Seq<(K, V)> {
    match position_of(entries, key) {
        Some(i) => if i > 0 {
            swapped(entries, i - 1, i)
        } else {
            entries
        },
        None => entries,
    }
}

/// The entries after the insertion of every pair, in the order of the
/// pairs.
pub open spec fn inserted_all<K, V>(entries: Seq<(K, V)>, pairs: Seq<(K, V)>) -> Seq<(K, V)>
    decreases pairs.len(),
{
    if pairs.len() == 0 {
        entries
    } else {
        inserted(inserted_all(entries, pairs.drop_last()), pairs.last().0, pairs.last().1)
    }
}

/// No two entries have the same key.
pub open spec fn distinct_keys<K, V>(entries: Seq<(K, V)>) -> bool {
    forall|i: int, j: int| 0 <= i < j < entries.len() ==> entries[i].0 != entries[j].0
}

/// The entry at `index` is the first one with this key.
pub open spec fn is_first_match<K, V>(entries: Seq<(K, V)>, key: K, index: int) -> bool {
    &&& 0 <= index < entries.len()
    &&& entries[index].0 == key
    &&& forall|j: int| 0 <= j < index ==> entries[j].0 != key
}

/// The index of the first entry with this key, if there is one.
pub open spec fn position_of<K, V>(entries: Seq<(K, V)>, key: K) -> Option<int> {
    if exists|i: int| is_first_match(entries, key, i) {
        Some(choose|i: int| is_first_match(entries, key, i))
    } else {
        None
    }
}

/// The entries with those at `a` and `b` exchanged.
pub open spec fn swapped<K, V>(entries: Seq<(K, V)>, a: int, b: int) -> Seq<(K, V)> {
    entries.update(a, entries[b]).update(b, entries[a])
}

/// The entries with their values replaced, index by index, by `values`.
pub open spec fn with_values<K, V>(entries: Seq<(K, V)>, values: Seq<V>) -> Seq<(K, V)> {
    Seq::new(entries.len(), |i: int| (entries[i].0, values[i]))
}

/// The first entry with a key is the position of that key.
pub proof fn lemma_position_of_match<K, V>(entries: Seq<(K, V)>, key: K, index: int)
    requires
        is_first_match(entries, key, index),
    ensures
        position_of(entries, key) == Some(index),
{
    let chosen = choose|i: int| is_first_match(entries, key, i);
    assert(is_first_match(entries, key, chosen));
    if chosen < index {
        assert(entries[chosen].0 != key);
    }
    if index < chosen {
        assert(entries[index].0 != key);
    }
}

/// A key that no entry has is at no position, and the other way round.
pub proof fn lemma_position_of_absent<K, V>(entries: Seq<(K, V)>, key: K)
    ensures
        position_of(entries, key) is None <==> forall|j: int|
            0 <= j < entries.len() ==> (#[trigger] entries[j]).0 != key,
{
    if position_of(entries, key) is None {
        assert forall|j: int| 0 <= j < entries.len() implies (#[trigger] entries[j]).0 != key by {
            if entries[j].0 == key {
                lemma_first_match_exists(entries, key, j);
            }
        }
    } else {
        let chosen = choose|i: int| is_first_match(entries, key, i);
        assert(entries[chosen].0 == key);
    }
}

/// Where some entry has a key, a first entry has it.
pub proof fn lemma_first_match_exists<K, V>(entries: Seq<(K, V)>, key: K, index: int)
    requires
        0 <= index < entries.len(),
        entries[index].0 == key,
    ensures
        exists|i: int| is_first_match(entries, key, i),
    decreases index,
{
    if forall|j: int| 0 <= j < index ==> entries[j].0 != key {
        assert(is_first_match(entries, key, index));
    } else {
        let earlier = choose|j: int| 0 <= j < index && entries[j].0 == key;
        lemma_first_match_exists(entries, key, earlier);
    }
}

/// A new value for an entry leaves the keys as they are.
pub proof fn lemma_update_keeps_keys<K, V>(entries: Seq<(K, V)>, index: int, value: V)
    requires
        0 <= index < entries.len(),
        distinct_keys(entries),
    ensures
        distinct_keys(entries.update(index, (entries[index].0, value))),
        forall|key: K|
            position_of(entries.update(index, (entries[index].0, value)), key) == position_of(
                entries,
                key,
            ),
{
    let updated = entries.update(index, (entries[index].0, value));
    assert forall|i: int, j: int| 0 <= i < j < updated.len() implies updated[i].0
        != updated[j].0 by {
        assert(updated[i].0 == entries[i].0);
        assert(updated[j].0 == entries[j].0);
    }
    assert forall|key: K| position_of(updated, key) == position_of(entries, key) by {
        lemma_same_keys_same_position(entries, updated, key);
    }
}

/// The position of a key depends on the keys only.
pub proof fn lemma_same_keys_same_position<K, V>(a: Seq<(K, V)>, b: Seq<(K, V)>, key: K)
    requires
        a.len() == b.len(),
        forall|i: int| 0 <= i < a.len() ==> a[i].0 == b[i].0,
    ensures
        position_of(a, key) == position_of(b, key),
{
    if exists|i: int| is_first_match(a, key, i) {
        let index = choose|i: int| is_first_match(a, key, i);
        assert(is_first_match(b, key, index));
        lemma_position_of_match(a, key, index);
        lemma_position_of_match(b, key, index);
    } else if exists|i: int| is_first_match(b, key, i) {
        let index = choose|i: int| is_first_match(b, key, i);
        assert(is_first_match(a, key, index));
    }
}

/// Exchanging two entries leaves every key in the dictionary once.
pub proof fn lemma_swapped_keeps_distinct<K, V>(entries: Seq<(K, V)>, a: int, b: int)
    requires
        0 <= a < entries.len(),
        0 <= b < entries.len(),
        distinct_keys(entries),
    ensures
        distinct_keys(swapped(entries, a, b)),
{
    let after = swapped(entries, a, b);
    let moved = |i: int| if i == a { b } else if i == b { a } else { i };
    assert forall|i: int, j: int| 0 <= i < j < after.len() implies after[i].0 != after[j].0 by {
        assert(after[i] == entries[moved(i)]);
        assert(after[j] == entries[moved(j)]);
        if moved(i) < moved(j) {
            assert(entries[moved(i)].0 != entries[moved(j)].0);
        } else {
            assert(entries[moved(j)].0 != entries[moved(i)].0);
        }
    }
}

/// Taking an entry out leaves every other key in the dictionary once.
pub proof fn lemma_remove_keeps_distinct<K, V>(entries: Seq<(K, V)>, index: int)
    requires
        0 <= index < entries.len(),
        distinct_keys(entries),
    ensures
        distinct_keys(entries.remove(index)),
{
    let after = entries.remove(index);
    let origin = |i: int| if i < index { i } else { i + 1 };
    assert forall|i: int, j: int| 0 <= i < j < after.len() implies after[i].0 != after[j].0 by {
        assert(after[i] == entries[origin(i)]);
        assert(after[j] == entries[origin(j)]);
    }
}

/// An entry with a key that is not in the dictionary can be added at the end.
pub proof fn lemma_push_keeps_distinct<K, V>(entries: Seq<(K, V)>, key: K, value: V)
    requires
        distinct_keys(entries),
        position_of(entries, key) is None,
    ensures
        distinct_keys(entries.push((key, value))),
{
    lemma_position_of_absent(entries, key);
    let after = entries.push((key, value));
    assert forall|i: int, j: int| 0 <= i < j < after.len() implies after[i].0 != after[j].0 by {
        assert(after[i] == entries[i]);
        if j < entries.len() {
            assert(after[j] == entries[j]);
        }
    }
}

/// After an insertion the key has the inserted value and no key occurs
/// twice.
pub proof fn lemma_inserted_holds_value<K, V>(entries: Seq<(K, V)>, key: K, value: V)
    requires
        distinct_keys(entries),
    ensures
        value_at(inserted(entries, key, value), key) == Some(value),
        distinct_keys(inserted(entries, key, value)),
        position_of(entries, key) is Some ==> inserted(entries, key, value).len()
            == entries.len(),
        position_of(entries, key) is None ==> inserted(entries, key, value).len()
            == entries.len() + 1,
{
    match position_of(entries, key) {
        Some(i) => {
            assert(is_first_match(entries, key, i));
            lemma_update_keeps_keys(entries, i, value);
        },
        None => {
            lemma_position_of_absent(entries, key);
            lemma_push_keeps_distinct(entries, key, value);
            let after = entries.push((key, value));
            assert forall|j: int| 0 <= j < entries.len() implies after[j].0 != key by {
                assert(after[j] == entries[j]);
            }
            assert(is_first_match(after, key, entries.len() as int));
            lemma_position_of_match(after, key, entries.len() as int);
        },
    }
}

/// Two insertions under one key: the second one returns the value of the
/// first, leaves the number of entries as it is, and a lookup then finds
/// the value of the second.
pub proof fn law_second_insert_replaces<K, V>(entries: Seq<(K, V)>, key: K, first: V, second: V)
    requires
        distinct_keys(entries),
    ensures
        value_at(inserted(entries, key, first), key) == Some(first),
        inserted(inserted(entries, key, first), key, second).len() == inserted(
            entries,
            key,
            first,
        ).len(),
        value_at(inserted(inserted(entries, key, first), key, second), key) == Some(second),
{
    lemma_inserted_holds_value(entries, key, first);
    lemma_inserted_holds_value(inserted(entries, key, first), key, second);
}

/// A lookup that moves what it finds to the front: the entry that it found
/// is the first one afterwards.
pub proof fn law_most_recently_used_is_first<K, V>(entries: Seq<(K, V)>, key: K)
    requires
        position_of(entries, key) is Some,
    ensures
        position_of(most_recently_used(entries, key), key) == Some(0int),
        most_recently_used(entries, key)[0] == entries[position_of(entries, key).unwrap()],
        most_recently_used(entries, key).len() == entries.len(),
{
    let i = position_of(entries, key).unwrap();
    assert(is_first_match(entries, key, i));
    let after = most_recently_used(entries, key);
    assert(is_first_match(after, key, 0));
    lemma_position_of_match(after, key, 0);
}

/// A lookup that moves what it finds one step towards the front: an entry
/// that it found behind the first place stands one place earlier
/// afterwards, and the entry that stood there has taken its place.
pub proof fn law_most_frequently_used_moves_one_step<K, V>(entries: Seq<(K, V)>, key: K)
    requires
        position_of(entries, key) is Some,
        position_of(entries, key).unwrap() > 0,
    ensures
        position_of(most_frequently_used(entries, key), key) == Some(
            position_of(entries, key).unwrap() - 1,
        ),
        most_frequently_used(entries, key)[position_of(entries, key).unwrap() - 1]
            == entries[position_of(entries, key).unwrap()],
        most_frequently_used(entries, key)[position_of(entries, key).unwrap()]
            == entries[position_of(entries, key).unwrap() - 1],
        most_frequently_used(entries, key).len() == entries.len(),
{
    let i = position_of(entries, key).unwrap();
    assert(is_first_match(entries, key, i));
    let after = most_frequently_used(entries, key);
    assert forall|j: int| 0 <= j < i - 1 implies after[j].0 != key by {
        assert(after[j] == entries[j]);
    }
    assert(is_first_match(after, key, i - 1));
    lemma_position_of_match(after, key, i - 1);
}

/// The removal of a key that is in the dictionary: a lookup then finds
/// nothing, there is one entry less, and the other entries stand in the
/// order in which they stood.
pub proof fn law_removed_is_absent<K, V>(entries: Seq<(K, V)>, key: K)
    requires
        distinct_keys(entries),
        position_of(entries, key) is Some,
    ensures
        value_at(removed(entries, key), key) is None,
        removed(entries, key).len() == entries.len() - 1,
        forall|j: int|
            0 <= j < position_of(entries, key).unwrap() ==> removed(entries, key)[j]
                == entries[j],
        forall|j: int|
            position_of(entries, key).unwrap() <= j < removed(entries, key).len() ==> removed(
                entries,
                key,
            )[j] == entries[j + 1],
        distinct_keys(removed(entries, key)),
{
    let i = position_of(entries, key).unwrap();
    assert(is_first_match(entries, key, i));
    let after = removed(entries, key);
    lemma_remove_keeps_distinct(entries, i);
    assert forall|j: int| 0 <= j < after.len() implies (#[trigger] after[j]).0 != key by {
        if j < i {
            assert(after[j] == entries[j]);
        } else {
            assert(after[j] == entries[j + 1]);
        }
    }
    lemma_position_of_absent(after, key);
}

/// The removal of a key that is not in the dictionary changes nothing.
pub proof fn law_removed_absent_key<K, V>(entries: Seq<(K, V)>, key: K)
    requires
        position_of(entries, key) is None,
    ensures
        removed(entries, key) == entries,
{
}

} // verus!
