//! The values of a map with 64-bit keys, laid out by ascending key.

use vstd::prelude::*;
use vstd::seq_lib::seq_to_set_is_finite;

verus! {

/// The values of `m` under the keys from `from` upwards, by ascending key.
pub open spec fn values_from<V>(m: Map<u64, V>, from: int) -> Seq<V>
    decreases u64::MAX + 1 - from,
{
    if from < 0 || from > u64::MAX {
        Seq::empty()
    } else if m.contains_key(from as u64) {
        seq![m[from as u64]] + values_from(m, from + 1)
    } else {
        values_from(m, from + 1)
    }
}

/// All values of `m`, by ascending key.
pub open spec fn values_ascending<V>(m: Map<u64, V>) -> Seq<V> {
    values_from(m, 0)
}

/// The keys of `m` from `from` upwards, ascending: the keys under which
/// the values of [`values_from`] stand.
pub open spec fn keys_from<V>(m: Map<u64, V>, from: int) -> Seq<u64>
    decreases u64::MAX + 1 - from,
{
    if from < 0 || from > u64::MAX {
        Seq::empty()
    } else if m.contains_key(from as u64) {
        seq![from as u64] + keys_from(m, from + 1)
    } else {
        keys_from(m, from + 1)
    }
}

/// Whether `keys` and `values` list, by ascending key, exactly the entries
/// of `m` whose keys are at least `from`.
pub open spec fn lists_from<V>(m: Map<u64, V>, from: int, keys: Seq<u64>, values: Seq<V>) -> bool {
    &&& keys.len() == values.len()
    &&& forall|i: int|
        0 <= i < keys.len() ==> from <= #[trigger] keys[i] && m.contains_key(keys[i]) && m[keys[i]]
            == values[i]
    &&& forall|i: int, j: int| 0 <= i < j < keys.len() ==> #[trigger] keys[i] < #[trigger] keys[j]
    &&& forall|key: u64|
        from <= key && #[trigger] m.contains_key(key) ==> exists|i: int|
            0 <= i < keys.len() && #[trigger] keys[i] == key
}

/// A listing of the entries from `from` upwards is the one that
/// [`keys_from`] and [`values_from`] give.
pub proof fn lemma_listing_is_unique<V>(m: Map<u64, V>, from: int, keys: Seq<u64>, values: Seq<V>)
    requires
        0 <= from,
        lists_from(m, from, keys, values),
    ensures
        keys == keys_from(m, from),
        values == values_from(m, from),
    decreases u64::MAX + 1 - from,
{
    if from > u64::MAX {
        if keys.len() > 0 {
            assert(from <= keys[0]);
        }
    } else if m.contains_key(from as u64) {
        // The key `from` is listed, and nothing is listed before it.
        let rest_keys = keys.skip(1);
        let rest_values = values.skip(1);
        assert(lists_from(m, from + 1, rest_keys, rest_values)) by {
            assert forall|i: int| 0 <= i < rest_keys.len() implies from + 1
                <= #[trigger] rest_keys[i] by {
                assert(keys[0] < keys[i + 1]);
            }
            assert forall|key: u64|
                from + 1 <= key && #[trigger] m.contains_key(key) implies exists|i: int|
                0 <= i < rest_keys.len() && #[trigger] rest_keys[i] == key by {
                let j = choose|j: int| 0 <= j < keys.len() && #[trigger] keys[j] == key;
                assert(rest_keys[j - 1] == key);
            }
        }
        lemma_listing_is_unique(m, from + 1, rest_keys, rest_values);
    } else {
        lemma_listing_is_unique(m, from + 1, keys, values);
    }
}

/// [`keys_from`] and [`values_from`] list the entries from `from` upwards.
pub proof fn lemma_values_from_lists<V>(m: Map<u64, V>, from: int)
    requires
        0 <= from,
    ensures
        lists_from(m, from, keys_from(m, from), values_from(m, from)),
    decreases u64::MAX + 1 - from,
{
    let keys = keys_from(m, from);
    if from <= u64::MAX {
        lemma_values_from_lists(m, from + 1);
        let rest_keys = keys_from(m, from + 1);
        if m.contains_key(from as u64) {
            assert forall|key: u64| from <= key && #[trigger] m.contains_key(key) implies exists|
                i: int,
            |
                0 <= i < keys.len() && #[trigger] keys[i] == key by {
                if key == from as u64 {
                    assert(keys[0] == key);
                } else {
                    let j = choose|j: int|
                        0 <= j < rest_keys.len() && #[trigger] rest_keys[j] == key;
                    assert(keys[j + 1] == key);
                }
            }
        }
    }
}

/// A map with 64-bit keys has finitely many entries, as many as
/// [`values_ascending`] lists.
pub proof fn lemma_count<V>(m: Map<u64, V>)
    ensures
        m.dom().finite(),
        m.dom().len() == values_ascending(m).len(),
{
    let keys = keys_from(m, 0);
    lemma_values_from_lists(m, 0);
    assert(keys.to_set() =~= m.dom());
    keys.unique_seq_to_set();
    seq_to_set_is_finite(keys);
}

/// Nothing is listed from a key upwards that lies above all keys.
pub proof fn lemma_nothing_above<V>(m: Map<u64, V>, from: int)
    requires
        0 <= from,
        forall|key: u64| #[trigger] m.contains_key(key) ==> key < from,
    ensures
        values_from(m, from) == Seq::<V>::empty(),
    decreases u64::MAX + 1 - from,
{
    if from <= u64::MAX {
        lemma_nothing_above(m, from + 1);
    }
}

/// A value put under a key above all keys is listed last.
pub proof fn lemma_insert_above<V>(m: Map<u64, V>, key: u64, value: V, from: int)
    requires
        0 <= from <= key,
        forall|other: u64| #[trigger] m.contains_key(other) ==> other < key,
    ensures
        values_from(m.insert(key, value), from) == values_from(m, from).push(value),
    decreases u64::MAX + 1 - from,
{
    let after = m.insert(key, value);
    if from == key {
        lemma_nothing_above(after, key + 1);
        lemma_nothing_above(m, key + 1);
        assert(values_from(after, from) =~= values_from(m, from).push(value));
    } else {
        lemma_insert_above(m, key, value, from + 1);
        assert(values_from(after, from) =~= values_from(m, from).push(value));
    }
}

} // verus!
