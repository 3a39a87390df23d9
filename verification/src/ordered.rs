//! Sets and maps that keep the order of insertion, from the `indexmap` crate.
//!
//! What such a collection holds is named here as a sequence: the items of a
//! set, or the entries of a map, in their order. The contracts below are taken
//! from the documentation of `indexmap`; they are believed, not proved.

use vstd::prelude::*;
use indexmap::{IndexMap, IndexSet};

verus! {

/// `indexmap::IndexMap`: a map that keeps the order of insertion. Nothing of
/// it is seen here but what the contracts below say.
#[verifier::external_type_specification]
#[verifier::external_body]
#[verifier::reject_recursive_types(K)]
#[verifier::reject_recursive_types(V)]
#[verifier::reject_recursive_types(S)]
pub struct ExIndexMap<K, V, S>(IndexMap<K, V, S>);

/// `indexmap::IndexSet`: a set that keeps the order of insertion. Nothing of
/// it is seen here but what the contracts below say.
#[verifier::external_type_specification]
#[verifier::external_body]
#[verifier::reject_recursive_types(T)]
#[verifier::reject_recursive_types(S)]
pub struct ExIndexSet<T, S>(IndexSet<T, S>);

/// The items of a set of chunk or module names, in the order of insertion.
pub uninterp spec fn set_items(set: IndexSet<usize>) -> Seq<usize>;

/// The entries of a map from a path to a version, in the order of insertion.
pub uninterp spec fn version_entries(map: IndexMap<String, u64>) -> Seq<(Seq<char>, u64)>;

/// The entries of a map from a path to the content at that path, in the order
/// of insertion. A content is given by its version and, where it can be
/// merged, its merger.
pub uninterp spec fn content_entries(map: IndexMap<String, (u64, Option<u64>)>) -> Seq<
    (Seq<char>, (u64, Option<u64>)),
>;

/// The entries of a map from a merger to the versions of the contents that it
/// merges, in the order of insertion.
pub uninterp spec fn group_entries(map: IndexMap<u64, Vec<u64>>) -> Seq<(u64, Seq<u64>)>;

/// Some entry of `entries` has the key `key`.
pub open spec fn has_key<K, V>(entries: Seq<(K, V)>, key: K) -> bool {
    exists|i: int| 0 <= i < entries.len() && (#[trigger] entries[i]).0 == key
}

/// The index of an entry with the key `key`.
pub open spec fn index_of_key<K, V>(entries: Seq<(K, V)>, key: K) -> int {
    choose|i: int| 0 <= i < entries.len() && (#[trigger] entries[i]).0 == key
}

/// The value that `entries` holds for `key`.
pub open spec fn value_of<K, V>(entries: Seq<(K, V)>, key: K) -> Option<V> {
    if has_key(entries, key) {
        Some(entries[index_of_key(entries, key)].1)
    } else {
        None
    }
}

/// `entries` after `value` was put under `key`: in the place of the entry
/// with that key, or, where there is none, as the last entry.
pub open spec fn with_entry<K, V>(entries: Seq<(K, V)>, key: K, value: V) -> Seq<(K, V)> {
    if has_key(entries, key) {
        entries.update(index_of_key(entries, key), (key, value))
    } else {
        entries.push((key, value))
    }
}

/// No two entries have the same key.
pub open spec fn keys_distinct<K, V>(entries: Seq<(K, V)>) -> bool {
    forall|i: int, j: int|
        0 <= i < j < entries.len() ==> (#[trigger] entries[i]).0 != (#[trigger] entries[j]).0
}

/// `with_entry` keeps the keys distinct, holds `value` under `key`, and leaves
/// what stands under the other keys.
pub proof fn lemma_with_entry<K, V>(entries: Seq<(K, V)>, key: K, value: V)
    requires
        keys_distinct(entries),
    ensures
        keys_distinct(with_entry(entries, key, value)),
        value_of(with_entry(entries, key, value), key) == Some(value),
        forall|other: K|
            other != key ==> value_of(with_entry(entries, key, value), other) == value_of(
                entries,
                other,
            ),
{
    let after = with_entry(entries, key, value);
    let at = if has_key(entries, key) {
        index_of_key(entries, key)
    } else {
        entries.len() as int
    };
    assert(after[at] == (key, value));
    assert(after.len() == if has_key(entries, key) {
        entries.len()
    } else {
        entries.len() + 1
    });
    assert forall|i: int| 0 <= i < after.len() && i != at implies #[trigger] after[i]
        == entries[i] && entries[i].0 != key by {
        if has_key(entries, key) {
            if i < at {
                assert(entries[i].0 != entries[at].0);
            } else {
                assert(entries[at].0 != entries[i].0);
            }
        }
    }
    assert forall|i: int, j: int| 0 <= i < j < after.len() implies (#[trigger] after[i]).0 != (
    #[trigger] after[j]).0 by {
        if i != at && j != at {
            assert(entries[i].0 != entries[j].0);
        }
    }
    assert(has_key(after, key));
    assert(index_of_key(after, key) == at) by {
        let found = index_of_key(after, key);
        if found != at {
            assert(after[found].0 != key);
        }
    }
    assert forall|other: K| other != key implies value_of(after, other) == value_of(
        entries,
        other,
    ) by {
        if has_key(entries, other) {
            let i = index_of_key(entries, other);
            assert(after[i] == entries[i]);
            assert(has_key(after, other));
            let found = index_of_key(after, other);
            if found != i {
                assert(after[found] == entries[found]);
                if found < i {
                    assert(entries[found].0 != entries[i].0);
                } else {
                    assert(entries[i].0 != entries[found].0);
                }
            }
        }
        if has_key(after, other) {
            let found = index_of_key(after, other);
            assert(after[found] == entries[found]);
            assert(has_key(entries, other));
        }
    }
}

/// `IndexSet::new`: a set that holds nothing.
#[verifier::external_body]
pub(crate) fn set_new() -> (set: IndexSet<usize>)
    ensures
        set_items(set) == Seq::<usize>::empty(),
{
    IndexSet::new()
}

/// `IndexSet::insert`: an item that the set holds stays where it is and
/// `false` is returned; another becomes the last item and `true` is returned.
#[verifier::external_body]
pub(crate) fn set_insert(set: &mut IndexSet<usize>, item: usize) -> (added: bool)
    ensures
        added == !set_items(*old(set)).contains(item),
        set_items(*final(set)) == if added {
            set_items(*old(set)).push(item)
        } else {
            set_items(*old(set))
        },
{
    set.insert(item)
}

/// `IndexSet::len`: the number of items.
#[verifier::external_body]
pub(crate) fn set_len(set: &IndexSet<usize>) -> (len: usize)
    ensures
        len == set_items(*set).len(),
{
    set.len()
}

/// `IndexSet::get_index`: the item at `index` in the order of insertion.
#[verifier::external_body]
pub(crate) fn set_get_index(set: &IndexSet<usize>, index: usize) -> (item: Option<usize>)
    ensures
        item == if index < set_items(*set).len() {
            Some(set_items(*set)[index as int])
        } else {
            None
        },
{
    set.get_index(index).copied()
}

/// `IndexMap::new`: a map that holds nothing.
#[verifier::external_body]
pub(crate) fn versions_new() -> (map: IndexMap<String, u64>)
    ensures
        version_entries(map) == Seq::<(Seq<char>, u64)>::empty(),
{
    IndexMap::new()
}

/// `IndexMap::insert`: under a key that the map holds the value is replaced
/// and the entry keeps its place; another key becomes the last entry.
#[verifier::external_body]
pub(crate) fn versions_insert(map: &mut IndexMap<String, u64>, key: String, value: u64)
    ensures
        version_entries(*final(map)) == with_entry(version_entries(*old(map)), key@, value),
{
    map.insert(key, value);
}

/// `IndexMap::len`: the number of entries.
#[verifier::external_body]
pub(crate) fn versions_len(map: &IndexMap<String, u64>) -> (len: usize)
    ensures
        len == version_entries(*map).len(),
{
    map.len()
}

/// `IndexMap::get`: the value under `key`, where the map holds the key.
#[verifier::external_body]
pub(crate) fn versions_get(map: &IndexMap<String, u64>, key: &str) -> (value: Option<u64>)
    ensures
        value == value_of(version_entries(*map), key@),
{
    map.get(key).copied()
}


/// `IndexMap::get_index`: the entry at `index` in the order of insertion.
#[verifier::external_body]
pub(crate) fn versions_get_index(map: &IndexMap<String, u64>, index: usize) -> (entry: Option<
    (String, u64),
>)
    ensures
        entry.is_some() == (index < version_entries(*map).len()),
        entry.is_some() ==> entry.unwrap().0@ == version_entries(*map)[index as int].0
            && entry.unwrap().1 == version_entries(*map)[index as int].1,
{
    map.get_index(index).map(|(key, value)| (key.clone(), *value))
}

/// `IndexMap::new`: a map that holds nothing.
#[verifier::external_body]
pub(crate) fn contents_new() -> (map: IndexMap<String, (u64, Option<u64>)>)
    ensures
        content_entries(map) == Seq::<(Seq<char>, (u64, Option<u64>))>::empty(),
{
    IndexMap::new()
}

/// `IndexMap::insert`: under a key that the map holds the value is replaced
/// and the entry keeps its place; another key becomes the last entry.
#[verifier::external_body]
pub(crate) fn contents_insert(
    map: &mut IndexMap<String, (u64, Option<u64>)>,
    key: String,
    value: (u64, Option<u64>),
)
    ensures
        content_entries(*final(map)) == with_entry(content_entries(*old(map)), key@, value),
{
    map.insert(key, value);
}

/// `IndexMap::len`: the number of entries.
#[verifier::external_body]
pub(crate) fn contents_len(map: &IndexMap<String, (u64, Option<u64>)>) -> (len: usize)
    ensures
        len == content_entries(*map).len(),
{
    map.len()
}

/// `IndexMap::get_index`: the entry at `index` in the order of insertion.
#[verifier::external_body]
pub(crate) fn contents_get_index(
    map: &IndexMap<String, (u64, Option<u64>)>,
    index: usize,
) -> (entry: Option<(String, (u64, Option<u64>))>)
    ensures
        entry.is_some() == (index < content_entries(*map).len()),
        entry.is_some() ==> entry.unwrap().0@ == content_entries(*map)[index as int].0
            && entry.unwrap().1 == content_entries(*map)[index as int].1,
{
    map.get_index(index).map(|(key, value)| (key.clone(), *value))
}

/// `IndexMap::new`: a map that holds nothing.
#[verifier::external_body]
pub(crate) fn groups_new() -> (map: IndexMap<u64, Vec<u64>>)
    ensures
        group_entries(map) == Seq::<(u64, Seq<u64>)>::empty(),
{
    IndexMap::new()
}

/// `IndexMap::insert`: under a key that the map holds the value is replaced
/// and the entry keeps its place; another key becomes the last entry.
#[verifier::external_body]
pub(crate) fn groups_insert(map: &mut IndexMap<u64, Vec<u64>>, key: u64, value: Vec<u64>)
    ensures
        group_entries(*final(map)) == with_entry(group_entries(*old(map)), key, value@),
{
    map.insert(key, value);
}

/// `IndexMap::len`: the number of entries.
#[verifier::external_body]
pub(crate) fn groups_len(map: &IndexMap<u64, Vec<u64>>) -> (len: usize)
    ensures
        len == group_entries(*map).len(),
{
    map.len()
}

/// `IndexMap::get`: the value under `key`, where the map holds the key.
#[verifier::external_body]
pub(crate) fn groups_get(map: &IndexMap<u64, Vec<u64>>, key: u64) -> (value: Option<Vec<u64>>)
    ensures
        value.is_some() == value_of(group_entries(*map), key).is_some(),
        value.is_some() ==> value.unwrap()@ == value_of(group_entries(*map), key).unwrap(),
{
    map.get(&key).cloned()
}

/// `IndexMap::get_index`: the entry at `index` in the order of insertion.
#[verifier::external_body]
pub(crate) fn groups_get_index(map: &IndexMap<u64, Vec<u64>>, index: usize) -> (entry: Option<
    (u64, Vec<u64>),
>)
    ensures
        entry.is_some() == (index < group_entries(*map).len()),
        entry.is_some() ==> entry.unwrap().0 == group_entries(*map)[index as int].0
            && entry.unwrap().1@ == group_entries(*map)[index as int].1,
{
    map.get_index(index).map(|(key, value)| (*key, value.clone()))
}

} // verus!
