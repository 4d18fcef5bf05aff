//! Values for parts that are few and far between.
use std::collections::BTreeMap;
use vstd::prelude::*;
use vstd::std_specs::cmp::OrdSpec;
use vstd::std_specs::iter::IteratorSpec;

verus! {

/// Calls `BTreeMap::get_mut`, which returns a mutable reference to the value of a key, or `None` if
/// the map does not have the key.
#[verifier::external_body]
fn std_get_mut<'a, T>(map: &'a mut BTreeMap<u32, T>, id: u32) -> (value: Option<&'a mut T>)
    ensures
        match value {
            Some(value) => old(map)@.contains_key(id) && *value == old(map)@[id] && final(map)@
                == old(map)@.insert(id, *final(value)),
            None => !old(map)@.contains_key(id) && final(map)@ == old(map)@,
        },
{
    map.get_mut(&id)
}

/// The value of a part, for update. A part that has none gets the given one.
pub fn get_or_insert<'a, T>(map: &'a mut BTreeMap<u32, T>, id: u32, initial: T) -> (value: &'a mut T)
    ensures
        *value == (if old(map)@.contains_key(id) {
            old(map)@[id]
        } else {
            initial
        }),
        final(map)@ == old(map)@.insert(id, *final(value)),
{
    broadcast use vstd::laws_cmp::group_laws_cmp;

    if !map.contains_key(&id) {
        map.insert(id, initial);
    }
    std_get_mut(map, id).unwrap()
}

/// The value of a part that has one.
pub fn find<T: Copy>(map: &BTreeMap<u32, T>, id: u32) -> (value: Option<T>)
    ensures
        value == (if map@.contains_key(id) {
            Some(map@[id])
        } else {
            None
        }),
{
    broadcast use vstd::laws_cmp::group_laws_cmp;

    match map.get(&id) {
        Some(value) => Some(*value),
        None => None,
    }
}

/// Gives a part a value.
pub fn insert<T>(map: &mut BTreeMap<u32, T>, id: u32, value: T)
    ensures
        final(map)@ == old(map)@.insert(id, value),
{
    broadcast use vstd::laws_cmp::group_laws_cmp;

    map.insert(id, value);
}

/// Whether entries are what a map holds, in the order of the IDs.
pub open spec fn holds_in_order<T>(entries: Seq<(u32, T)>, map: Map<u32, T>) -> bool {
    &&& forall|i: int, j: int| 0 <= i < j < entries.len() ==> entries[i].0 < entries[j].0
    &&& forall|i: int|
        0 <= i < entries.len() ==> map.contains_key((#[trigger] entries[i]).0)
            && map[entries[i].0] == entries[i].1
    &&& forall|id: u32| #[trigger]
        map.contains_key(id) ==> exists|i: int|
            0 <= i < entries.len() && (#[trigger] entries[i]).0 == id
}

/// What the map holds, in the order of the IDs.
pub fn entries<T: Copy>(map: &BTreeMap<u32, T>) -> (entries: Vec<(u32, T)>)
    ensures
        holds_in_order(entries@, map@),
{
    broadcast use vstd::laws_cmp::group_laws_cmp;

    let mut entries: Vec<(u32, T)> = Vec::new();
    let ghost items = map.iter().remaining();
    for (id, value) in it: map.iter()
        invariant
            it.seq() == items,
            entries@.len() == it.index(),
            forall|i: int|
                0 <= i < it.index() ==> (#[trigger] entries@[i]) == (*items[i].0, *items[i].1),
    {
        entries.push((*id, *value));
    }
    proof {
        assert(entries@.len() == items.len());
        assert forall|i: int, j: int| 0 <= i < j < entries@.len() implies entries@[i].0
            < entries@[j].0 by {
            let keys = items.map_values(|item: (&u32, &T)| *item.0);
            assert(vstd::std_specs::btree::increasing_seq(keys));
            assert(keys[i] == entries@[i].0 && keys[j] == entries@[j].0);
            assert(keys[i].cmp_spec(&keys[j]) is Less);
        }
        assert forall|i: int| 0 <= i < entries@.len() implies map@.contains_key(
            (#[trigger] entries@[i]).0,
        ) && map@[entries@[i].0] == entries@[i].1 by {
            assert(map@.contains_key(*items[i].0));
        }
        assert forall|id: u32| #[trigger] map@.contains_key(id) implies exists|i: int|
            0 <= i < entries@.len() && (#[trigger] entries@[i]).0 == id by {
            assert(items.contains((&id, &map@[id])));
            let i = choose|i: int| 0 <= i < items.len() && items[i] == (&id, &map@[id]);
            assert(entries@[i].0 == id);
        }
    }
    entries
}

} // verus!
