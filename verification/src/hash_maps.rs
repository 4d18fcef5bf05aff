//! Hash maps from IDs and from names.
use vstd::prelude::*;

verus! {

/// A hash map of the `hashbrown` crate from integers to integers.
#[verifier::external_body]
pub struct IdMap {
    map: hashbrown::HashMap<u64, u64>,
}

/// A hash map of the `hashbrown` crate from byte strings to integers.
#[verifier::external_body]
pub struct NameMap {
    map: hashbrown::HashMap<Vec<u8>, u64>,
}

/// What an `IdMap` holds.
pub uninterp spec fn id_map_contents(map: IdMap) -> Map<u64, u64>;

/// What a `NameMap` holds.
pub uninterp spec fn name_map_contents(map: NameMap) -> Map<Seq<u8>, u64>;

impl View for IdMap {
    type V = Map<u64, u64>;

    open spec fn view(&self) -> Map<u64, u64> {
        id_map_contents(*self)
    }
}

impl View for NameMap {
    type V = Map<Seq<u8>, u64>;

    open spec fn view(&self) -> Map<Seq<u8>, u64> {
        name_map_contents(*self)
    }
}

/// Calls `hashbrown::HashMap::new`, which returns a map that holds nothing.
#[verifier::external_body]
fn hashbrown_new_id_map() -> (map: IdMap)
    ensures
        id_map_contents(map).dom() == Set::<u64>::empty(),
{
    IdMap { map: hashbrown::HashMap::new() }
}

/// Calls `hashbrown::HashMap::get`, which returns the value that was last inserted for the key,
/// or `None` if there is none.
#[verifier::external_body]
fn hashbrown_get_id(map: &IdMap, key: u64) -> (value: Option<u64>)
    ensures
        value == (if id_map_contents(*map).contains_key(key) {
            Some(id_map_contents(*map)[key])
        } else {
            None::<u64>
        }),
{
    map.map.get(&key).copied()
}

/// Calls `hashbrown::HashMap::insert`, after which the key has the new value, whether or not it
/// had one before. Other keys keep theirs.
#[verifier::external_body]
fn hashbrown_insert_id(map: &mut IdMap, key: u64, value: u64)
    ensures
        id_map_contents(*final(map)) == id_map_contents(*old(map)).insert(key, value),
{
    map.map.insert(key, value);
}

/// Calls `hashbrown::HashMap::keys`, which hands out every key once. Their order is left open.
#[verifier::external_body]
fn hashbrown_id_keys(map: &IdMap) -> (keys: Vec<u64>)
    ensures
        keys@.no_duplicates(),
        keys@.to_set() == id_map_contents(*map).dom(),
{
    map.map.keys().copied().collect()
}

/// Calls `hashbrown::HashMap::new`, which returns a map that holds nothing.
#[verifier::external_body]
fn hashbrown_new_name_map() -> (map: NameMap)
    ensures
        name_map_contents(map).dom() == Set::<Seq<u8>>::empty(),
{
    NameMap { map: hashbrown::HashMap::new() }
}

/// Calls `hashbrown::HashMap::get`, which returns the value that was last inserted for a key of
/// the same bytes, or `None` if there is none.
#[verifier::external_body]
fn hashbrown_get_name(map: &NameMap, key: &[u8]) -> (value: Option<u64>)
    ensures
        value == (if name_map_contents(*map).contains_key(key@) {
            Some(name_map_contents(*map)[key@])
        } else {
            None::<u64>
        }),
{
    map.map.get(key).copied()
}

/// Calls `hashbrown::HashMap::insert`, after which the key has the new value, whether or not it
/// had one before. Other keys keep theirs.
#[verifier::external_body]
fn hashbrown_insert_name(map: &mut NameMap, key: Vec<u8>, value: u64)
    ensures
        name_map_contents(*final(map)) == name_map_contents(*old(map)).insert(key@, value),
{
    map.map.insert(key, value);
}

impl IdMap {
    /// A map that holds nothing.
    pub fn new() -> (map: IdMap)
        ensures
            map@ == Map::<u64, u64>::empty(),
    {
        let map: IdMap = hashbrown_new_id_map();
        assert(map@ =~= Map::<u64, u64>::empty());
        map
    }

    /// The value of a key.
    pub fn get(&self, key: u64) -> (value: Option<u64>)
        ensures
            value == (if self@.contains_key(key) {
                Some(self@[key])
            } else {
                None::<u64>
            }),
    {
        hashbrown_get_id(self, key)
    }

    /// Whether a key has a value.
    pub fn contains_key(&self, key: u64) -> (contained: bool)
        ensures
            contained == self@.contains_key(key),
    {
        hashbrown_get_id(self, key).is_some()
    }

    /// Gives a key a value.
    pub fn insert(&mut self, key: u64, value: u64)
        ensures
            final(self)@ == old(self)@.insert(key, value),
    {
        hashbrown_insert_id(self, key, value);
    }

    /// Gives a key a value, unless it has one that is at least as large.
    pub fn raise(&mut self, key: u64, value: u64)
        ensures
            final(self)@ == old(self)@.insert(
                key,
                if old(self)@.contains_key(key) && old(self)@[key] > value {
                    old(self)@[key]
                } else {
                    value
                },
            ),
    {
        match hashbrown_get_id(self, key) {
            Some(existing) if existing > value => {
                assert(self@.insert(key, existing) =~= self@);
            },
            _ => {
                hashbrown_insert_id(self, key, value);
            },
        }
    }

    /// The keys that have a value, each once, in some order.
    pub fn keys(&self) -> (keys: Vec<u64>)
        ensures
            keys@.no_duplicates(),
            keys@.to_set() == self@.dom(),
    {
        hashbrown_id_keys(self)
    }
}

impl NameMap {
    /// A map that holds nothing.
    pub fn new() -> (map: NameMap)
        ensures
            map@ == Map::<Seq<u8>, u64>::empty(),
    {
        let map: NameMap = hashbrown_new_name_map();
        assert(map@ =~= Map::<Seq<u8>, u64>::empty());
        map
    }

    /// The value of a name.
    pub fn get(&self, name: &[u8]) -> (value: Option<u64>)
        ensures
            value == (if self@.contains_key(name@) {
                Some(self@[name@])
            } else {
                None::<u64>
            }),
    {
        hashbrown_get_name(self, name)
    }

    /// Gives a name a value.
    pub fn insert(&mut self, name: Vec<u8>, value: u64)
        ensures
            final(self)@ == old(self)@.insert(name@, value),
    {
        hashbrown_insert_name(self, name, value);
    }
}

} // verus!
