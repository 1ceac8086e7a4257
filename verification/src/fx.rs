//! Hash maps and sets with the `rustc-hash` hasher.
//!
//! `FxHashMap` and `FxHashSet` are the standard collections with a hasher that
//! has no state of its own, so equal keys always hash alike.

use std::hash::Hash;

use rustc_hash::{FxHashMap, FxHashSet};
use vstd::prelude::*;
use vstd::std_specs::hash::obeys_key_model;

verus! {

/// The `rustc-hash` crate's hasher factory.
#[verifier::external_type_specification]
#[verifier::external_body]
pub struct ExFxBuildHasher(rustc_hash::FxBuildHasher);

/// `FxHashMap::default`: an empty map.
#[verifier::external_body]
pub(crate) fn map_new<K, V>() -> (m: FxHashMap<K, V>)
    ensures
        (m@ == Map::<K, V>::empty()),
{
    FxHashMap::default()
}

/// `HashMap::get` on an `FxHashMap`: the value under the key, if there is one.
#[verifier::external_body]
pub(crate) fn map_get<'a, K: Eq + Hash, V>(m: &'a FxHashMap<K, V>, key: &K) -> (value: Option<&'a V>)
    requires
        obeys_key_model::<K>(),
    ensures
        match value {
            Some(v) => m@.contains_key(*key) && *v == m@[*key],
            None => !m@.contains_key(*key),
        },
{
    m.get(key)
}

/// `HashMap::get_mut` on an `FxHashMap`: the value under the key, if there is
/// one, to be changed in place.
#[verifier::external_body]
pub(crate) fn map_get_mut<'a, K: Eq + Hash, V>(m: &'a mut FxHashMap<K, V>, key: &K) -> (value:
    Option<&'a mut V>)
    requires
        obeys_key_model::<K>(),
    ensures
        match value {
            Some(v) => {
                &&& old(m)@.contains_key(*key)
                &&& *v == old(m)@[*key]
                &&& final(m)@ == old(m)@.insert(*key, *final(v))
            },
            None => !old(m)@.contains_key(*key) && final(m)@ == old(m)@,
        },
{
    m.get_mut(key)
}

/// `HashMap::contains_key` on an `FxHashMap`.
#[verifier::external_body]
pub(crate) fn map_contains<K: Eq + Hash, V>(m: &FxHashMap<K, V>, key: &K) -> (found: bool)
    requires
        obeys_key_model::<K>(),
    ensures
        found == m@.contains_key(*key),
{
    m.contains_key(key)
}

/// `HashMap::insert` on an `FxHashMap`: the value is under the key afterwards,
/// whatever was there before.
#[verifier::external_body]
pub(crate) fn map_insert<K: Eq + Hash, V>(m: &mut FxHashMap<K, V>, key: K, value: V)
    requires
        obeys_key_model::<K>(),
    ensures
        final(m)@ == old(m)@.insert(key, value),
{
    m.insert(key, value);
}

/// `HashMap::remove` on an `FxHashMap`: takes the value under the key out.
#[verifier::external_body]
pub(crate) fn map_remove<K: Eq + Hash, V>(m: &mut FxHashMap<K, V>, key: &K) -> (value: Option<V>)
    requires
        obeys_key_model::<K>(),
    ensures
        final(m)@ == old(m)@.remove(*key),
        match value {
            Some(v) => old(m)@.contains_key(*key) && v == old(m)@[*key],
            None => !old(m)@.contains_key(*key),
        },
{
    m.remove(key)
}

/// `HashMap::len` on an `FxHashMap`: the number of keys.
#[verifier::external_body]
pub(crate) fn map_len<K: Eq + Hash, V>(m: &FxHashMap<K, V>) -> (n: usize)
    requires
        obeys_key_model::<K>(),
    ensures
        n == m@.len(),
{
    m.len()
}

/// `HashMap::keys` on an `FxHashMap`: every key once. The order is not
/// specified.
#[verifier::external_body]
pub(crate) fn map_keys<K: Eq + Hash + Copy, V>(m: &FxHashMap<K, V>) -> (keys: Vec<K>)
    requires
        obeys_key_model::<K>(),
    ensures
        keys@.no_duplicates(),
        keys@.to_set() == m@.dom(),
{
    m.keys().copied().collect()
}

/// `FxHashSet::default`: an empty set.
#[verifier::external_body]
pub(crate) fn set_new<K>() -> (s: FxHashSet<K>)
    ensures
        s@ == Set::<K>::empty(),
{
    FxHashSet::default()
}

/// `HashSet::contains` on an `FxHashSet`.
#[verifier::external_body]
pub(crate) fn set_contains<K: Eq + Hash>(s: &FxHashSet<K>, key: &K) -> (found: bool)
    requires
        obeys_key_model::<K>(),
    ensures
        found == s@.contains(*key),
{
    s.contains(key)
}

/// `HashSet::insert` on an `FxHashSet`: whether the key was not there yet.
#[verifier::external_body]
pub(crate) fn set_insert<K: Eq + Hash>(s: &mut FxHashSet<K>, key: K) -> (added: bool)
    requires
        obeys_key_model::<K>(),
    ensures
        final(s)@ == old(s)@.insert(key),
        added == !old(s)@.contains(key),
{
    s.insert(key)
}

/// `HashSet::remove` on an `FxHashSet`: whether the key was there.
#[verifier::external_body]
pub(crate) fn set_remove<K: Eq + Hash>(s: &mut FxHashSet<K>, key: &K) -> (removed: bool)
    requires
        obeys_key_model::<K>(),
    ensures
        final(s)@ == old(s)@.remove(*key),
        removed == old(s)@.contains(*key),
{
    s.remove(key)
}

} // verus!
