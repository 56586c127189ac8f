//! Maps from cell numbers and edge keys to lists, hashed with the `fx` hasher.

use rustc_hash::{FxBuildHasher, FxHashMap};
use vstd::prelude::*;

verus! {

/// The hasher factory behind [`FxHashMap`].
#[verifier::external_type_specification]
#[verifier::external_body]
pub struct ExFxBuildHasher(FxBuildHasher);

/// The lists of a map as sequences.
pub open spec fn lists<T>(m: Map<i32, Vec<T>>) -> Map<i32, Seq<T>> {
    m.map_values(|v: Vec<T>| v@)
}

/// The list under `key`, empty where the map has none.
pub open spec fn list_at<T>(m: Map<i32, Seq<T>>, key: i32) -> Seq<T> {
    if m.contains_key(key) {
        m[key]
    } else {
        Seq::empty()
    }
}

/// `FxHashMap::default`: a map without entries.
#[verifier::external_body]
pub(crate) fn map_new<T>() -> (r: FxHashMap<i32, Vec<T>>)
    ensures
        r@.dom() == Set::<i32>::empty(),
{
    FxHashMap::default()
}

/// `HashMap::get` on an `fx` map: the value stored under the key, if any.
#[verifier::external_body]
pub(crate) fn map_get<T>(m: &FxHashMap<i32, Vec<T>>, key: i32) -> (r: Option<&Vec<T>>)
    ensures
        match r {
            Some(v) => m@.contains_key(key) && m@[key] == *v,
            None => !m@.contains_key(key),
        },
{
    m.get(&key)
}

/// `HashMap::remove` on an `fx` map: takes the value stored under the key out.
#[verifier::external_body]
pub(crate) fn map_remove<T>(m: &mut FxHashMap<i32, Vec<T>>, key: i32) -> (r: Option<Vec<T>>)
    ensures
        final(m)@ == old(m)@.remove(key),
        match r {
            Some(v) => old(m)@.contains_key(key) && old(m)@[key] == v,
            None => !old(m)@.contains_key(key),
        },
{
    m.remove(&key)
}

/// `HashMap::insert` on an `fx` map: the key now holds the value.
#[verifier::external_body]
pub(crate) fn map_insert<T>(m: &mut FxHashMap<i32, Vec<T>>, key: i32, value: Vec<T>)
    ensures
        final(m)@ == old(m)@.insert(key, value),
{
    m.insert(key, value);
}

/// `HashMap::keys` on an `fx` map: every key once, in no stated order.
#[verifier::external_body]
pub(crate) fn map_keys<T>(m: &FxHashMap<i32, Vec<T>>) -> (r: Vec<i32>)
    ensures
        r@.no_duplicates(),
        r@.to_set() == m@.dom(),
{
    m.keys().copied().collect()
}

/// `HashMap::len` on an `fx` map: how many keys it has.
#[verifier::external_body]
pub(crate) fn map_len<T>(m: &FxHashMap<i32, Vec<T>>) -> (r: usize)
    ensures
        r == m@.dom().len(),
{
    m.len()
}

/// Adds `item` to the end of the list under `key`.
pub fn list_push<T>(m: &mut FxHashMap<i32, Vec<T>>, key: i32, item: T)
    ensures
        lists(final(m)@) == lists(old(m)@).insert(key, list_at(lists(old(m)@), key).push(item)),
{
    let mut list: Vec<T> = match map_remove(m, key) {
        Some(v) => v,
        None => Vec::new(),
    };
    let ghost before = list@;
    list.push(item);
    map_insert(m, key, list);
    assert(lists(m@) =~= lists(old(m)@).insert(key, list_at(lists(old(m)@), key).push(item)));
}

} // verus!
