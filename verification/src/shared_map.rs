use dashmap::DashMap;
use vstd::prelude::*;

verus! {

/// `dashmap::DashMap`, a hash map split into shards that are locked one by one.
#[verifier::external_type_specification]
#[verifier::external_body]
#[verifier::reject_recursive_types(K)]
#[verifier::reject_recursive_types(V)]
#[verifier::reject_recursive_types(S)]
pub struct ExDashMap<K, V, S>(DashMap<K, V, S>);

/// The key-value pairs that a map holds.
pub uninterp spec fn map_entries(m: DashMap<u64, u64>) -> Map<u64, u64>;

/// `DashMap::new`: a map that holds nothing.
#[verifier::external_body]
pub(crate) fn map_new() -> (m: DashMap<u64, u64>)
    ensures
        map_entries(m) == (Map::<u64, u64>::empty()),
{
    DashMap::new()
}

/// `DashMap::len`: the number of pairs held, summed over the shards.
#[verifier::external_body]
pub(crate) fn map_len(m: &DashMap<u64, u64>) -> (n: usize)
    ensures
        n == map_entries(*m).len(),
{
    m.len()
}

/// `DashMap::get`: the value stored under `key`, copied out of the guard
/// that the map returns, or `None` where the key is absent.
#[verifier::external_body]
pub(crate) fn map_get(m: &DashMap<u64, u64>, key: u64) -> (r: Option<u64>)
    ensures
        r == (if map_entries(*m).contains_key(key) {
            Some(map_entries(*m)[key])
        } else {
            None
        }),
{
    m.get(&key).map(|entry| *entry)
}

/// `DashMap::insert`: stores `value` under `key`, replacing what was there,
/// and returns the value replaced.
#[verifier::external_body]
pub(crate) fn map_insert(m: &mut DashMap<u64, u64>, key: u64, value: u64) -> (r: Option<u64>)
    ensures
        map_entries(*final(m)) == map_entries(*old(m)).insert(key, value),
        r == (if map_entries(*old(m)).contains_key(key) {
            Some(map_entries(*old(m))[key])
        } else {
            None
        }),
{
    m.insert(key, value)
}

/// `DashMap::remove`: takes the pair under `key` out of the map and returns it.
#[verifier::external_body]
pub(crate) fn map_remove(m: &mut DashMap<u64, u64>, key: u64) -> (r: Option<(u64, u64)>)
    ensures
        map_entries(*final(m)) == map_entries(*old(m)).remove(key),
        r == (if map_entries(*old(m)).contains_key(key) {
            Some((key, map_entries(*old(m))[key]))
        } else {
            None
        }),
{
    m.remove(&key)
}

/// `DashMap::clear`: removes every pair.
#[verifier::external_body]
pub(crate) fn map_clear(m: &mut DashMap<u64, u64>)
    ensures
        map_entries(*final(m)) == (Map::<u64, u64>::empty()),
{
    m.clear()
}

} // verus!
