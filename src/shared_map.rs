//! Concurrent maps from the `dashmap` crate, as used by the identity cache
//! and the rate limiters, together with what the library relies on of them.
use dashmap::DashMap;
use vstd::prelude::*;

verus! {

#[verifier::external_type_specification]
#[verifier::external_body]
#[verifier::reject_recursive_types(K)]
#[verifier::reject_recursive_types(V)]
#[verifier::reject_recursive_types(S)]
pub struct ExDashMap<K, V, S>(DashMap<K, V, S>);

/// The entries of a map from identities to timestamps.
pub uninterp spec fn stamp_entries(m: DashMap<u64, u64>) -> Map<u64, u64>;

/// The entries of a map from ticket strings to identities.
pub uninterp spec fn ticket_entries(m: DashMap<String, u64>) -> Map<Seq<char>, u64>;

/// Relies on `DashMap::new`: a new map holds no entry.
#[verifier::external_body]
pub(crate) fn new_stamp_map() -> (r: DashMap<u64, u64>)
    ensures
        stamp_entries(r).dom() == Set::<u64>::empty(),
{
    DashMap::new()
}

/// Relies on `DashMap::get`: the value stored under the key, if there is one.
#[verifier::external_body]
pub(crate) fn stamp_get(m: &DashMap<u64, u64>, key: u64) -> (r: Option<u64>)
    ensures
        r == (if stamp_entries(*m).contains_key(key) {
            Some(stamp_entries(*m)[key])
        } else {
            None
        }),
{
    m.get(&key).map(|entry| *entry)
}

/// Relies on `DashMap::insert`: the key maps to the value afterwards, and no
/// other entry changes.
#[verifier::external_body]
pub(crate) fn stamp_insert(m: &mut DashMap<u64, u64>, key: u64, value: u64)
    ensures
        stamp_entries(*final(m)) == stamp_entries(*old(m)).insert(key, value),
{
    m.insert(key, value);
}

/// Relies on `DashMap::new`: a new map holds no entry.
#[verifier::external_body]
pub(crate) fn new_ticket_map() -> (r: DashMap<String, u64>)
    ensures
        ticket_entries(r).dom() == Set::<Seq<char>>::empty(),
{
    DashMap::new()
}

/// Relies on `DashMap::get`: the value stored under the key, if there is one.
#[verifier::external_body]
pub(crate) fn ticket_get(m: &DashMap<String, u64>, key: &str) -> (r: Option<u64>)
    ensures
        r == (if ticket_entries(*m).contains_key(key@) {
            Some(ticket_entries(*m)[key@])
        } else {
            None
        }),
{
    m.get(key).map(|entry| *entry)
}

/// Relies on `DashMap::insert`: the key maps to the value afterwards, and no
/// other entry changes.
#[verifier::external_body]
pub(crate) fn ticket_insert(m: &mut DashMap<String, u64>, key: String, value: u64)
    ensures
        ticket_entries(*final(m)) == ticket_entries(*old(m)).insert(key@, value),
{
    m.insert(key, value);
}

} // verus!
