//! The key index: a concurrent mapping from cache key to the index of the
//! tier currently holding the key. The store itself is `dashmap::DashMap`;
//! its contents are modelled as a mathematical map from key views to tier
//! indices, and every access the cache makes goes through the wrappers here.

use vstd::prelude::*;

verus! {

#[verifier::external_type_specification]
#[verifier::external_body]
#[verifier::reject_recursive_types(K)]
#[verifier::reject_recursive_types(V)]
#[verifier::reject_recursive_types(S)]
/// `dashmap::DashMap`, declared so that it can stand in fields and
/// signatures; values of it are opaque and are only read through the
/// wrappers below.
pub struct ExDashMap<K, V, S>(dashmap::DashMap<K, V, S>);

/// The contents of the key index: which tier index each key is mapped to.
pub uninterp spec fn index_view(m: dashmap::DashMap<String, usize>) -> Map<Seq<char>, usize>;

/// The contents of a key index that maps no key at all.
pub open spec fn empty_index() -> Map<Seq<char>, usize> {
    Map::empty()
}

/// Relies on `dashmap::DashMap::with_capacity`: creates an empty map
/// (the capacity is only a pre-sizing hint).
#[verifier::external_body]
pub fn index_new(capacity: usize) -> (m: dashmap::DashMap<String, usize>)
    requires
        capacity <= usize::MAX / 2,
    ensures
        index_view(m) == empty_index(),
{
    dashmap::DashMap::with_capacity(capacity)
}

/// Relies on `dashmap::DashMap::insert`: maps the key to the value and
/// returns the value it replaced, if any.
#[verifier::external_body]
pub fn index_insert(m: &mut dashmap::DashMap<String, usize>, key: String, tier: usize) -> (r:
    Option<usize>)
    ensures
        index_view(*final(m)) == index_view(*old(m)).insert(key@, tier),
        r == (if index_view(*old(m)).dom().contains(key@) {
            Some(index_view(*old(m))[key@])
        } else {
            None::<usize>
        }),
{
    m.insert(key, tier)
}

/// Relies on `dashmap::DashMap::get`: returns the value the key is mapped
/// to, if any.
#[verifier::external_body]
pub fn index_get(m: &dashmap::DashMap<String, usize>, key: &String) -> (r: Option<usize>)
    ensures
        r == (if index_view(*m).dom().contains(key@) {
            Some(index_view(*m)[key@])
        } else {
            None::<usize>
        }),
{
    m.get(key).map(|entry| *entry)
}

/// Relies on `dashmap::DashMap::remove`: unmaps the key and returns the
/// value it was mapped to, if any.
#[verifier::external_body]
pub fn index_remove(m: &mut dashmap::DashMap<String, usize>, key: &String) -> (r: Option<usize>)
    ensures
        index_view(*final(m)) == index_view(*old(m)).remove(key@),
        r == (if index_view(*old(m)).dom().contains(key@) {
            Some(index_view(*old(m))[key@])
        } else {
            None::<usize>
        }),
{
    m.remove(key).map(|pair| pair.1)
}

/// Relies on `dashmap::DashMap::clear`: removes every mapping.
#[verifier::external_body]
pub fn index_clear(m: &mut dashmap::DashMap<String, usize>)
    ensures
        index_view(*final(m)) == empty_index(),
{
    m.clear()
}

} // verus!
