//! The sender's segment cache: for each segment not yet confirmed, the
//! frames of its chunks, by chunk id. Held in a `DashMap` so that the
//! producer and the NACK service can share it.
use vstd::prelude::*;

verus! {

#[verifier::external_type_specification]
#[verifier::external_body]
#[verifier::reject_recursive_types(K)]
#[verifier::reject_recursive_types(V)]
#[verifier::reject_recursive_types(S)]
pub struct ExDashMap<K, V, S>(dashmap::DashMap<K, V, S>);

/// The cached frames: segment id to the frames of its chunks by chunk id.
pub uninterp spec fn cached(m: dashmap::DashMap<u64, Vec<Vec<u8>>>) -> Map<u64, Seq<Seq<u8>>>;

/// Whether a cache view holds no segment.
pub open spec fn no_entries(c: Map<u64, Seq<Seq<u8>>>) -> bool {
    c == Map::<u64, Seq<Seq<u8>>>::empty()
}

/// Bytes of each frame.
pub open spec fn frames_view(v: Seq<Vec<u8>>) -> Seq<Seq<u8>> {
    v.map_values(|f: Vec<u8>| f@)
}

/// Relies on `DashMap::new`: an empty map.
#[verifier::external_body]
pub(crate) fn cache_new() -> (r: dashmap::DashMap<u64, Vec<Vec<u8>>>)
    ensures
        no_entries(cached(r)),
{
    dashmap::DashMap::new()
}

/// Relies on `DashMap::insert`: afterwards the key maps to the value and
/// every other entry is as before.
#[verifier::external_body]
pub(crate) fn cache_insert(m: &mut dashmap::DashMap<u64, Vec<Vec<u8>>>, k: u64, v: Vec<Vec<u8>>)
    ensures
        cached(*final(m)) == cached(*old(m)).insert(k, frames_view(v@)),
{
    m.insert(k, v);
}

/// Relies on `DashMap::remove`: afterwards the key is absent and every other
/// entry is as before; the removed value is returned.
#[verifier::external_body]
pub(crate) fn cache_remove(m: &mut dashmap::DashMap<u64, Vec<Vec<u8>>>, k: u64) -> (r: Option<
    Vec<Vec<u8>>,
>)
    ensures
        cached(*final(m)) == cached(*old(m)).remove(k),
        r is Some <==> cached(*old(m)).contains_key(k),
        r matches Some(v) ==> frames_view(v@) == cached(*old(m))[k],
{
    m.remove(&k).map(|(_, v)| v)
}

/// Relies on `DashMap::get`: a copy of the entry for the key, if any.
#[verifier::external_body]
pub(crate) fn cache_get(m: &dashmap::DashMap<u64, Vec<Vec<u8>>>, k: u64) -> (r: Option<
    Vec<Vec<u8>>,
>)
    ensures
        r is Some <==> cached(*m).contains_key(k),
        r matches Some(v) ==> frames_view(v@) == cached(*m)[k],
{
    m.get(&k).map(|e| e.value().clone())
}

/// Relies on `DashMap::is_empty`: whether the map holds no entry.
#[verifier::external_body]
pub(crate) fn cache_is_empty(m: &dashmap::DashMap<u64, Vec<Vec<u8>>>) -> (r: bool)
    ensures
        r <==> no_entries(cached(*m)),
{
    m.is_empty()
}

} // verus!
