//! The store of loaded chunks, kept in a `dashmap::DashMap`.
//!
//! Verus does not look inside the map. What it holds is named here by a spec
//! function, and each call into `dashmap` goes through one function of this
//! module, whose contract is taken on trust from `dashmap`'s documentation.

use crate::terrain::chunk::{ChunkState, ChunkStateView};
use vstd::prelude::*;

verus! {

/// `dashmap::DashMap`: a hash map that can be shared between threads.
#[verifier::external_type_specification]
#[verifier::external_body]
#[verifier::reject_recursive_types(K)]
#[verifier::reject_recursive_types(V)]
#[verifier::reject_recursive_types(S)]
pub struct ExDashMap<K, V, S>(dashmap::DashMap<K, V, S>);

/// The chunk states that a map holds, by the coordinates of their chunks.
pub uninterp spec fn cached_states(m: &dashmap::DashMap<(i32, i32, i32), ChunkState>) -> Map<
    (i32, i32, i32),
    ChunkStateView,
>;

/// `DashMap::new`: an empty map.
#[verifier::external_body]
pub(crate) fn cache_new() -> (m: dashmap::DashMap<(i32, i32, i32), ChunkState>)
    ensures
        forall|key: (i32, i32, i32)| !cached_states(&m).dom().contains(key),
{
    dashmap::DashMap::new()
}

/// `DashMap::contains_key`: whether the map holds a value for the key.
#[verifier::external_body]
pub(crate) fn cache_contains(
    m: &dashmap::DashMap<(i32, i32, i32), ChunkState>,
    key: (i32, i32, i32),
) -> (r: bool)
    ensures
        r == cached_states(m).dom().contains(key),
{
    m.contains_key(&key)
}

/// `DashMap::insert`: afterwards the map holds the value for the key, and
/// for every other key what it held before.
#[verifier::external_body]
pub(crate) fn cache_insert(
    m: &mut dashmap::DashMap<(i32, i32, i32), ChunkState>,
    key: (i32, i32, i32),
    state: ChunkState,
)
    ensures
        cached_states(final(m)) == cached_states(old(m)).insert(key, state@),
{
    m.insert(key, state);
}

/// `DashMap::get`, with a copy of the value in place of the guard: the value
/// that the map holds for the key, or `None` where it holds none.
#[verifier::external_body]
pub(crate) fn cache_get(
    m: &dashmap::DashMap<(i32, i32, i32), ChunkState>,
    key: (i32, i32, i32),
) -> (r: Option<ChunkState>)
    ensures
        r is Some == cached_states(m).dom().contains(key),
        r matches Some(state) ==> state@ == cached_states(m)[key],
{
    match m.get(&key) {
        Some(entry) => Some(entry.value().clone()),
        None => None,
    }
}

} // verus!
