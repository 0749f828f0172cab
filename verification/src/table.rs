//! The concurrent state table: a mapping from `(route_index, limit_index)`
//! keys to the TAT of the corresponding GCRA cell, stored in a sharded
//! concurrent hash map so that all clones of the middleware handle in the
//! surrounding program can share one table.

use vstd::prelude::*;
use dashmap::DashMap;

verus! {

#[verifier::external_type_specification]
#[verifier::external_body]
#[verifier::reject_recursive_types(K)]
#[verifier::reject_recursive_types(V)]
#[verifier::reject_recursive_types(S)]
pub struct ExDashMap<K, V, S>(DashMap<K, V, S>);

/// The identity of one rate-limit cell: the route's index in the route table,
/// and the limit's index within that route.
pub type CellKey = (usize, usize);

/// The concurrent table the middleware keeps its cells in.
pub type CellTable = DashMap<CellKey, u64>;

/// What the state table holds: the TAT stored under each live key.
pub uninterp spec fn cell_map(m: CellTable) -> Map<CellKey, u64>;

/// The empty cell mapping.
pub open spec fn empty_cells() -> Map<CellKey, u64> {
    Map::empty()
}

/// Relies on dashmap::DashMap::new: a freshly created map holds no entries.
#[verifier::external_body]
pub(crate) fn cells_new() -> (m: CellTable)
    ensures
        cell_map(m) == empty_cells(),
{
    DashMap::new()
}

/// Relies on dashmap::DashMap::get: returns the value stored under the key,
/// if any.
#[verifier::external_body]
pub(crate) fn cells_get(m: &CellTable, key: CellKey) -> (r: Option<u64>)
    ensures
        r == (if cell_map(*m).dom().contains(key) {
            Some(cell_map(*m)[key])
        } else {
            None::<u64>
        }),
{
    m.get(&key).map(|entry| *entry.value())
}

/// Relies on dashmap::DashMap::insert: stores the value under the key,
/// replacing any previous one.
#[verifier::external_body]
pub(crate) fn cells_insert(m: &mut CellTable, key: CellKey, value: u64)
    ensures
        cell_map(*final(m)) == cell_map(*old(m)).insert(key, value),
{
    m.insert(key, value);
}

/// Relies on dashmap::DashMap::remove: takes the entry under the key out of
/// the map, if present.
#[verifier::external_body]
pub(crate) fn cells_remove(m: &mut CellTable, key: CellKey)
    ensures
        cell_map(*final(m)) == cell_map(*old(m)).remove(key),
{
    m.remove(&key);
}

/// Relies on dashmap::DashMap::len: the number of entries over all shards.
#[verifier::external_body]
pub(crate) fn cells_len(m: &CellTable) -> (n: usize)
    ensures
        n == cell_map(*m).dom().len(),
{
    m.len()
}

/// Relies on dashmap::DashMap::iter: the iterator visits every entry exactly
/// once, in no promised order.
#[verifier::external_body]
pub(crate) fn cells_keys(m: &CellTable) -> (keys: Vec<CellKey>)
    ensures
        keys@.to_set() == cell_map(*m).dom(),
        keys@.no_duplicates(),
{
    m.iter().map(|entry| *entry.key()).collect()
}

} // verus!
