//! The table of a server's stores: a concurrent hash map keyed by store id.
//!
//! Contracts see a table through [`table_stores`], the stores it holds by id.
//! The order in which the map is walked is left open.

use crate::cluster::px_kv_store::PxKvStore;
use dashmap::DashMap;
use vstd::prelude::*;

verus! {

/// The stores that the table `t` holds, by id.
pub uninterp spec fn table_stores(t: DashMap<u64, PxKvStore>) -> Map<u64, PxKvStore>;

/// `DashMap::new`: the table holds no store.
#[verifier::external_body]
pub(crate) fn table_new() -> (t: DashMap<u64, PxKvStore>)
    ensures
        forall|id: u64| !(#[trigger] table_stores(t).contains_key(id)),
{
    DashMap::new()
}

/// `DashMap::insert`: the table holds `store` under `id`, in place of what it
/// held there, which is returned.
#[verifier::external_body]
pub(crate) fn table_insert(t: &mut DashMap<u64, PxKvStore>, id: u64, store: PxKvStore) -> (r: Option<
    PxKvStore,
>)
    ensures
        table_stores(*final(t)) == table_stores(*old(t)).insert(id, store),
        r == if table_stores(*old(t)).contains_key(id) {
            Some(table_stores(*old(t))[id])
        } else {
            None::<PxKvStore>
        },
{
    t.insert(id, store)
}

/// `DashMap::remove`: the table holds nothing under `id`; what it held there is
/// returned.
#[verifier::external_body]
pub(crate) fn table_remove(t: &mut DashMap<u64, PxKvStore>, id: u64) -> (r: Option<PxKvStore>)
    ensures
        table_stores(*final(t)) == table_stores(*old(t)).remove(id),
        r == if table_stores(*old(t)).contains_key(id) {
            Some(table_stores(*old(t))[id])
        } else {
            None::<PxKvStore>
        },
{
    t.remove(&id).map(|(_, store)| store)
}

/// `DashMap::contains_key`: whether the table holds a store under `id`.
#[verifier::external_body]
pub(crate) fn table_contains(t: &DashMap<u64, PxKvStore>, id: u64) -> (r: bool)
    ensures
        r == table_stores(*t).contains_key(id),
{
    t.contains_key(&id)
}

/// `DashMap::iter`, reduced to the keys: every id of the table once, in an
/// order that is left open.
#[verifier::external_body]
pub(crate) fn table_ids(t: &DashMap<u64, PxKvStore>) -> (ids: Vec<u64>)
    ensures
        ids@.no_duplicates(),
        forall|id: u64| #[trigger] ids@.contains(id) == table_stores(*t).contains_key(id),
{
    t.iter().map(|entry| *entry.key()).collect()
}

} // verus!
