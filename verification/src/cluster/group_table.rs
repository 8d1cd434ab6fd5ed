//! The table of a store's groups: a concurrent hash map keyed by group id.
//!
//! Contracts see a table through [`table_groups`], the groups it holds by id.
//! The order in which the map is walked is left open.

use crate::cluster::group::PxGroup;
use dashmap::DashMap;
use vstd::prelude::*;

verus! {

#[verifier::external_type_specification]
#[verifier::external_body]
#[verifier::reject_recursive_types(K)]
#[verifier::reject_recursive_types(V)]
#[verifier::reject_recursive_types(S)]
pub struct ExDashMap<K, V, S>(dashmap::DashMap<K, V, S>);

/// The groups that the table `t` holds, by id.
pub uninterp spec fn table_groups(t: DashMap<u64, PxGroup>) -> Map<u64, PxGroup>;

/// `DashMap::new`: the table holds no group.
#[verifier::external_body]
pub(crate) fn table_new() -> (t: DashMap<u64, PxGroup>)
    ensures
        forall|id: u64| !(#[trigger] table_groups(t).contains_key(id)),
{
    DashMap::new()
}

/// `DashMap::insert`: the table holds `group` under `id`, in place of what it
/// held there, which is returned.
#[verifier::external_body]
pub(crate) fn table_insert(t: &mut DashMap<u64, PxGroup>, id: u64, group: PxGroup) -> (r: Option<
    PxGroup,
>)
    ensures
        table_groups(*final(t)) == table_groups(*old(t)).insert(id, group),
        r == if table_groups(*old(t)).contains_key(id) {
            Some(table_groups(*old(t))[id])
        } else {
            None::<PxGroup>
        },
{
    t.insert(id, group)
}

/// `DashMap::remove`: the table holds nothing under `id`; what it held there is
/// returned.
#[verifier::external_body]
pub(crate) fn table_remove(t: &mut DashMap<u64, PxGroup>, id: u64) -> (r: Option<PxGroup>)
    ensures
        table_groups(*final(t)) == table_groups(*old(t)).remove(id),
        r == if table_groups(*old(t)).contains_key(id) {
            Some(table_groups(*old(t))[id])
        } else {
            None::<PxGroup>
        },
{
    t.remove(&id).map(|(_, group)| group)
}

/// `DashMap::contains_key`: whether the table holds a group under `id`.
#[verifier::external_body]
pub(crate) fn table_contains(t: &DashMap<u64, PxGroup>, id: u64) -> (r: bool)
    ensures
        r == table_groups(*t).contains_key(id),
{
    t.contains_key(&id)
}

/// `DashMap::iter`, reduced to the keys: every id of the table once, in an
/// order that is left open.
#[verifier::external_body]
pub(crate) fn table_ids(t: &DashMap<u64, PxGroup>) -> (ids: Vec<u64>)
    ensures
        ids@.no_duplicates(),
        forall|id: u64| #[trigger] ids@.contains(id) == table_groups(*t).contains_key(id),
{
    t.iter().map(|entry| *entry.key()).collect()
}

} // verus!
