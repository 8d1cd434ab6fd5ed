//! What the metrics log shows of every group: the marks of its local replica,
//! and the pages that its snapshots wrote.

use crate::cluster::local_replica::PxLocalReplica;
use crate::cluster::px_kv_store::PxKvStore;
use crate::common::metrics::{metric_prefix, GroupKey};
use crate::common::text::concat2;
use crate::server::mgmt_api::{has_group, lemma_unchanged_chain, lists_stores, regrouped, unchanged};
use crate::server::store_registry::KvStoreRegistry;
use vstd::prelude::*;
use vstd::string::*;

verus! {

/// Names of a group's metrics.
#[derive(Debug)]
pub struct EngineHandles {
    pub paxos_chosen: String,
    pub paxos_applied: String,
    pub paxos_last_chosen: String,
    pub paxos_highest_seen: String,
    pub paxos_term: String,
    pub snapshot_pages: String,
}

impl EngineHandles {
    /// Names of the metrics of one group.
    pub fn register(key: GroupKey) -> (h: Self)
        ensures
            h.paxos_chosen@ == metric_prefix(key) + ".paxos.chosen_slot.g"@,
            h.paxos_applied@ == metric_prefix(key) + ".paxos.applied_slot.g"@,
            h.paxos_last_chosen@ == metric_prefix(key) + ".paxos.last_chosen_slot.g"@,
            h.paxos_highest_seen@ == metric_prefix(key) + ".paxos.highest_seen_slot.g"@,
            h.paxos_term@ == metric_prefix(key) + ".paxos.current_term.g"@,
            h.snapshot_pages@ == metric_prefix(key) + ".tree.snapshot.pages.c"@,
    {
        let prefix: String = key.prefix();
        EngineHandles {
            paxos_chosen: concat2(prefix.as_str(), ".paxos.chosen_slot.g"),
            paxos_applied: concat2(prefix.as_str(), ".paxos.applied_slot.g"),
            paxos_last_chosen: concat2(prefix.as_str(), ".paxos.last_chosen_slot.g"),
            paxos_highest_seen: concat2(prefix.as_str(), ".paxos.highest_seen_slot.g"),
            paxos_term: concat2(prefix.as_str(), ".paxos.current_term.g"),
            snapshot_pages: concat2(prefix.as_str(), ".tree.snapshot.pages.c"),
        }
    }
}

/// Marks of a replica.
#[derive(Clone, Copy, Debug, PartialEq, Eq, Structural)]
pub struct PaxosGauges {
    pub contiguous_chosen: u64,
    pub contiguous_applied: u64,
    pub last_chosen_slot: u64,
    pub highest_seen_slot: u64,
    pub current_term: u64,
}

/// Marks of a replica.
pub open spec fn gauges_of(r: PxLocalReplica) -> PaxosGauges {
    PaxosGauges {
        contiguous_chosen: r.learner.frontier(),
        contiguous_applied: r.learner.frontier(),
        last_chosen_slot: r.learner.last_slot(),
        highest_seen_slot: r.highest_seen_slot,
        current_term: r.current_term,
    }
}

/// Marks of a replica.
pub fn read_paxos_gauges(replica: &PxLocalReplica) -> (g: PaxosGauges)
    ensures
        g == gauges_of(*replica),
{
    PaxosGauges {
        contiguous_chosen: replica.contiguous_chosen(),
        contiguous_applied: replica.contiguous_applied(),
        last_chosen_slot: replica.last_chosen_slot(),
        highest_seen_slot: replica.highest_seen_slot,
        current_term: replica.current_term,
    }
}

/// The groups whose metrics are registered, and how many pages their snapshots
/// had written when they were last looked at.
#[derive(Debug)]
pub struct EngineCollector {
    pub keys: Vec<GroupKey>,
    pub last_pages: Vec<u64>,
}

/// `known` followed by those of `keys` that were not there yet.
pub open spec fn with_keys(known: Seq<GroupKey>, keys: Seq<GroupKey>) -> Seq<GroupKey>
    decreases keys.len(),
{
    if keys.len() == 0 {
        known
    } else {
        let front = with_keys(known, keys.drop_last());
        if front.contains(keys.last()) {
            front
        } else {
            front.push(keys.last())
        }
    }
}

/// What a counter moved on by; one that starts anew has not moved.
pub open spec fn page_delta(before: u64, now: u64) -> u64 {
    if now >= before {
        (now - before) as u64
    } else {
        0
    }
}

impl EngineCollector {
    /// Every registered group is registered once and has a page count.
    pub open spec fn wf(&self) -> bool {
        self.keys@.no_duplicates() && self.last_pages.len() == self.keys.len()
    }

    /// A collector that knows of no group.
    pub fn new() -> (c: Self)
        ensures
            c.wf(),
            c.keys@ == Seq::<GroupKey>::empty(),
    {
        EngineCollector { keys: Vec::new(), last_pages: Vec::new() }
    }

    /// Register the groups among `seen` that are not registered yet.
    pub fn register_new(&mut self, seen: &Vec<GroupKey>)
        requires
            old(self).wf(),
        ensures
            final(self).wf(),
            final(self).keys@ == with_keys(old(self).keys@, seen@),
            forall|i: int|
                0 <= i < old(self).keys.len() ==> #[trigger] final(self).last_pages@[i] == old(self).last_pages@[i],
            forall|i: int|
                old(self).keys.len() <= i < final(self).keys.len() ==> #[trigger] final(self).last_pages@[i] == 0,
    {
        let mut i: usize = 0;
        proof {
            assert(seen@.take(0) =~= Seq::empty());
        }
        while i < seen.len()
            invariant
                i <= seen.len(),
                self.wf(),
                old(self).wf(),
                self.keys@ == with_keys(old(self).keys@, seen@.take(i as int)),
                old(self).keys.len() <= self.keys.len(),
                forall|k: int|
                    0 <= k < old(self).keys.len() ==> #[trigger] self.last_pages@[k] == old(self).last_pages@[k],
                forall|k: int|
                    old(self).keys.len() <= k < self.keys.len() ==> #[trigger] self.last_pages@[k]
                        == 0,
            decreases seen.len() - i,
        {
            proof {
                assert(seen@.take(i + 1).drop_last() =~= seen@.take(i as int));
                assert(seen@.take(i + 1).last() == seen@[i as int]);
            }
            let key = seen[i];
            if self.find(key).is_none() {
                self.keys.push(key);
                self.last_pages.push(0);
            }
            i = i + 1;
        }
        proof {
            assert(seen@.take(i as int) =~= seen@);
        }
    }

    fn find(&self, key: GroupKey) -> (r: Option<usize>)
        ensures
            match r {
                Some(i) => i < self.keys.len() && self.keys[i as int] == key,
                None => !self.keys@.contains(key),
            },
    {
        let mut i: usize = 0;
        while i < self.keys.len()
            invariant
                i <= self.keys.len(),
                forall|k: int| 0 <= k < i ==> #[trigger] self.keys@[k] != key,
            decreases self.keys.len() - i,
        {
            if self.keys[i] == key {
                return Some(i);
            }
            i = i + 1;
        }
        None
    }
}

/// What one pass of the collector finds of a group.
#[derive(Clone, Copy, Debug, PartialEq, Eq, Structural)]
pub struct GroupSample {
    pub key: GroupKey,
    pub gauges: PaxosGauges,
    /// Pages that snapshots wrote since the last pass.
    pub pages: u64,
}

/// The page count that is reported for a group, if its engine keeps one.
pub open spec fn pages_of(pages: Seq<(GroupKey, u64)>, key: GroupKey) -> Option<u64>
    decreases pages.len(),
{
    if pages.len() == 0 {
        None
    } else if pages.last().0 == key {
        Some(pages.last().1)
    } else {
        pages_of(pages.drop_last(), key)
    }
}

/// What a pass finds of a group whose page count was `before`; nothing, if the
/// group is gone.
pub open spec fn sample_of(
    stores: Map<u64, PxKvStore>,
    key: GroupKey,
    pages: Seq<(GroupKey, u64)>,
    before: u64,
) -> Option<GroupSample> {
    if has_group(stores, key.store_id, key.group_id) {
        Some(
            GroupSample {
                key,
                gauges: gauges_of(
                    stores[key.store_id].view_groups()[key.group_id].local_replica,
                ),
                pages: match pages_of(pages, key) {
                    Some(now) => page_delta(before, now),
                    None => 0,
                },
            },
        )
    } else {
        None
    }
}

/// What a pass finds of groups whose page counts were `before`.
pub open spec fn samples(
    stores: Map<u64, PxKvStore>,
    keys: Seq<GroupKey>,
    pages: Seq<(GroupKey, u64)>,
    before: Seq<u64>,
) -> Seq<GroupSample>
    decreases keys.len(),
{
    if keys.len() == 0 {
        Seq::empty()
    } else {
        let n = keys.len() - 1;
        let front = samples(stores, keys.drop_last(), pages, before);
        match sample_of(stores, keys[n], pages, before[n]) {
            Some(s) => front.push(s),
            None => front,
        }
    }
}

/// The page count of a group after a pass.
pub open spec fn count_after(
    stores: Map<u64, PxKvStore>,
    key: GroupKey,
    pages: Seq<(GroupKey, u64)>,
    before: u64,
) -> u64 {
    match pages_of(pages, key) {
        Some(now) => if has_group(stores, key.store_id, key.group_id) {
            now
        } else {
            before
        },
        None => before,
    }
}

/// `counts`, and zeros behind them up to the length `n`.
pub open spec fn padded(counts: Seq<u64>, n: nat) -> Seq<u64> {
    Seq::new(
        n,
        |i: int|
            if i < counts.len() {
                counts[i]
            } else {
                0
            },
    )
}

/// `keys` names every group of every store, and nothing else.
pub open spec fn lists_keys(keys: Seq<GroupKey>, stores: Map<u64, PxKvStore>) -> bool {
    forall|key: GroupKey| #[trigger]
        keys.contains(key) <==> has_group(stores, key.store_id, key.group_id)
}

fn find_pages(pages: &Vec<(GroupKey, u64)>, key: GroupKey) -> (r: Option<u64>)
    ensures
        r == pages_of(pages@, key),
{
    let mut i: usize = pages.len();
    proof {
        assert(pages@.take(i as int) =~= pages@);
    }
    while i > 0
        invariant
            i <= pages.len(),
            pages_of(pages@, key) == pages_of(pages@.take(i as int), key),
        decreases i,
    {
        i = i - 1;
        proof {
            assert(pages@.take(i + 1).drop_last() =~= pages@.take(i as int));
            assert(pages@.take(i + 1).last() == pages@[i as int]);
        }
        if pages[i].0 == key {
            return Some(pages[i].1);
        }
    }
    None
}

impl KvStoreRegistry {
    /// The groups of all stores.
    pub fn group_keys(&mut self) -> (keys: Vec<GroupKey>)
        requires
            old(self).wf(),
        ensures
            final(self).wf(),
            *final(self) == (KvStoreRegistry { stores: final(self).stores, ..*old(self) }),
            unchanged(old(self).view_stores(), final(self).view_stores()),
            lists_keys(keys@, old(self).view_stores()),
    {
        let ids = self.store_ids();
        let ghost start = self.view_stores();
        let mut keys: Vec<GroupKey> = Vec::new();
        let mut i: usize = 0;
        while i < ids.len()
            invariant
                i <= ids.len(),
                start == old(self).view_stores(),
                lists_stores(ids@, start),
                self.wf(),
                *self == (KvStoreRegistry { stores: self.stores, ..*old(self) }),
                unchanged(start, self.view_stores()),
                forall|key: GroupKey| #[trigger]
                    keys@.contains(key) <==> has_group(start, key.store_id, key.group_id)
                        && ids@.take(i as int).contains(key.store_id),
            decreases ids.len() - i,
        {
            let id: u64 = ids[i];
            let ghost before = self.view_stores();
            let ghost known = keys@;
            proof {
                assert(ids@.contains(id));
                assert(start.contains_key(id));
                assert(before.contains_key(id));
            }
            if let Some(store) = self.get_store(id) {
                let groups = store.group_ids();
                let mut j: usize = 0;
                while j < groups.len()
                    invariant
                        j <= groups.len(),
                        forall|key: GroupKey| #[trigger]
                            keys@.contains(key) <==> known.contains(key) || (key.store_id == id
                                && groups@.take(j as int).contains(key.group_id)),
                    decreases groups.len() - j,
                {
                    let ghost some = keys@;
                    let key = GroupKey { store_id: id, group_id: groups[j] };
                    keys.push(key);
                    proof {
                        let few = groups@.take(j as int);
                        let more = groups@.take(j + 1);
                        assert(more =~= few.push(key.group_id));
                        assert forall|k: GroupKey| #[trigger]
                            keys@.contains(k) <==> known.contains(k) || (k.store_id == id
                                && more.contains(k.group_id)) by {
                            assert(keys@ =~= some.push(key));
                            lemma_contains_after_push(some, key, k);
                            lemma_contains_after_push(few, key.group_id, k.group_id);
                            assert(k == key <==> k.store_id == id && k.group_id == key.group_id);
                        }
                    }
                    j = j + 1;
                }
                proof {
                    assert(groups@.take(j as int) =~= groups@);
                    assert(regrouped(start[id], before[id], start[id].view_groups()));
                    let few = ids@.take(i as int);
                    let more = ids@.take(i + 1);
                    assert(more =~= few.push(id));
                    assert forall|key: GroupKey| #[trigger]
                        keys@.contains(key) <==> has_group(start, key.store_id, key.group_id)
                            && more.contains(key.store_id) by {
                        lemma_contains_after_push(few, id, key.store_id);
                        assert(known.contains(key) <==> has_group(
                            start,
                            key.store_id,
                            key.group_id,
                        ) && few.contains(key.store_id));
                        if key.store_id == id {
                            assert(groups@.contains(key.group_id) == has_group(
                                start,
                                id,
                                key.group_id,
                            ));
                        }
                    }
                }
                self.put_store(store, Ghost(before), Ghost(before[id].view_groups()));
                proof {
                    lemma_unchanged_chain(start, before, self.view_stores());
                }
            }
            i = i + 1;
        }
        proof {
            assert(ids@.take(i as int) =~= ids@);
            assert forall|key: GroupKey| #[trigger]
                keys@.contains(key) <==> has_group(
                    start,
                    key.store_id,
                    key.group_id,
                ) by {
                assert(ids@.contains(key.store_id) == start.contains_key(key.store_id));
            }
        }
        keys
    }

    fn replica_gauges(&mut self, key: GroupKey) -> (r: Option<PaxosGauges>)
        requires
            old(self).wf(),
        ensures
            final(self).wf(),
            *final(self) == (KvStoreRegistry { stores: final(self).stores, ..*old(self) }),
            unchanged(old(self).view_stores(), final(self).view_stores()),
            r == if has_group(old(self).view_stores(), key.store_id, key.group_id) {
                Some(
                    gauges_of(
                        old(
                            self,
                        ).view_stores()[key.store_id].view_groups()[key.group_id].local_replica,
                    ),
                )
            } else {
                None
            },
    {
        let ghost before = self.view_stores();
        let ghost sid = key.store_id;
        match self.check_out(key.store_id, key.group_id) {
            Ok((store, group)) => {
                let mut store = store;
                let gauges = read_paxos_gauges(&group.local_replica);
                store.put_group(group);
                proof {
                    assert(store.view_groups() =~= before[sid].view_groups());
                }
                self.put_store(store, Ghost(before), Ghost(before[sid].view_groups()));
                Some(gauges)
            },
            Err(_) => None,
        }
    }
}

proof fn lemma_contains_after_push<T>(s: Seq<T>, x: T, y: T)
    ensures
        s.push(x).contains(y) <==> s.contains(y) || x == y,
{
    let t = s.push(x);
    assert(t[s.len() as int] == x);
    if s.contains(y) {
        let i = s.index_of(y);
        assert(t[i] == y);
    }
    if t.contains(y) {
        let i = t.index_of(y);
        if i < s.len() {
            assert(s[i] == y);
        }
    }
}

/// `after` is the collector `before` after a pass over `stores`, whose engines
/// reported `pages`, and `found` is what the pass found.
pub open spec fn collected(
    before: EngineCollector,
    after: EngineCollector,
    stores: Map<u64, PxKvStore>,
    pages: Seq<(GroupKey, u64)>,
    found: Seq<GroupSample>,
) -> bool {
    let counts = padded(before.last_pages@, after.keys@.len());
    &&& exists|seen: Seq<GroupKey>| #[trigger]
        lists_keys(seen, stores) && after.keys@ == with_keys(before.keys@, seen)
    &&& found == samples(stores, after.keys@, pages, counts)
    &&& forall|i: int|
        0 <= i < after.keys.len() ==> #[trigger] after.last_pages@[i] == count_after(
            stores,
            after.keys@[i],
            pages,
            counts[i],
        )
}

impl EngineCollector {
    /// One pass over all stores: register the groups that are new, and look at
    /// every registered group that is still there. `pages` holds the page counts
    /// of the groups whose engines keep one.
    pub fn collect(&mut self, registry: &mut KvStoreRegistry, pages: &Vec<(GroupKey, u64)>) -> (r:
        Vec<GroupSample>)
        requires
            old(self).wf(),
            old(registry).wf(),
        ensures
            final(self).wf(),
            final(registry).wf(),
            unchanged(old(registry).view_stores(), final(registry).view_stores()),
            *final(registry) == (KvStoreRegistry {
                stores: final(registry).stores,
                ..*old(registry)
            }),
            collected(*old(self), *final(self), old(registry).view_stores(), pages@, r@),
    {
        let ghost stores = registry.view_stores();
        let seen = registry.group_keys();
        self.register_new(&seen);
        let ghost keys = self.keys@;
        let ghost before = padded(old(self).last_pages@, keys.len());
        proof {
            assert(lists_keys(seen@, stores));
            lemma_with_keys(old(self).keys@, seen@);
            assert(self.last_pages@ =~= before);
            assert(keys.take(0) =~= Seq::empty());
        }
        let mut r: Vec<GroupSample> = Vec::new();
        let mut i: usize = 0;
        while i < self.keys.len()
            invariant
                i <= self.keys.len(),
                self.wf(),
                self.keys@ == keys,
                before.len() == keys.len(),
                stores == old(registry).view_stores(),
                registry.wf(),
                *registry == (KvStoreRegistry { stores: registry.stores, ..*old(registry) }),
                unchanged(stores, registry.view_stores()),
                r@ == samples(stores, keys.take(i as int), pages@, before),
                forall|k: int|
                    0 <= k < i ==> #[trigger] self.last_pages@[k] == count_after(
                        stores,
                        keys[k],
                        pages@,
                        before[k],
                    ),
                forall|k: int| i <= k < keys.len() ==> #[trigger] self.last_pages@[k] == before[k],
            decreases self.keys.len() - i,
        {
            let key = self.keys[i];
            let ghost now_stores = registry.view_stores();
            proof {
                assert(keys.take(i + 1).drop_last() =~= keys.take(i as int));
                assert(keys.take(i + 1)[i as int] == key);
                assert(now_stores.contains_key(key.store_id) ==> regrouped(
                    stores[key.store_id],
                    now_stores[key.store_id],
                    stores[key.store_id].view_groups(),
                ));
                assert(has_group(now_stores, key.store_id, key.group_id) == has_group(
                    stores,
                    key.store_id,
                    key.group_id,
                ));
            }
            if let Some(gauges) = registry.replica_gauges(key) {
                let delta: u64 = match find_pages(pages, key) {
                    Some(now) => {
                        let last: u64 = self.last_pages[i];
                        self.last_pages.set(i, now);
                        if now >= last {
                            now - last
                        } else {
                            0
                        }
                    },
                    None => 0,
                };
                r.push(GroupSample { key, gauges, pages: delta });
            }
            proof {
                lemma_unchanged_chain(stores, now_stores, registry.view_stores());
            }
            i = i + 1;
        }
        proof {
            assert(keys.take(i as int) =~= keys);
        }
        r
    }
}

/// The sum of what a counter moved on by from one look to the next.
pub open spec fn total_delta(start: u64, readings: Seq<u64>) -> int
    decreases readings.len(),
{
    if readings.len() == 0 {
        0
    } else {
        let before = if readings.len() == 1 {
            start
        } else {
            readings[readings.len() - 2]
        };
        total_delta(start, readings.drop_last()) + page_delta(before, readings.last())
    }
}

/// As long as a counter does not go back, the pages that were counted are as
/// many as it moved on by, however often it was looked at.
pub proof fn every_page_is_counted_once(start: u64, readings: Seq<u64>)
    requires
        readings.len() > 0,
        start <= readings[0],
        forall|i: int, j: int| 0 <= i < j < readings.len() ==> readings[i] <= readings[j],
    ensures
        total_delta(start, readings) == readings.last() - start,
    decreases readings.len(),
{
    if readings.len() > 1 {
        let n = readings.len();
        assert(readings[n - 2] <= readings[n - 1]);
        every_page_is_counted_once(start, readings.drop_last());
        assert(readings.drop_last().last() == readings[n - 2]);
    } else {
        assert(readings.drop_last() =~= Seq::empty());
        assert(total_delta(start, readings.drop_last()) == 0);
    }
}

// ── Laws of passes ───────────────────────────────────────────────
/// The page count of a group when it was last looked at, `0` before that.
pub open spec fn known_pages(c: EngineCollector, key: GroupKey) -> u64 {
    if c.keys@.contains(key) {
        c.last_pages@[c.keys@.index_of(key)]
    } else {
        0
    }
}

/// The pages that a pass counted for a group.
pub open spec fn pages_counted(found: Seq<GroupSample>, key: GroupKey) -> int
    decreases found.len(),
{
    if found.len() == 0 {
        0
    } else {
        pages_counted(found.drop_last(), key) + if found.last().key == key {
            found.last().pages as int
        } else {
            0
        }
    }
}

proof fn lemma_with_keys(known: Seq<GroupKey>, seen: Seq<GroupKey>)
    ensures
        with_keys(known, seen).len() >= known.len(),
        forall|i: int| 0 <= i < known.len() ==> #[trigger] with_keys(known, seen)[i] == known[i],
        forall|k: GroupKey| #[trigger]
            with_keys(known, seen).contains(k) <==> known.contains(k) || seen.contains(k),
    decreases seen.len(),
{
    if seen.len() > 0 {
        let front = with_keys(known, seen.drop_last());
        lemma_with_keys(known, seen.drop_last());
        assert forall|k: GroupKey| #[trigger]
            with_keys(known, seen).contains(k) <==> known.contains(k) || seen.contains(k) by {
            assert(seen =~= seen.drop_last().push(seen.last()));
            lemma_contains_after_push(seen.drop_last(), seen.last(), k);
            lemma_contains_after_push(front, seen.last(), k);
            assert(front.contains(k) <==> known.contains(k) || seen.drop_last().contains(k));
        }
    }
}

proof fn lemma_samples(
    stores: Map<u64, PxKvStore>,
    keys: Seq<GroupKey>,
    pages: Seq<(GroupKey, u64)>,
    before: Seq<u64>,
    key: GroupKey,
)
    requires
        keys.no_duplicates(),
        has_group(stores, key.store_id, key.group_id),
    ensures
        ({
            let found = samples(stores, keys, pages, before);
            if keys.contains(key) {
                let s = sample_of(stores, key, pages, before[keys.index_of(key)])->0;
                &&& pages_counted(found, key) == s.pages
                &&& found.contains(s)
                &&& forall|i: int|
                    0 <= i < found.len() && (#[trigger] found[i]).key == key ==> found[i] == s
            } else {
                &&& pages_counted(found, key) == 0
                &&& forall|i: int| 0 <= i < found.len() ==> (#[trigger] found[i]).key != key
            }
        }),
    decreases keys.len(),
{
    if keys.len() > 0 {
        let n = keys.len() - 1;
        let rest = keys.drop_last();
        let front = samples(stores, rest, pages, before);
        let found = samples(stores, keys, pages, before);
        assert(keys =~= rest.push(keys[n]));
        lemma_contains_after_push(rest, keys[n], key);
        lemma_samples(stores, rest, pages, before, key);
        if rest.contains(key) {
            let i = rest.index_of(key);
            assert(keys[i] == key);
            assert(keys.index_of(key) == i);
            assert(keys[n] != key);
            let s = sample_of(stores, key, pages, before[i])->0;
            let at = front.index_of(s);
            assert(found[at] == s);
        } else if keys[n] == key {
            assert(keys.index_of(key) == n);
            let s = sample_of(stores, key, pages, before[n])->0;
            assert(found == front.push(s));
            assert(found[front.len() as int] == s);
            assert(found.drop_last() =~= front);
        }
        match sample_of(stores, keys[n], pages, before[n]) {
            Some(s) => {
                assert(found.drop_last() =~= front);
                assert(found.last() == s);
            },
            None => {},
        }
    }
}

/// A pass finds every group that is there, also one that came since the last
/// pass, exactly once: with the marks of its replica, and with the pages by which
/// its count went up since it was last looked at.
pub proof fn every_group_is_found_once_a_pass(
    before: EngineCollector,
    after: EngineCollector,
    stores: Map<u64, PxKvStore>,
    pages: Seq<(GroupKey, u64)>,
    found: Seq<GroupSample>,
    key: GroupKey,
)
    requires
        before.wf(),
        after.wf(),
        collected(before, after, stores, pages, found),
        has_group(stores, key.store_id, key.group_id),
    ensures
        after.keys@.contains(key),
        ({
            let s = sample_of(stores, key, pages, known_pages(before, key))->0;
            &&& found.contains(s)
            &&& forall|i: int|
                0 <= i < found.len() && (#[trigger] found[i]).key == key ==> found[i] == s
            &&& pages_counted(found, key) == s.pages
        }),
        known_pages(after, key) == match pages_of(pages, key) {
            Some(now) => now,
            None => known_pages(before, key),
        },
{
    let seen = choose|seen: Seq<GroupKey>| #[trigger]
        lists_keys(seen, stores) && after.keys@ == with_keys(before.keys@, seen);
    let counts = padded(before.last_pages@, after.keys@.len());
    lemma_with_keys(before.keys@, seen);
    assert(seen.contains(key));
    assert(after.keys@.contains(key));
    let i = after.keys@.index_of(key);
    if before.keys@.contains(key) {
        let j = before.keys@.index_of(key);
        assert(after.keys@[j] == before.keys@[j]);
        assert(i == j);
    } else if i < before.keys@.len() {
        assert(after.keys@[i] == before.keys@[i]);
    }
    assert(counts[i] == known_pages(before, key));
    lemma_samples(stores, after.keys@, pages, counts, key);
    assert(after.last_pages@[i] == count_after(stores, after.keys@[i], pages, counts[i]));
}

/// One pass of a collector among several.
pub struct CollectorPass {
    pub stores: Map<u64, PxKvStore>,
    pub pages: Seq<(GroupKey, u64)>,
    pub found: Seq<GroupSample>,
    pub after: EngineCollector,
}

/// The collector after some passes.
pub open spec fn collector_after(start: EngineCollector, passes: Seq<CollectorPass>) -> EngineCollector {
    if passes.len() == 0 {
        start
    } else {
        passes.last().after
    }
}

/// The passes follow each other, from the collector `start` on.
pub open spec fn passes_follow(start: EngineCollector, passes: Seq<CollectorPass>) -> bool
    decreases passes.len(),
{
    passes.len() > 0 ==> {
        let p = passes.last();
        &&& passes_follow(start, passes.drop_last())
        &&& p.after.wf()
        &&& collected(
            collector_after(start, passes.drop_last()),
            p.after,
            p.stores,
            p.pages,
            p.found,
        )
    }
}

/// The pages that passes counted for a group, all together.
pub open spec fn counted_over(passes: Seq<CollectorPass>, key: GroupKey) -> int
    decreases passes.len(),
{
    if passes.len() == 0 {
        0
    } else {
        counted_over(passes.drop_last(), key) + pages_counted(passes.last().found, key)
    }
}

/// What a group's engine reported in each pass.
pub open spec fn readings_of(passes: Seq<CollectorPass>, key: GroupKey) -> Seq<u64> {
    passes.map_values(|p: CollectorPass| pages_of(p.pages, key)->0)
}

/// Over any number of passes in which a group is there and its engine reports a
/// page count, the group's counter grows by what that count went up from one
/// pass to the next, and the last pass finds the replica's marks.
pub proof fn counter_grows_by_what_was_reported(
    start: EngineCollector,
    passes: Seq<CollectorPass>,
    key: GroupKey,
)
    requires
        start.wf(),
        passes_follow(start, passes),
        forall|i: int|
            #![trigger passes[i]]
            0 <= i < passes.len() ==> has_group(
                passes[i].stores,
                key.store_id,
                key.group_id,
            ) && pages_of(passes[i].pages, key) is Some,
    ensures
        counted_over(passes, key) == total_delta(
            known_pages(start, key),
            readings_of(passes, key),
        ),
        collector_after(start, passes).wf(),
        known_pages(collector_after(start, passes), key) == if passes.len() == 0 {
            known_pages(start, key)
        } else {
            readings_of(passes, key).last()
        },
        passes.len() > 0 ==> exists|i: int|
            0 <= i < passes.last().found.len() && (#[trigger] passes.last().found[i]).key == key
                && passes.last().found[i].gauges == gauges_of(
                passes.last().stores[key.store_id].view_groups()[key.group_id].local_replica,
            ),
    decreases passes.len(),
{
    let readings = readings_of(passes, key);
    if passes.len() > 0 {
        let p = passes.last();
        let n = passes.len() - 1;
        let front = passes.drop_last();
        assert(passes[n] == p);
        assert forall|i: int|
            #![trigger front[i]]
            0 <= i < front.len() implies has_group(front[i].stores, key.store_id, key.group_id)
            && pages_of(front[i].pages, key) is Some by {
            assert(front[i] == passes[i]);
        }
        counter_grows_by_what_was_reported(start, front, key);
        assert(readings.drop_last() =~= readings_of(front, key));
        assert(n > 0 ==> readings_of(front, key).last() == readings[n - 1]);
        let c = collector_after(start, front);
        every_group_is_found_once_a_pass(c, p.after, p.stores, p.pages, p.found, key);
        let s = sample_of(p.stores, key, p.pages, known_pages(c, key))->0;
        let at = p.found.index_of(s);
        assert(p.found[at].key == key);
    }
}

/// The page count of a group is the one reported for it last, and unknown
/// exactly if none was.
pub proof fn last_page_count_counts(pages: Seq<(GroupKey, u64)>, key: GroupKey)
    ensures
        match pages_of(pages, key) {
            Some(n) => exists|i: int|
                0 <= i < pages.len() && #[trigger] pages[i] == (key, n) && forall|j: int|
                    i < j < pages.len() ==> (#[trigger] pages[j]).0 != key,
            None => forall|i: int| 0 <= i < pages.len() ==> (#[trigger] pages[i]).0 != key,
        },
    decreases pages.len(),
{
    if pages.len() > 0 {
        let front = pages.drop_last();
        assert(pages[pages.len() - 1] == pages.last());
        assert forall|i: int| 0 <= i < front.len() implies front[i] == #[trigger] pages[i] by {}
        if pages.last().0 != key {
            last_page_count_counts(front, key);
            if let Some(n) = pages_of(front, key) {
                let i = choose|i: int|
                    0 <= i < front.len() && #[trigger] front[i] == (key, n) && forall|j: int|
                        i < j < front.len() ==> (#[trigger] front[j]).0 != key;
                assert(pages[i] == (key, n));
                assert forall|j: int| i < j < pages.len() implies (#[trigger] pages[j]).0
                    != key by {
                    if j < front.len() {
                        assert(front[j].0 != key);
                    }
                }
            } else {
                assert forall|j: int| 0 <= j < pages.len() implies (#[trigger] pages[j]).0
                    != key by {
                    if j < front.len() {
                        assert(front[j].0 != key);
                    }
                }
            }
        }
    }
}

/// What a counter moved on by, added to what it was, is what it is; a counter
/// that was set back counts for nothing.
pub proof fn counter_moves_by_the_difference(before: u64, now: u64)
    ensures
        now >= before ==> before + page_delta(before, now) == now,
        now < before ==> page_delta(before, now) == 0,
{
}

} // verus!
