//! The stores of a server and what new groups are created with.

use crate::cluster::px_kv_store::PxKvStore;
use crate::common::config::PxElectionConfig;
use crate::common::path::{join_path, joined};
use crate::common::text::same_text;
use crate::server::store_table::{
    table_contains, table_ids, table_insert, table_new, table_remove, table_stores,
};
use dashmap::DashMap;
use vstd::prelude::*;
use vstd::string::*;

verus! {

/// Engine that new groups are created with.
#[derive(Clone, Copy, Debug, PartialEq, Eq, Structural)]
pub enum KvEngineKind {
    /// In memory, not durable.
    Memory,
    /// A durable tree in files.
    Crowtree,
}

/// Where the log is written.
#[derive(Clone, Copy, Debug, PartialEq, Eq, Structural)]
pub enum IoBackend {
    File,
    MemBlock,
    BlockDevice,
}

/// Where the tree engine is written.
#[derive(Clone, Copy, Debug, PartialEq, Eq, Structural)]
pub enum CrowtreeBackend {
    File,
    Block,
    MemBlock,
}

impl KvEngineKind {
    /// The engine that an option names: `crowtree`, else the one in memory.
    pub fn parse(s: &str) -> (k: Self)
        ensures
            k == if s@ == "crowtree"@ {
                KvEngineKind::Crowtree
            } else {
                KvEngineKind::Memory
            },
    {
        if same_text(s, "crowtree") {
            KvEngineKind::Crowtree
        } else {
            KvEngineKind::Memory
        }
    }
}

/// The log backend that an option names; the file backend where it names none.
pub fn parse_wal_backend(s: &str) -> (b: IoBackend)
    ensures
        b == if s@ == "mem-block"@ {
            IoBackend::MemBlock
        } else if s@ == "block-device"@ {
            IoBackend::BlockDevice
        } else {
            IoBackend::File
        },
{
    if same_text(s, "mem-block") {
        IoBackend::MemBlock
    } else if same_text(s, "block-device") {
        IoBackend::BlockDevice
    } else {
        IoBackend::File
    }
}

/// The tree backend that an option names; the file backend where it names none.
pub fn parse_crowtree_backend(s: &str) -> (b: CrowtreeBackend)
    ensures
        b == if s@ == "block"@ {
            CrowtreeBackend::Block
        } else if s@ == "mem-block"@ {
            CrowtreeBackend::MemBlock
        } else {
            CrowtreeBackend::File
        },
{
    if same_text(s, "block") {
        CrowtreeBackend::Block
    } else if same_text(s, "mem-block") {
        CrowtreeBackend::MemBlock
    } else {
        CrowtreeBackend::File
    }
}

/// The stores of a server.
pub struct KvStoreRegistry {
    pub stores: DashMap<u64, PxKvStore>,
    pub election_cfg: PxElectionConfig,
    pub wal_root: String,
    pub config_root: String,
    pub wal_backend: IoBackend,
    pub kv_engine: KvEngineKind,
    /// Root of the tree engine's files.
    pub data_root: String,
    pub crowtree_backend: CrowtreeBackend,
    /// Ports that stores may still listen on, in the order in which they are
    /// given out.
    pub port_pool: Vec<u16>,
    /// Leave out the durable flush of log writes.
    pub wal_skip_fsync: bool,
}

impl KvStoreRegistry {
    /// The stores, by id.
    pub open spec fn view_stores(&self) -> Map<u64, PxKvStore> {
        table_stores(self.stores)
    }

    /// Every store is well-formed and stands under its own id.
    pub open spec fn wf(&self) -> bool {
        forall|id: u64| #[trigger]
            self.view_stores().contains_key(id) ==> self.view_stores()[id].wf()
                && self.view_stores()[id].store_id == id
    }

    /// A registry without stores, with everything else at its default.
    pub open spec fn is_fresh(&self, election_cfg: PxElectionConfig) -> bool {
        &&& self.view_stores() == Map::<u64, PxKvStore>::empty()
        &&& self.election_cfg == election_cfg
        &&& self.wal_root@ == "wal"@
        &&& self.config_root@ == "conf"@
        &&& self.wal_backend is File
        &&& self.kv_engine is Crowtree
        &&& self.data_root@ == "ctdata"@
        &&& self.crowtree_backend is File
        &&& self.port_pool@ == Seq::<u16>::empty()
        &&& !self.wal_skip_fsync
    }

    /// A registry without stores. The tree engine's files stand beside the
    /// log, whose parent directory is `wal_parent`.
    pub fn with_runtime(
        election_cfg: PxElectionConfig,
        wal_root: String,
        wal_parent: Option<&str>,
        config_root: String,
        wal_backend: IoBackend,
    ) -> (r: Self)
        ensures
            r.wf(),
            r.view_stores() == Map::<u64, PxKvStore>::empty(),
            r.election_cfg == election_cfg,
            r.wal_root == wal_root,
            r.config_root == config_root,
            r.wal_backend == wal_backend,
            r.kv_engine is Crowtree,
            r.data_root@ == match wal_parent {
                Some(p) => joined(p@, "ctdata"@),
                None => "ctdata"@,
            },
            r.crowtree_backend is File,
            r.port_pool@ == Seq::<u16>::empty(),
            !r.wal_skip_fsync,
    {
        let data_root: String = match wal_parent {
            Some(p) => join_path(p, "ctdata"),
            None => "ctdata".to_owned(),
        };
        let stores = table_new();
        proof {
            assert(table_stores(stores) =~= Map::<u64, PxKvStore>::empty());
        }
        KvStoreRegistry {
            stores,
            election_cfg,
            wal_root,
            config_root,
            wal_backend,
            kv_engine: KvEngineKind::Crowtree,
            data_root,
            crowtree_backend: CrowtreeBackend::File,
            port_pool: Vec::new(),
            wal_skip_fsync: false,
        }
    }

    /// A registry without stores, with the log under `wal` and configuration
    /// files under `conf`.
    pub fn with_election_config(election_cfg: PxElectionConfig) -> (r: Self)
        ensures
            r.wf(),
            r.is_fresh(election_cfg),
    {
        Self::with_runtime(
            election_cfg,
            "wal".to_owned(),
            None,
            "conf".to_owned(),
            IoBackend::File,
        )
    }

    /// A registry without stores, with default elections.
    pub fn new() -> (r: Self)
        ensures
            r.wf(),
            r.is_fresh(PxElectionConfig::default_spec()),
    {
        Self::with_election_config(PxElectionConfig::default())
    }

    /// This registry with another engine for new groups.
    pub fn with_kv_engine(self, kv_engine: KvEngineKind, data_root: String) -> (r: Self)
        ensures
            r == (KvStoreRegistry { kv_engine, data_root, ..self }),
    {
        let mut r = self;
        r.kv_engine = kv_engine;
        r.data_root = data_root;
        r
    }

    /// This registry with another backend of the tree engine.
    pub fn with_crowtree_backend(self, crowtree_backend: CrowtreeBackend) -> (r: Self)
        ensures
            r == (KvStoreRegistry { crowtree_backend, ..self }),
    {
        let mut r = self;
        r.crowtree_backend = crowtree_backend;
        r
    }

    /// This registry with durable flushes left out, or not.
    pub fn with_wal_skip_fsync(self, skip_fsync: bool) -> (r: Self)
        ensures
            r == (KvStoreRegistry { wal_skip_fsync: skip_fsync, ..self }),
    {
        let mut r = self;
        r.wal_skip_fsync = skip_fsync;
        r
    }

    /// Set the ports that stores may listen on.
    pub fn set_port_pool(&mut self, ports: Vec<u16>)
        ensures
            *final(self) == (KvStoreRegistry { port_pool: ports, ..*old(self) }),
    {
        self.port_pool = ports;
    }

    /// Give out the next port, unless none is left.
    pub fn next_port(&mut self) -> (port: Option<u16>)
        ensures
            if old(self).port_pool@.len() == 0 {
                port is None && final(self).port_pool@ == old(self).port_pool@
            } else {
                port == Some(old(self).port_pool@[0]) && final(self).port_pool@ == old(
                    self,
                ).port_pool@.drop_first()
            },
            *final(self) == (KvStoreRegistry { port_pool: final(self).port_pool, ..*old(self) }),
    {
        if self.port_pool.is_empty() {
            None
        } else {
            let port: u16 = self.port_pool.remove(0);
            proof {
                assert(old(self).port_pool@.remove(0) =~= old(self).port_pool@.drop_first());
            }
            Some(port)
        }
    }

    /// Whether there is a store with this id.
    pub fn has_store(&self, store_id: u64) -> (r: bool)
        ensures
            r == self.view_stores().contains_key(store_id),
    {
        table_contains(&self.stores, store_id)
    }

    /// Ids of all stores, each once, in no particular order.
    pub fn store_ids(&self) -> (ids: Vec<u64>)
        ensures
            ids@.no_duplicates(),
            forall|id: u64| #[trigger] ids@.contains(id) == self.view_stores().contains_key(id),
    {
        table_ids(&self.stores)
    }

    /// Add a store, in place of one with the same id.
    pub fn add_store(&mut self, store: PxKvStore)
        requires
            old(self).wf(),
            store.wf(),
        ensures
            final(self).wf(),
            final(self).view_stores() == old(self).view_stores().insert(store.store_id, store),
            *final(self) == (KvStoreRegistry { stores: final(self).stores, ..*old(self) }),
    {
        let id: u64 = store.store_id;
        table_insert(&mut self.stores, id, store);
    }

    /// Check a store out of the registry. `add_store` puts it back.
    pub fn get_store(&mut self, store_id: u64) -> (r: Option<PxKvStore>)
        requires
            old(self).wf(),
        ensures
            final(self).wf(),
            final(self).view_stores() == old(self).view_stores().remove(store_id),
            r == if old(self).view_stores().contains_key(store_id) {
                Some(old(self).view_stores()[store_id])
            } else {
                None::<PxKvStore>
            },
            r matches Some(s) ==> s.wf() && s.store_id == store_id,
            *final(self) == (KvStoreRegistry { stores: final(self).stores, ..*old(self) }),
    {
        table_remove(&mut self.stores, store_id)
    }

    /// Remove a store for good.
    pub fn remove_store(&mut self, store_id: u64) -> (r: Option<PxKvStore>)
        requires
            old(self).wf(),
        ensures
            final(self).wf(),
            final(self).view_stores() == old(self).view_stores().remove(store_id),
            r == if old(self).view_stores().contains_key(store_id) {
                Some(old(self).view_stores()[store_id])
            } else {
                None::<PxKvStore>
            },
            r matches Some(s) ==> s.wf() && s.store_id == store_id,
            *final(self) == (KvStoreRegistry { stores: final(self).stores, ..*old(self) }),
    {
        self.get_store(store_id)
    }
}

impl Default for KvStoreRegistry {
    fn default() -> (r: Self)
        ensures
            r.wf(),
            r.is_fresh(PxElectionConfig::default_spec()),
    {
        Self::new()
    }
}

} // verus!
