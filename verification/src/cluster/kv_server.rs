//! Life of a store's server: start, stop, join and shutdown.
//!
//! The program around the library binds the listener and runs the server's
//! task. The store decides when to do so, and takes in what came of it.

use crate::cluster::group::PxGroup;
use crate::cluster::px_kv_store::{at_endpoint, PxKvStore};
use crate::common::text::concat3;
use vstd::prelude::*;

verus! {

/// What came of binding the listener.
#[derive(Debug)]
pub enum BindOutcome {
    /// The listener is bound to this address.
    Bound(String),
    /// Binding failed with this error.
    Refused(String),
    /// Binding succeeded, but the bound address could not be read.
    AddressUnknown(String),
}

/// How the wait for the server's task ended.
#[derive(Debug)]
pub enum JoinOutcome {
    Joined,
    /// The task had been cancelled before.
    Cancelled,
    /// The task ended abnormally, with this error.
    Failed(String),
    /// The task did not end within the time given here, and was aborted.
    TimedOut(String),
}

/// What is left to do for a shutdown of the server.
#[derive(Clone, Copy, Debug, PartialEq, Eq, Structural)]
pub struct ServerShutdown {
    /// Tell the task to stop.
    pub send_stop: bool,
    /// Wait for the task.
    pub wait: bool,
}

/// `after` are the groups `before`, and every local replica among those in
/// `ids` knows its address.
pub open spec fn endpoints_set(
    before: Map<u64, PxGroup>,
    after: Map<u64, PxGroup>,
    ids: Set<u64>,
    addr: String,
) -> bool {
    &&& after.dom() == before.dom()
    &&& forall|id: u64| #[trigger]
        after.contains_key(id) ==> after[id] == if ids.contains(id) {
            at_endpoint(before[id], addr)
        } else {
            before[id]
        }
}

impl PxKvStore {
    /// Whether a start has anything to do: it has not while the server's task
    /// runs.
    pub fn start_needed(&self) -> (r: bool)
        ensures
            r == !self.server_running,
    {
        !self.server_running
    }

    /// Take in what came of binding the listener. With an address the server
    /// runs, and the local replica of every group learns its address; otherwise
    /// nothing changes.
    pub fn start(&mut self, outcome: BindOutcome) -> (r: Result<(), String>)
        requires
            old(self).wf(),
        ensures
            final(self).wf(),
            match outcome {
                BindOutcome::Bound(addr) => {
                    &&& r is Ok
                    &&& *final(self) == (PxKvStore {
                        groups: final(self).groups,
                        bound_addr: Some(addr),
                        server_running: true,
                        stop_pending: true,
                        ..*old(self)
                    })
                    &&& endpoints_set(
                        old(self).view_groups(),
                        final(self).view_groups(),
                        old(self).view_groups().dom(),
                        addr,
                    )
                },
                BindOutcome::Refused(error) => {
                    &&& *final(self) == *old(self)
                    &&& r matches Err(msg) && msg@ == "failed to bind kv server on "@ + old(
                        self,
                    ).listen_addr@ + ": "@ + error@
                        + "; next step: choose an available listen_addr or stop the conflicting process"@
                },
                BindOutcome::AddressUnknown(error) => {
                    &&& *final(self) == *old(self)
                    &&& r matches Err(msg) && msg@ == "failed to read bound kv server address: "@
                        + error@ + "; next step: restart kv server and inspect socket state"@
                },
            },
    {
        let addr = match outcome {
            BindOutcome::Bound(addr) => addr,
            BindOutcome::Refused(error) => {
                let front: String = concat3(
                    "failed to bind kv server on ",
                    self.listen_addr.as_str(),
                    ": ",
                );
                return Err(
                    concat3(
                        front.as_str(),
                        error.as_str(),
                        "; next step: choose an available listen_addr or stop the conflicting process",
                    ),
                );
            },
            BindOutcome::AddressUnknown(error) => {
                return Err(
                    concat3(
                        "failed to read bound kv server address: ",
                        error.as_str(),
                        "; next step: restart kv server and inspect socket state",
                    ),
                );
            },
        };
        let ids = self.group_ids();
        let ghost start = self.view_groups();
        let mut i: usize = 0;
        while i < ids.len()
            invariant
                i <= ids.len(),
                ids@.no_duplicates(),
                forall|id: u64| #[trigger] ids@.contains(id) == start.contains_key(id),
                start == old(self).view_groups(),
                self.wf(),
                *self == (PxKvStore { groups: self.groups, ..*old(self) }),
                endpoints_set(start, self.view_groups(), ids@.take(i as int).to_set(), addr),
            decreases ids.len() - i,
        {
            let id: u64 = ids[i];
            let ghost before = self.view_groups();
            let ghost done = ids@.take(i as int).to_set();
            proof {
                assert(ids@.contains(id));
                assert(!ids@.take(i as int).contains(id)) by {
                    if ids@.take(i as int).contains(id) {
                        let k = ids@.take(i as int).index_of(id);
                        assert(ids@[k] == ids@[i as int]);
                    }
                }
                assert(before.contains_key(id));
            }
            if let Some(mut group) = self.get_group(id) {
                group.local_replica.set_endpoint(addr.clone());
                self.put_group(group);
            }
            proof {
                let after = self.view_groups();
                let next = ids@.take(i + 1).to_set();
                assert(after.dom() =~= start.dom());
                assert forall|g: u64| #[trigger] after.contains_key(g) implies after[g] == if next.contains(g) {
                    at_endpoint(start[g], addr)
                } else {
                    start[g]
                } by {
                    assert(before.contains_key(g));
                    if g == id {
                        assert(ids@.take(i + 1)[i as int] == id);
                        assert(next.contains(id));
                    } else {
                        assert(next.contains(g) == done.contains(g)) by {
                            if done.contains(g) {
                                let k = ids@.take(i as int).index_of(g);
                                assert(ids@.take(i + 1)[k] == g);
                            }
                            if next.contains(g) {
                                let k = ids@.take(i + 1).index_of(g);
                                assert(ids@.take(i as int)[k] == g);
                            }
                        }
                    }
                }
            }
            i = i + 1;
        }
        proof {
            assert(ids@.take(i as int) =~= ids@);
            assert(ids@.to_set() =~= start.dom()) by {
                assert forall|id: u64| ids@.to_set().contains(id) == start.dom().contains(id) by {
                    assert(ids@.contains(id) == start.contains_key(id));
                }
            }
        }
        self.bound_addr = Some(addr);
        self.server_running = true;
        self.stop_pending = true;
        Ok(())
    }

    /// Give up the server's task to wait for. Returns whether there was one.
    pub fn join(&mut self) -> (wait: bool)
        ensures
            wait == old(self).server_running,
            *final(self) == (PxKvStore { server_running: false, ..*old(self) }),
    {
        let wait = self.server_running;
        self.server_running = false;
        wait
    }

    /// Ask the server's task to stop. Returns whether it can still be told.
    pub fn stop(&mut self) -> (send: bool)
        ensures
            send == old(self).stop_pending,
            *final(self) == (PxKvStore { stop_pending: false, ..*old(self) }),
    {
        let send = self.stop_pending;
        self.stop_pending = false;
        send
    }

    /// Address that the server was last bound to.
    pub fn listen_addr(&self) -> (r: Option<&str>)
        ensures
            match (r, self.bound_addr) {
                (Some(a), Some(b)) => a@ == b@,
                (None, None) => true,
                _ => false,
            },
    {
        match &self.bound_addr {
            Some(a) => Some(a.as_str()),
            None => None,
        }
    }

    /// Begin to shut the server down. A second time there is nothing to do.
    pub fn shutdown_server(&mut self) -> (todo: ServerShutdown)
        ensures
            todo.send_stop == old(self).stop_pending,
            todo.wait == old(self).server_running,
            *final(self) == (PxKvStore {
                server_running: false,
                stop_pending: false,
                ..*old(self)
            }),
    {
        let wait = self.join();
        let send_stop = self.stop();
        ServerShutdown { send_stop, wait }
    }
}

/// What a shutdown of the server comes to, by how the wait for its task ended.
pub fn server_shut_down(outcome: JoinOutcome) -> (r: Result<(), String>)
    ensures
        match outcome {
            JoinOutcome::Joined | JoinOutcome::Cancelled => r is Ok,
            JoinOutcome::Failed(error) => r matches Err(msg) && msg@
                == "critical: kv server task ended abnormally: "@ + error@
                + "; next step: inspect server logs for panic"@,
            JoinOutcome::TimedOut(timeout) => r matches Err(msg) && msg@
                == "critical: kv server shutdown hung > "@ + timeout@
                + "; aborted task; next step: investigate stuck gRPC handlers"@,
        },
{
    match outcome {
        JoinOutcome::Joined => Ok(()),
        JoinOutcome::Cancelled => Ok(()),
        JoinOutcome::Failed(error) => Err(
            concat3(
                "critical: kv server task ended abnormally: ",
                error.as_str(),
                "; next step: inspect server logs for panic",
            ),
        ),
        JoinOutcome::TimedOut(timeout) => Err(
            concat3(
                "critical: kv server shutdown hung > ",
                timeout.as_str(),
                "; aborted task; next step: investigate stuck gRPC handlers",
            ),
        ),
    }
}

/// A server that was started has told its address to every group, and has
/// changed no group otherwise.
pub proof fn started_server_tells_its_address(
    before: Map<u64, PxGroup>,
    after: Map<u64, PxGroup>,
    addr: String,
    id: u64,
)
    requires
        endpoints_set(before, after, before.dom(), addr),
    ensures
        after.contains_key(id) <==> before.contains_key(id),
        before.contains_key(id) ==> {
            &&& after[id].local_replica.own_endpoint == Some(addr)
            &&& after[id].group_id == before[id].group_id
            &&& after[id].remote_replicas == before[id].remote_replicas
            &&& after[id].local_replica.learner == before[id].local_replica.learner
            &&& after[id].local_replica.acceptor == before[id].local_replica.acceptor
        },
{
    assert(after.dom().contains(id) == before.dom().contains(id));
}

} // verus!
