//! Membership of a group.

use crate::paxos::{PxGroupId, PxNodeId};
use vstd::prelude::*;

verus! {

/// Membership of one consensus group.
#[derive(Debug)]
pub struct PxGroupConfig {
    pub group_id: PxGroupId,
    pub members: Vec<PxGroupMember>,
    pub quorum_size: usize,
    pub config_version: u64,
}

/// One member of a group.
#[derive(Debug)]
pub struct PxGroupMember {
    pub node_id: PxNodeId,
    pub endpoint: String,
    pub voting: bool,
}

} // verus!
