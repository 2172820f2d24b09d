//! A snapshot of what the nodes of the cluster last reported.

use crate::identifiers::{GenerationalNodeId, MillisSinceEpoch, Version};
use crate::sequence::{Lsn, INVALID_RAW};
use std::collections::BTreeMap;
use vstd::prelude::*;

verus! {

/// The role of a partition processor.
#[derive(Clone, Copy, Debug, PartialEq, Eq, Structural)]
pub enum RunMode {
    Leader,
    Follower,
}

/// What one node reports of one partition. Each sequence number is absent
/// until the processor has something to report.
#[derive(Clone, Copy, Debug, PartialEq, Eq)]
pub struct PartitionProcessorStatus {
    pub planned_mode: RunMode,
    pub effective_mode: RunMode,
    pub last_applied_log_lsn: Option<Lsn>,
    pub last_persisted_log_lsn: Option<Lsn>,
    pub last_archived_log_lsn: Option<Lsn>,
}

/// The three sequence numbers that a partition processor reports.
pub enum ReportedLsn {
    Applied,
    Persisted,
    Archived,
}

/// The raw value of an optional sequence number; an absent one counts as
/// invalid.
pub open spec fn spec_lsn_or_invalid(lsn: Option<Lsn>) -> u64 {
    match lsn {
        Some(l) => l@,
        None => INVALID_RAW,
    }
}

/// The raw value of an optional sequence number; an absent one counts as
/// invalid.
pub fn lsn_or_invalid(lsn: Option<Lsn>) -> (r: u64)
    ensures
        r == spec_lsn_or_invalid(lsn),
{
    match lsn {
        Some(l) => l.as_u64(),
        None => INVALID_RAW,
    }
}

impl PartitionProcessorStatus {
    /// The reported sequence number of the given kind, as a raw value.
    pub open spec fn reported(self, kind: ReportedLsn) -> u64 {
        match kind {
            ReportedLsn::Applied => spec_lsn_or_invalid(self.last_applied_log_lsn),
            ReportedLsn::Persisted => spec_lsn_or_invalid(self.last_persisted_log_lsn),
            ReportedLsn::Archived => spec_lsn_or_invalid(self.last_archived_log_lsn),
        }
    }
}

/// A node that answered the last heartbeat, with the partitions it runs.
/// `partitions` is keyed by the partition's number.
#[derive(Clone, Debug, PartialEq, Eq)]
pub struct AliveNode {
    pub generational_node_id: GenerationalNodeId,
    pub last_heartbeat_at: MillisSinceEpoch,
    pub partitions: BTreeMap<u16, PartitionProcessorStatus>,
}

/// A node that missed a heartbeat but is not given up yet.
#[derive(Clone, Copy, Debug, PartialEq, Eq)]
pub struct SuspectNode {
    pub generational_node_id: GenerationalNodeId,
    pub last_attempt: MillisSinceEpoch,
}

/// A node that is considered gone.
#[derive(Clone, Copy, Debug, PartialEq, Eq)]
pub struct DeadNode {
    pub last_seen_alive: Option<MillisSinceEpoch>,
}

#[derive(Clone, Debug, PartialEq, Eq)]
pub enum NodeState {
    Alive(AliveNode),
    Suspect(SuspectNode),
    Dead(DeadNode),
}

/// One observation of the whole cluster. `nodes` is keyed by the node's
/// plain identity.
#[derive(Clone, Debug, PartialEq, Eq)]
pub struct ClusterState {
    pub last_refreshed: Option<MillisSinceEpoch>,
    pub nodes_config_version: Version,
    pub partition_table_version: Version,
    pub logs_metadata_version: Version,
    pub nodes: BTreeMap<u32, NodeState>,
}

impl ClusterState {
    /// `node` is alive and runs a processor for `partition`.
    pub open spec fn reports(&self, node: u32, partition: u16) -> bool {
        &&& self.nodes@.contains_key(node)
        &&& self.nodes@[node] is Alive
        &&& self.nodes@[node]->Alive_0.partitions@.contains_key(partition)
    }

    /// What `node` reports of `partition`; meaningful where
    /// `self.reports(node, partition)`.
    pub open spec fn status(&self, node: u32, partition: u16) -> PartitionProcessorStatus {
        self.nodes@[node]->Alive_0.partitions@[partition]
    }

    /// Every report in this observation, as pairs of node and partition.
    pub open spec fn all_reports(&self) -> Set<(u32, u16)> {
        Set::new(|r: (u32, u16)| self.reports(r.0, r.1))
    }

    /// Some node of this observation is dead or suspect.
    pub open spec fn has_dead_or_suspect(&self) -> bool {
        exists|node: u32| #[trigger] self.nodes@.contains_key(node) && !(self.nodes@[node] is Alive)
    }
}

} // verus!
