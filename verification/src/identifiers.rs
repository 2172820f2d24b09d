//! Identifiers of nodes, partitions and logs.

use vstd::prelude::*;

verus! {

/// The stable identity of a node, the same across its incarnations.
#[derive(Clone, Copy, Debug, PartialEq, Eq, Structural, PartialOrd, Ord, Hash)]
pub struct PlainNodeId(pub u32);

impl PlainNodeId {
    pub fn new(id: u32) -> (r: PlainNodeId)
        ensures
            r.0 == id,
    {
        PlainNodeId(id)
    }
}

/// One incarnation of a node: its stable identity and a generation that grows
/// with each restart.
#[derive(Clone, Copy, Debug, PartialEq, Eq, Structural, PartialOrd, Ord, Hash)]
pub struct GenerationalNodeId {
    pub id: u32,
    pub generation: u32,
}

impl GenerationalNodeId {
    pub fn new(id: u32, generation: u32) -> (r: GenerationalNodeId)
        ensures
            r.id == id,
            r.generation == generation,
    {
        GenerationalNodeId { id, generation }
    }

    /// The stable identity of this incarnation.
    pub fn as_plain(&self) -> (r: PlainNodeId)
        ensures
            r.0 == self.id,
    {
        PlainNodeId(self.id)
    }

    /// The order of incarnations: by identity first, then by generation.
    pub open spec fn spec_le(self, other: GenerationalNodeId) -> bool {
        self.id < other.id || (self.id == other.id && self.generation <= other.generation)
    }
}

/// The identity of a partition.
#[derive(Clone, Copy, Debug, PartialEq, Eq, Structural, PartialOrd, Ord, Hash)]
pub struct PartitionId(pub u16);

impl PartitionId {
    pub fn new(id: u16) -> (r: PartitionId)
        ensures
            r.0 == id,
    {
        PartitionId(id)
    }
}

/// The identity of a log.
#[derive(Clone, Copy, Debug, PartialEq, Eq, Structural, PartialOrd, Ord, Hash)]
pub struct LogId(pub u32);

impl LogId {
    pub fn new(id: u32) -> (r: LogId)
        ensures
            r.0 == id,
    {
        LogId(id)
    }

    /// The log that carries the events of `partition`.
    pub open spec fn spec_of_partition(partition: PartitionId) -> LogId {
        LogId(partition.0 as u32)
    }

    /// The log that carries the events of `partition`. Every partition has
    /// its own log.
    pub fn of_partition(partition: PartitionId) -> (r: LogId)
        ensures
            r == Self::spec_of_partition(partition),
    {
        LogId(partition.0 as u32)
    }

    /// Distinct partitions have distinct logs.
    pub proof fn lemma_of_partition_injective(a: PartitionId, b: PartitionId)
        requires
            Self::spec_of_partition(a) == Self::spec_of_partition(b),
        ensures
            a == b,
    {
    }
}

/// The version of a piece of metadata.
#[derive(Clone, Copy, Debug, PartialEq, Eq, Structural, PartialOrd, Ord, Hash)]
pub struct Version(pub u32);

impl Version {
    /// The version before anything was written.
    pub fn invalid() -> (r: Version)
        ensures
            r.0 == 0,
    {
        Version(0)
    }

    /// The first version of written metadata.
    pub fn min() -> (r: Version)
        ensures
            r.0 == 1,
    {
        Version(1)
    }
}

/// A point in time, in milliseconds since the Unix epoch.
#[derive(Clone, Copy, Debug, PartialEq, Eq, Structural, PartialOrd, Ord, Hash)]
pub struct MillisSinceEpoch(pub u64);

impl MillisSinceEpoch {
    pub fn new(millis: u64) -> (r: MillisSinceEpoch)
        ensures
            r.0 == millis,
    {
        MillisSinceEpoch(millis)
    }
}

} // verus!
