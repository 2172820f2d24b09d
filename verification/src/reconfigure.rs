//! Sealing the tail segment of a log and extending its chain: how the
//! request for it is made up.
//!
//! A chain may move to the replicated provider from any provider, and never
//! back. A new replicated segment takes what the request leaves out from a
//! replicated tail; after any other tail the request has to give it all.

use crate::identifiers::{GenerationalNodeId, LogId, PlainNodeId};
use std::collections::BTreeMap;
use vstd::prelude::*;

verus! {

/// Who serves the segments of a chain.
#[derive(Debug, Clone, Copy, PartialEq, Eq, Structural)]
pub enum ProviderKind {
    Local,
    Replicated,
    InMemory,
}

/// The identity of a loglet: its log and the index of its segment.
#[derive(Debug, Clone, Copy, PartialEq, Eq, Structural, PartialOrd, Ord, Hash)]
pub struct LogletId(pub u64);

impl LogletId {
    pub open spec fn spec_new(log_id: LogId, segment_index: u32) -> LogletId {
        LogletId((log_id.0 * 0x1_0000_0000 + segment_index) as u64)
    }

    /// The loglet of segment `segment_index` of the log `log_id`: the log in
    /// the upper half of the number, the segment in the lower.
    pub fn new(log_id: LogId, segment_index: u32) -> (r: LogletId)
        ensures
            r == Self::spec_new(log_id, segment_index),
    {
        LogletId(log_id.0 as u64 * 0x1_0000_0000 + segment_index as u64)
    }
}

/// How many copies of a record a replicated loglet keeps.
#[derive(Debug, Clone, Copy, PartialEq, Eq, Structural)]
pub struct ReplicationProperty(pub u8);

/// The nodes that store a replicated loglet. The order in which they are
/// held does not matter, nor how often one is held.
#[derive(Debug, PartialEq, Eq)]
pub struct NodeSet(pub Vec<PlainNodeId>);

impl View for NodeSet {
    type V = Set<PlainNodeId>;

    open spec fn view(&self) -> Set<PlainNodeId> {
        self.0@.to_set()
    }
}

impl NodeSet {
    /// The set of the given nodes.
    pub fn from_nodes(nodes: &Vec<PlainNodeId>) -> (r: NodeSet)
        ensures
            r@ == nodes@.to_set(),
    {
        let mut copy: Vec<PlainNodeId> = Vec::new();
        let mut i: usize = 0;
        while i < nodes.len()
            invariant
                i <= nodes.len(),
                copy@ == nodes@.take(i as int),
            decreases nodes.len() - i,
        {
            copy.push(nodes[i]);
            assert(copy@ =~= nodes@.take(i + 1));
            i += 1;
        }
        assert(nodes@.take(nodes.len() as int) =~= nodes@);
        NodeSet(copy)
    }
}

/// The settings of a replicated loglet.
#[derive(Debug, PartialEq, Eq)]
pub struct ReplicatedLogletParams {
    pub loglet_id: LogletId,
    pub sequencer: GenerationalNodeId,
    pub replication: ReplicationProperty,
    pub nodeset: NodeSet,
}

/// The settings of a replicated loglet, with its nodes as a set.
pub struct ReplicatedParamsModel {
    pub loglet_id: LogletId,
    pub sequencer: GenerationalNodeId,
    pub replication: ReplicationProperty,
    pub nodeset: Set<PlainNodeId>,
}

impl View for ReplicatedLogletParams {
    type V = ReplicatedParamsModel;

    open spec fn view(&self) -> ReplicatedParamsModel {
        ReplicatedParamsModel {
            loglet_id: self.loglet_id,
            sequencer: self.sequencer,
            replication: self.replication,
            nodeset: self.nodeset@,
        }
    }
}

/// How a segment is served. For a replicated segment its settings, or
/// `None` where what the chain holds for them cannot be read.
#[derive(Debug, PartialEq, Eq)]
pub enum SegmentConfig {
    Local,
    InMemory,
    Replicated(Option<ReplicatedLogletParams>),
}

impl SegmentConfig {
    pub open spec fn spec_kind(&self) -> ProviderKind {
        match self {
            SegmentConfig::Local => ProviderKind::Local,
            SegmentConfig::InMemory => ProviderKind::InMemory,
            SegmentConfig::Replicated(_) => ProviderKind::Replicated,
        }
    }

    /// The provider of the segment.
    pub fn kind(&self) -> (r: ProviderKind)
        ensures
            r == self.spec_kind(),
    {
        match self {
            SegmentConfig::Local => ProviderKind::Local,
            SegmentConfig::InMemory => ProviderKind::InMemory,
            SegmentConfig::Replicated(_) => ProviderKind::Replicated,
        }
    }
}

/// The end of a chain: the index of its last segment and how it is served.
#[derive(Debug, PartialEq, Eq)]
pub struct Chain {
    pub tail_index: u32,
    pub tail: SegmentConfig,
}

/// The chains of all logs, by the log's number.
pub struct Logs {
    pub chains: BTreeMap<u32, Chain>,
}

/// A version of the logs metadata that a request can ask for: any but 0,
/// which is the version before anything was written.
#[derive(Debug, Clone, Copy, PartialEq, Eq)]
pub struct MinVersion(u32);

impl View for MinVersion {
    type V = u32;

    closed spec fn view(&self) -> u32 {
        self.0
    }
}

impl MinVersion {
    #[verifier::type_invariant]
    spec fn inv(self) -> bool {
        self.0 >= 1
    }

    /// The version `version`, unless it is 0.
    pub fn new(version: u32) -> (r: Option<MinVersion>)
        ensures
            match r {
                Some(min_version) => version != 0 && min_version@ == version,
                None => version == 0,
            },
    {
        if version == 0 {
            None
        } else {
            Some(MinVersion(version))
        }
    }

    /// The version as a number, which is at least 1.
    pub fn get(&self) -> (r: u32)
        ensures
            r == self@,
            r >= 1,
    {
        proof {
            use_type_invariant(self);
        }
        self.0
    }
}

/// What is asked of a reconfiguration.
#[derive(Debug)]
pub struct ReconfigureOpts {
    /// The logs to seal and extend, as ranges with both ends included.
    pub log_id: Vec<(u32, u32)>,
    /// The provider of the new segment; that of the tail if left out.
    pub provider: Option<ProviderKind>,
    /// The segment to seal; the tail if left out.
    pub segment_index: Option<u32>,
    /// The least version of the logs metadata at which the request applies.
    pub min_version: MinVersion,
    pub replication: Option<ReplicationProperty>,
    /// The nodes of a new replicated segment; empty if left out.
    pub nodeset: Vec<PlainNodeId>,
    pub sequencer: Option<GenerationalNodeId>,
}

/// The settings of the new segment.
#[derive(Debug, PartialEq, Eq)]
pub enum ExtensionParams {
    Replicated(ReplicatedLogletParams),
    /// A segment of another provider is set up by its loglet's number alone.
    Plain(LogletId),
}

/// The settings of the new segment, with nodes as a set.
pub enum ExtensionParamsModel {
    Replicated(ReplicatedParamsModel),
    Plain(LogletId),
}

impl View for ExtensionParams {
    type V = ExtensionParamsModel;

    open spec fn view(&self) -> ExtensionParamsModel {
        match self {
            ExtensionParams::Replicated(params) => ExtensionParamsModel::Replicated(params@),
            ExtensionParams::Plain(id) => ExtensionParamsModel::Plain(*id),
        }
    }
}

/// The request to seal a segment and to extend the chain after it.
#[derive(Debug, PartialEq, Eq)]
pub struct SealAndExtendChainRequest {
    pub log_id: LogId,
    pub min_version: u32,
    pub provider: ProviderKind,
    /// The segment to seal.
    pub segment_index: u32,
    pub params: ExtensionParams,
}

/// The request to seal and extend, with nodes as a set.
pub struct RequestModel {
    pub log_id: LogId,
    pub min_version: u32,
    pub provider: ProviderKind,
    pub segment_index: u32,
    pub params: ExtensionParamsModel,
}

impl View for SealAndExtendChainRequest {
    type V = RequestModel;

    open spec fn view(&self) -> RequestModel {
        RequestModel {
            log_id: self.log_id,
            min_version: self.min_version,
            provider: self.provider,
            segment_index: self.segment_index,
            params: self.params@,
        }
    }
}

/// Why no request could be made up.
#[derive(Debug, Clone, Copy, PartialEq, Eq, Structural)]
pub enum ReconfigureError {
    UnknownLogId,
    /// The segment to seal is the last that a chain can hold.
    NoNextSegment,
    /// A chain never leaves the replicated provider.
    SwitchBackNotSupported(ProviderKind),
    /// Only a replicated segment has a sequencer and a set of nodes.
    SequencerOrNodesetNotAllowed,
    /// The settings of the replicated tail cannot be read.
    InvalidTailParams,
    MissingNodeset,
    MissingReplication,
    MissingSequencer,
}

/// The settings of a new replicated segment after `tail`. After a
/// replicated tail, what `opts` leaves out is taken from the tail; after any
/// other, `opts` has to hold the nodes, the replication and the sequencer,
/// and the first of these that is missing is reported.
pub open spec fn spec_replicated_loglet_params(
    opts: ReconfigureOpts,
    loglet_id: LogletId,
    tail: SegmentConfig,
) -> Result<ReplicatedParamsModel, ReconfigureError> {
    match tail {
        SegmentConfig::Replicated(None) => Err(ReconfigureError::InvalidTailParams),
        SegmentConfig::Replicated(Some(last)) => Ok(
            ReplicatedParamsModel {
                loglet_id,
                nodeset: if opts.nodeset@.len() == 0 {
                    last.nodeset@
                } else {
                    opts.nodeset@.to_set()
                },
                replication: match opts.replication {
                    Some(replication) => replication,
                    None => last.replication,
                },
                sequencer: match opts.sequencer {
                    Some(sequencer) => sequencer,
                    None => last.sequencer,
                },
            },
        ),
        _ => if opts.nodeset@.len() == 0 {
            Err(ReconfigureError::MissingNodeset)
        } else if opts.replication is None {
            Err(ReconfigureError::MissingReplication)
        } else if opts.sequencer is None {
            Err(ReconfigureError::MissingSequencer)
        } else {
            Ok(
                ReplicatedParamsModel {
                    loglet_id,
                    nodeset: opts.nodeset@.to_set(),
                    replication: opts.replication->0,
                    sequencer: opts.sequencer->0,
                },
            )
        },
    }
}

/// The request for the log `log_id`, or why there is none.
pub open spec fn spec_inner_reconfigure(opts: ReconfigureOpts, logs: Logs, log_id: LogId)
    -> Result<RequestModel, ReconfigureError> {
    if !logs.chains@.contains_key(log_id.0) {
        Err(ReconfigureError::UnknownLogId)
    } else {
        let chain = logs.chains@[log_id.0];
        let segment_index = match opts.segment_index {
            Some(index) => index,
            None => chain.tail_index,
        };
        let provider = match opts.provider {
            Some(provider) => provider,
            None => chain.tail.spec_kind(),
        };
        if segment_index == u32::MAX {
            Err(ReconfigureError::NoNextSegment)
        } else {
            let next = LogletId::spec_new(log_id, (segment_index + 1) as u32);
            let params: Result<ExtensionParamsModel, ReconfigureError> = if provider
                == ProviderKind::Replicated {
                match spec_replicated_loglet_params(opts, next, chain.tail) {
                    Ok(params) => Ok(ExtensionParamsModel::Replicated(params)),
                    Err(e) => Err(e),
                }
            } else if chain.tail.spec_kind() == ProviderKind::Replicated {
                Err(ReconfigureError::SwitchBackNotSupported(provider))
            } else if opts.sequencer is Some || opts.nodeset@.len() > 0 {
                Err(ReconfigureError::SequencerOrNodesetNotAllowed)
            } else {
                Ok(ExtensionParamsModel::Plain(next))
            };
            match params {
                Ok(params) => Ok(
                    RequestModel {
                        log_id,
                        min_version: opts.min_version@,
                        provider,
                        segment_index,
                        params,
                    },
                ),
                Err(e) => Err(e),
            }
        }
    }
}

/// The result holds the value that `model` holds, or the same error.
pub open spec fn same_outcome<T: View>(r: Result<T, ReconfigureError>, model: Result<
    T::V,
    ReconfigureError,
>) -> bool {
    match r {
        Ok(value) => model == Ok::<T::V, ReconfigureError>(value@),
        Err(e) => model == Err::<T::V, ReconfigureError>(e),
    }
}

/// Makes up the settings of a new replicated segment after `tail`.
pub fn replicated_loglet_params(opts: &ReconfigureOpts, loglet_id: LogletId, tail: &SegmentConfig)
    -> (r: Result<ReplicatedLogletParams, ReconfigureError>)
    ensures
        same_outcome(r, spec_replicated_loglet_params(*opts, loglet_id, *tail)),
{
    match tail {
        SegmentConfig::Replicated(None) => Err(ReconfigureError::InvalidTailParams),
        SegmentConfig::Replicated(Some(last)) => {
            let nodeset = if opts.nodeset.len() == 0 {
                NodeSet::from_nodes(&last.nodeset.0)
            } else {
                NodeSet::from_nodes(&opts.nodeset)
            };
            let replication = match opts.replication {
                Some(replication) => replication,
                None => last.replication,
            };
            let sequencer = match opts.sequencer {
                Some(sequencer) => sequencer,
                None => last.sequencer,
            };
            Ok(ReplicatedLogletParams { loglet_id, nodeset, replication, sequencer })
        },
        _ => {
            if opts.nodeset.len() == 0 {
                return Err(ReconfigureError::MissingNodeset);
            }
            let nodeset = NodeSet::from_nodes(&opts.nodeset);
            let replication = match opts.replication {
                Some(replication) => replication,
                None => {
                    return Err(ReconfigureError::MissingReplication);
                },
            };
            let sequencer = match opts.sequencer {
                Some(sequencer) => sequencer,
                None => {
                    return Err(ReconfigureError::MissingSequencer);
                },
            };
            Ok(ReplicatedLogletParams { loglet_id, nodeset, replication, sequencer })
        },
    }
}

/// Makes up the request to seal a segment of the log `log_id` and to extend
/// its chain.
pub fn inner_reconfigure(opts: &ReconfigureOpts, logs: &Logs, log_id: LogId) -> (r: Result<
    SealAndExtendChainRequest,
    ReconfigureError,
>)
    ensures
        same_outcome(r, spec_inner_reconfigure(*opts, *logs, log_id)),
        r matches Ok(request) ==> request.min_version >= 1,
{
    let chain = match logs.chains.get(&log_id.0) {
        Some(chain) => chain,
        None => {
            return Err(ReconfigureError::UnknownLogId);
        },
    };
    let segment_index = match opts.segment_index {
        Some(index) => index,
        None => chain.tail_index,
    };
    let provider = match opts.provider {
        Some(provider) => provider,
        None => chain.tail.kind(),
    };
    if segment_index == u32::MAX {
        return Err(ReconfigureError::NoNextSegment);
    }
    let next = LogletId::new(log_id, segment_index + 1);
    let params = match (provider, chain.tail.kind()) {
        (ProviderKind::Replicated, _) => {
            match replicated_loglet_params(opts, next, &chain.tail) {
                Ok(params) => ExtensionParams::Replicated(params),
                Err(e) => {
                    return Err(e);
                },
            }
        },
        (_, ProviderKind::Replicated) => {
            return Err(ReconfigureError::SwitchBackNotSupported(provider));
        },
        _ => {
            if opts.sequencer.is_some() || opts.nodeset.len() > 0 {
                return Err(ReconfigureError::SequencerOrNodesetNotAllowed);
            }
            ExtensionParams::Plain(next)
        },
    };
    Ok(
        SealAndExtendChainRequest {
            log_id,
            min_version: opts.min_version.get(),
            provider,
            segment_index,
            params,
        },
    )
}

/// A chain never leaves the replicated provider: after a replicated tail,
/// every request that can be made up asks for a replicated segment.
pub proof fn lemma_never_leaves_replicated(opts: ReconfigureOpts, logs: Logs, log_id: LogId)
    requires
        logs.chains@.contains_key(log_id.0),
        logs.chains@[log_id.0].tail.spec_kind() == ProviderKind::Replicated,
        spec_inner_reconfigure(opts, logs, log_id) is Ok,
    ensures
        spec_inner_reconfigure(opts, logs, log_id)->Ok_0.provider == ProviderKind::Replicated,
        spec_inner_reconfigure(opts, logs, log_id)->Ok_0.params is Replicated,
{
}

/// A request always seals the segment that was asked for, or the tail, and
/// names the loglet of the segment after it.
pub proof fn lemma_request_names_next_segment(opts: ReconfigureOpts, logs: Logs, log_id: LogId)
    requires
        spec_inner_reconfigure(opts, logs, log_id) is Ok,
    ensures
        ({
            let request = spec_inner_reconfigure(opts, logs, log_id)->Ok_0;
            let next = LogletId::spec_new(log_id, (request.segment_index + 1) as u32);
            &&& request.segment_index < u32::MAX
            &&& request.segment_index == match opts.segment_index {
                Some(index) => index,
                None => logs.chains@[log_id.0].tail_index,
            }
            &&& match request.params {
                ExtensionParamsModel::Replicated(params) => params.loglet_id == next,
                ExtensionParamsModel::Plain(id) => id == next,
            }
        }),
{
}

} // verus!
