use std::collections::BTreeMap;

use cluster_controller::identifiers::{GenerationalNodeId, LogId, PlainNodeId};
use cluster_controller::reconfigure::{
    inner_reconfigure, replicated_loglet_params, Chain, ExtensionParams, LogletId, Logs,
    MinVersion, NodeSet, ProviderKind, ReconfigureError, ReconfigureOpts, ReplicatedLogletParams, ReplicationProperty,
    SealAndExtendChainRequest, SegmentConfig,
};

fn opts() -> ReconfigureOpts {
    ReconfigureOpts {
        log_id: vec![(0, 0)],
        provider: None,
        segment_index: None,
        min_version: MinVersion::new(1).unwrap(),
        replication: None,
        nodeset: vec![],
        sequencer: None,
    }
}

fn nodes(ids: &[u32]) -> Vec<PlainNodeId> {
    ids.iter().map(|id| PlainNodeId::new(*id)).collect()
}

fn tail_params() -> ReplicatedLogletParams {
    ReplicatedLogletParams {
        loglet_id: LogletId::new(LogId::new(7), 4),
        sequencer: GenerationalNodeId::new(1, 1),
        replication: ReplicationProperty(2),
        nodeset: NodeSet(nodes(&[1, 2, 3])),
    }
}

fn logs(tail_index: u32, tail: SegmentConfig) -> Logs {
    let mut chains = BTreeMap::new();
    chains.insert(7, Chain { tail_index, tail });
    Logs { chains }
}

#[test]
fn loglet_id_holds_log_and_segment() {
    assert_eq!(LogletId::new(LogId::new(0), 0), LogletId(0));
    assert_eq!(LogletId::new(LogId::new(0), 5), LogletId(5));
    assert_eq!(LogletId::new(LogId::new(1), 0), LogletId(1 << 32));
    assert_eq!(LogletId::new(LogId::new(7), 5), LogletId((7 << 32) | 5));
    assert_eq!(
        LogletId::new(LogId::new(u32::MAX), u32::MAX),
        LogletId(u64::MAX)
    );
}

#[test]
fn min_version_is_never_zero() {
    assert_eq!(MinVersion::new(0), None);
    assert_eq!(MinVersion::new(1).map(|v| v.get()), Some(1));
    assert_eq!(MinVersion::new(u32::MAX).map(|v| v.get()), Some(u32::MAX));
}

#[test]
fn unknown_log_is_refused() {
    let logs = logs(4, SegmentConfig::Local);
    assert_eq!(
        inner_reconfigure(&opts(), &logs, LogId::new(8)),
        Err(ReconfigureError::UnknownLogId)
    );
}

#[test]
fn local_tail_is_extended_by_a_local_segment() {
    let logs = logs(4, SegmentConfig::Local);
    assert_eq!(
        inner_reconfigure(&opts(), &logs, LogId::new(7)),
        Ok(SealAndExtendChainRequest {
            log_id: LogId::new(7),
            min_version: 1,
            provider: ProviderKind::Local,
            segment_index: 4,
            params: ExtensionParams::Plain(LogletId((7 << 32) | 5)),
        })
    );
}

#[test]
fn local_and_in_memory_may_follow_each_other() {
    let request = ReconfigureOpts {
        provider: Some(ProviderKind::InMemory),
        min_version: MinVersion::new(9).unwrap(),
        ..opts()
    };
    let result = inner_reconfigure(&request, &logs(0, SegmentConfig::Local), LogId::new(7)).unwrap();
    assert_eq!(result.provider, ProviderKind::InMemory);
    assert_eq!(result.min_version, 9);
    assert_eq!(result.params, ExtensionParams::Plain(LogletId((7 << 32) | 1)));

    let request = ReconfigureOpts {
        provider: Some(ProviderKind::Local),
        ..opts()
    };
    let result =
        inner_reconfigure(&request, &logs(0, SegmentConfig::InMemory), LogId::new(7)).unwrap();
    assert_eq!(result.provider, ProviderKind::Local);
}

#[test]
fn the_given_segment_is_sealed_in_place_of_the_tail() {
    let request = ReconfigureOpts {
        segment_index: Some(2),
        ..opts()
    };
    let result = inner_reconfigure(&request, &logs(4, SegmentConfig::Local), LogId::new(7)).unwrap();
    assert_eq!(result.segment_index, 2);
    assert_eq!(result.params, ExtensionParams::Plain(LogletId((7 << 32) | 3)));
}

#[test]
fn the_last_segment_has_no_next() {
    let request = ReconfigureOpts {
        segment_index: Some(u32::MAX),
        ..opts()
    };
    assert_eq!(
        inner_reconfigure(&request, &logs(4, SegmentConfig::Local), LogId::new(7)),
        Err(ReconfigureError::NoNextSegment)
    );
    assert_eq!(
        inner_reconfigure(&opts(), &logs(u32::MAX, SegmentConfig::Local), LogId::new(7)),
        Err(ReconfigureError::NoNextSegment)
    );
}

#[test]
fn a_chain_never_leaves_the_replicated_provider() {
    let tail = || SegmentConfig::Replicated(Some(tail_params()));
    for provider in [ProviderKind::Local, ProviderKind::InMemory] {
        let request = ReconfigureOpts {
            provider: Some(provider),
            ..opts()
        };
        assert_eq!(
            inner_reconfigure(&request, &logs(4, tail()), LogId::new(7)),
            Err(ReconfigureError::SwitchBackNotSupported(provider))
        );
    }
}

#[test]
fn sequencer_and_nodeset_need_the_replicated_provider() {
    let with_sequencer = ReconfigureOpts {
        sequencer: Some(GenerationalNodeId::new(1, 1)),
        ..opts()
    };
    let with_nodeset = ReconfigureOpts {
        nodeset: nodes(&[1]),
        ..opts()
    };
    for request in [with_sequencer, with_nodeset] {
        assert_eq!(
            inner_reconfigure(&request, &logs(4, SegmentConfig::Local), LogId::new(7)),
            Err(ReconfigureError::SequencerOrNodesetNotAllowed)
        );
    }
    // A replication alone is let through.
    let with_replication = ReconfigureOpts {
        replication: Some(ReplicationProperty(2)),
        ..opts()
    };
    assert!(
        inner_reconfigure(&with_replication, &logs(4, SegmentConfig::Local), LogId::new(7)).is_ok()
    );
}

#[test]
fn replicated_tail_hands_its_settings_on() {
    let logs = logs(4, SegmentConfig::Replicated(Some(tail_params())));
    let result = inner_reconfigure(&opts(), &logs, LogId::new(7)).unwrap();
    assert_eq!(result.provider, ProviderKind::Replicated);
    assert_eq!(result.segment_index, 4);
    assert_eq!(
        result.params,
        ExtensionParams::Replicated(ReplicatedLogletParams {
            loglet_id: LogletId((7 << 32) | 5),
            ..tail_params()
        })
    );
}

#[test]
fn the_request_overrides_the_replicated_tail() {
    let request = ReconfigureOpts {
        replication: Some(ReplicationProperty(3)),
        nodeset: nodes(&[4, 5, 6, 7]),
        sequencer: Some(GenerationalNodeId::new(4, 2)),
        ..opts()
    };
    let next = LogletId::new(LogId::new(7), 5);
    let tail = SegmentConfig::Replicated(Some(tail_params()));
    assert_eq!(
        replicated_loglet_params(&request, next, &tail),
        Ok(ReplicatedLogletParams {
            loglet_id: next,
            sequencer: GenerationalNodeId::new(4, 2),
            replication: ReplicationProperty(3),
            nodeset: NodeSet(nodes(&[4, 5, 6, 7])),
        })
    );

    let only_sequencer = ReconfigureOpts {
        sequencer: Some(GenerationalNodeId::new(2, 9)),
        ..opts()
    };
    assert_eq!(
        replicated_loglet_params(&only_sequencer, next, &tail),
        Ok(ReplicatedLogletParams {
            loglet_id: next,
            sequencer: GenerationalNodeId::new(2, 9),
            ..tail_params()
        })
    );
}

#[test]
fn unreadable_replicated_tail_is_refused() {
    let request = ReconfigureOpts {
        replication: Some(ReplicationProperty(3)),
        nodeset: nodes(&[4, 5, 6, 7]),
        sequencer: Some(GenerationalNodeId::new(4, 2)),
        ..opts()
    };
    assert_eq!(
        inner_reconfigure(&request, &logs(4, SegmentConfig::Replicated(None)), LogId::new(7)),
        Err(ReconfigureError::InvalidTailParams)
    );
}

#[test]
fn moving_to_the_replicated_provider_needs_all_settings() {
    let full = || ReconfigureOpts {
        provider: Some(ProviderKind::Replicated),
        replication: Some(ReplicationProperty(2)),
        nodeset: nodes(&[1, 2]),
        sequencer: Some(GenerationalNodeId::new(1, 1)),
        ..opts()
    };
    let logs = logs(0, SegmentConfig::Local);
    assert_eq!(
        inner_reconfigure(&full(), &logs, LogId::new(7)),
        Ok(SealAndExtendChainRequest {
            log_id: LogId::new(7),
            min_version: 1,
            provider: ProviderKind::Replicated,
            segment_index: 0,
            params: ExtensionParams::Replicated(ReplicatedLogletParams {
                loglet_id: LogletId((7 << 32) | 1),
                sequencer: GenerationalNodeId::new(1, 1),
                replication: ReplicationProperty(2),
                nodeset: NodeSet(nodes(&[1, 2])),
            }),
        })
    );

    let no_nodeset = ReconfigureOpts {
        nodeset: vec![],
        replication: None,
        sequencer: None,
        ..full()
    };
    assert_eq!(
        inner_reconfigure(&no_nodeset, &logs, LogId::new(7)),
        Err(ReconfigureError::MissingNodeset)
    );
    let no_replication = ReconfigureOpts {
        replication: None,
        sequencer: None,
        ..full()
    };
    assert_eq!(
        inner_reconfigure(&no_replication, &logs, LogId::new(7)),
        Err(ReconfigureError::MissingReplication)
    );
    let no_sequencer = ReconfigureOpts {
        sequencer: None,
        ..full()
    };
    assert_eq!(
        inner_reconfigure(&no_sequencer, &logs, LogId::new(7)),
        Err(ReconfigureError::MissingSequencer)
    );
    assert_eq!(
        inner_reconfigure(&no_sequencer, &logs_in_memory(), LogId::new(7)),
        Err(ReconfigureError::MissingSequencer)
    );
}

fn logs_in_memory() -> Logs {
    logs(0, SegmentConfig::InMemory)
}

#[test]
fn segment_kinds() {
    assert_eq!(SegmentConfig::Local.kind(), ProviderKind::Local);
    assert_eq!(SegmentConfig::InMemory.kind(), ProviderKind::InMemory);
    assert_eq!(
        SegmentConfig::Replicated(None).kind(),
        ProviderKind::Replicated
    );
}
