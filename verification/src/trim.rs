//! Which prefix of each log may be discarded, given what the nodes of the
//! cluster report.
//!
//! Each partition has its own log. Without snapshots a record may go once
//! every processor of the partition has persisted it; with snapshots it may go
//! once some processor has archived it and every live processor has applied
//! it.

use crate::cluster_state::{
    lsn_or_invalid, AliveNode, ClusterState, NodeState, PartitionProcessorStatus, ReportedLsn,
};
use crate::identifiers::PartitionId;
use crate::sequence::{Lsn, INVALID_RAW};
use std::collections::{BTreeMap, BTreeSet, HashMap};
use std::sync::Arc;
use vstd::prelude::*;
use vstd::std_specs::iter::IteratorSpec;

verus! {

/// The sequence number by which the safe trim point of a log is found.
#[derive(Clone, Copy, Debug, PartialEq, Eq, Structural)]
pub enum SafeTrimPointMode {
    /// No snapshots: trim to the least persisted position.
    PersistedLsn,
    /// Snapshots: trim to the greatest archived position.
    ArchivedLsn,
}

/// Some report in `reports` is about `partition`.
pub open spec fn reported_in(reports: Set<(u32, u16)>, partition: u16) -> bool {
    exists|node: u32| reports.contains((node, partition))
}

/// `m` is the least sequence number of the given kind among the reports in
/// `reports` about `partition`.
pub open spec fn is_min_in(
    cs: ClusterState,
    reports: Set<(u32, u16)>,
    partition: u16,
    kind: ReportedLsn,
    m: u64,
) -> bool {
    &&& exists|node: u32| #[trigger]
        reports.contains((node, partition)) && cs.status(node, partition).reported(kind) == m
    &&& forall|node: u32| #[trigger]
        reports.contains((node, partition)) ==> m <= cs.status(node, partition).reported(kind)
}

/// `m` is the greatest sequence number of the given kind among the reports in
/// `reports` about `partition`.
pub open spec fn is_max_in(
    cs: ClusterState,
    reports: Set<(u32, u16)>,
    partition: u16,
    kind: ReportedLsn,
    m: u64,
) -> bool {
    &&& exists|node: u32| #[trigger]
        reports.contains((node, partition)) && cs.status(node, partition).reported(kind) == m
    &&& forall|node: u32| #[trigger]
        reports.contains((node, partition)) ==> cs.status(node, partition).reported(kind) <= m
}

/// Some report in `reports` carries an archived position above the invalid
/// one.
pub open spec fn any_archived_in(cs: ClusterState, reports: Set<(u32, u16)>) -> bool {
    exists|r: (u32, u16)| #[trigger]
        reports.contains(r) && cs.status(r.0, r.1).reported(ReportedLsn::Archived) > INVALID_RAW
}

/// Some alive node runs a processor for `partition`.
pub open spec fn partition_reported(cs: ClusterState, partition: u16) -> bool {
    reported_in(cs.all_reports(), partition)
}

/// The least sequence number of the given kind that an alive node reports of
/// `partition`; meaningful where `partition_reported(cs, partition)`.
pub open spec fn min_reported(cs: ClusterState, partition: u16, kind: ReportedLsn) -> u64 {
    choose|m: u64| is_min_in(cs, cs.all_reports(), partition, kind, m)
}

/// The greatest sequence number of the given kind that an alive node reports
/// of `partition`; meaningful where `partition_reported(cs, partition)`.
pub open spec fn max_reported(cs: ClusterState, partition: u16, kind: ReportedLsn) -> u64 {
    choose|m: u64| is_max_in(cs, cs.all_reports(), partition, kind, m)
}

/// Archived positions decide where snapshots are configured, or where any
/// alive node reports an archived position above the invalid one.
pub open spec fn spec_mode(cs: ClusterState, snapshots_repository_configured: bool)
    -> SafeTrimPointMode {
    if snapshots_repository_configured || any_archived_in(cs, cs.all_reports()) {
        SafeTrimPointMode::ArchivedLsn
    } else {
        SafeTrimPointMode::PersistedLsn
    }
}

/// Without snapshots a dead or suspect node holds all trimming back: what it
/// had persisted is unknown. With snapshots it never does.
pub open spec fn spec_is_trimming_suspended(mode: SafeTrimPointMode, cs: ClusterState) -> bool {
    mode is PersistedLsn && cs.has_dead_or_suspect()
}

/// The known trim point of `log`; a log without an entry was never trimmed.
pub open spec fn current_trim_point(current: Map<u32, Lsn>, log: u32) -> u64 {
    if current.contains_key(log) {
        current[log]@
    } else {
        INVALID_RAW
    }
}

/// The position up to which the log of `partition` could be trimmed.
pub open spec fn candidate(cs: ClusterState, mode: SafeTrimPointMode, partition: u16) -> u64 {
    match mode {
        SafeTrimPointMode::ArchivedLsn => max_reported(cs, partition, ReportedLsn::Archived),
        SafeTrimPointMode::PersistedLsn => min_reported(cs, partition, ReportedLsn::Persisted),
    }
}

/// The log of `partition` needs trimming: trimming is not suspended, the
/// candidate lies strictly above the known trim point and, where archived
/// positions decide, no alive processor has yet to apply a record below it.
pub open spec fn should_trim(
    cs: ClusterState,
    current: Map<u32, Lsn>,
    snapshots_repository_configured: bool,
    partition: u16,
) -> bool {
    let mode = spec_mode(cs, snapshots_repository_configured);
    &&& !spec_is_trimming_suspended(mode, cs)
    &&& partition_reported(cs, partition)
    &&& candidate(cs, mode, partition) > current_trim_point(current, partition as u32)
    &&& mode is ArchivedLsn ==> candidate(cs, mode, partition) <= min_reported(
        cs,
        partition,
        ReportedLsn::Applied,
    )
}

/// The new trim points: for each log that needs trimming, and for no other,
/// the position to trim to and the partition that the log belongs to.
pub open spec fn spec_safe_trim_points(
    cs: ClusterState,
    current: Map<u32, Lsn>,
    snapshots_repository_configured: bool,
) -> Map<u32, (Lsn, PartitionId)> {
    Map::new(
        |log: u32| log <= u16::MAX && should_trim(cs, current, snapshots_repository_configured, log as u16),
        |log: u32|
            (
                Lsn(candidate(cs, spec_mode(cs, snapshots_repository_configured), log as u16)),
                PartitionId(log as u16),
            ),
    )
}

/// A set of reports has at most one least sequence number.
pub proof fn lemma_min_unique(
    cs: ClusterState,
    reports: Set<(u32, u16)>,
    partition: u16,
    kind: ReportedLsn,
    a: u64,
    b: u64,
)
    requires
        is_min_in(cs, reports, partition, kind, a),
        is_min_in(cs, reports, partition, kind, b),
    ensures
        a == b,
{
}

/// A set of reports has at most one greatest sequence number.
pub proof fn lemma_max_unique(
    cs: ClusterState,
    reports: Set<(u32, u16)>,
    partition: u16,
    kind: ReportedLsn,
    a: u64,
    b: u64,
)
    requires
        is_max_in(cs, reports, partition, kind, a),
        is_max_in(cs, reports, partition, kind, b),
    ensures
        a == b,
{
}

/// Among the reports about a partition, one carries the least sequence
/// number of each kind.
pub proof fn lemma_min_exists(
    cs: ClusterState,
    reports: Set<(u32, u16)>,
    partition: u16,
    kind: ReportedLsn,
    node: u32,
)
    requires
        reports.contains((node, partition)),
    ensures
        exists|m: u64| is_min_in(cs, reports, partition, kind, m),
    decreases cs.status(node, partition).reported(kind),
{
    let v = cs.status(node, partition).reported(kind);
    if forall|n: u32| #[trigger]
        reports.contains((n, partition)) ==> v <= cs.status(n, partition).reported(kind) {
        assert(is_min_in(cs, reports, partition, kind, v));
    } else {
        let n = choose|n: u32| #[trigger]
            reports.contains((n, partition)) && cs.status(n, partition).reported(kind) < v;
        lemma_min_exists(cs, reports, partition, kind, n);
    }
}

/// Among the reports about a partition, one carries the greatest sequence
/// number of each kind.
pub proof fn lemma_max_exists(
    cs: ClusterState,
    reports: Set<(u32, u16)>,
    partition: u16,
    kind: ReportedLsn,
    node: u32,
)
    requires
        reports.contains((node, partition)),
    ensures
        exists|m: u64| is_max_in(cs, reports, partition, kind, m),
    decreases u64::MAX - cs.status(node, partition).reported(kind),
{
    let v = cs.status(node, partition).reported(kind);
    if forall|n: u32| #[trigger]
        reports.contains((n, partition)) ==> cs.status(n, partition).reported(kind) <= v {
        assert(is_max_in(cs, reports, partition, kind, v));
    } else {
        let n = choose|n: u32| #[trigger]
            reports.contains((n, partition)) && cs.status(n, partition).reported(kind) > v;
        lemma_max_exists(cs, reports, partition, kind, n);
    }
}

/// Where a partition is reported, `min_reported` and `max_reported` are the
/// least and the greatest of what the alive nodes report of it.
pub proof fn lemma_extremes_of_reported(cs: ClusterState, partition: u16, kind: ReportedLsn)
    requires
        partition_reported(cs, partition),
    ensures
        is_min_in(cs, cs.all_reports(), partition, kind, min_reported(cs, partition, kind)),
        is_max_in(cs, cs.all_reports(), partition, kind, max_reported(cs, partition, kind)),
{
    let node = choose|node: u32| cs.all_reports().contains((node, partition));
    lemma_min_exists(cs, cs.all_reports(), partition, kind, node);
    lemma_max_exists(cs, cs.all_reports(), partition, kind, node);
}

/// Monotonicity: every new trim point lies strictly above the known trim
/// point of its log.
pub proof fn lemma_trim_points_advance(
    cs: ClusterState,
    current: Map<u32, Lsn>,
    snapshots_repository_configured: bool,
    log: u32,
)
    requires
        spec_safe_trim_points(cs, current, snapshots_repository_configured).contains_key(log),
    ensures
        spec_safe_trim_points(cs, current, snapshots_repository_configured)[log].0@
            > current_trim_point(current, log),
{
}

/// Safety without snapshots: a new trim point never lies above what any alive
/// node has persisted of the partition.
pub proof fn lemma_persisted_mode_is_safe(
    cs: ClusterState,
    current: Map<u32, Lsn>,
    snapshots_repository_configured: bool,
    log: u32,
    node: u32,
)
    requires
        spec_mode(cs, snapshots_repository_configured) is PersistedLsn,
        spec_safe_trim_points(cs, current, snapshots_repository_configured).contains_key(log),
        cs.reports(node, log as u16),
    ensures
        spec_safe_trim_points(cs, current, snapshots_repository_configured)[log].0@
            <= cs.status(node, log as u16).reported(ReportedLsn::Persisted),
{
    lemma_extremes_of_reported(cs, log as u16, ReportedLsn::Persisted);
    assert(cs.all_reports().contains((node, log as u16)));
}

/// Safety with snapshots: a new trim point never lies above what any alive
/// node has applied of the partition.
pub proof fn lemma_archived_mode_is_safe(
    cs: ClusterState,
    current: Map<u32, Lsn>,
    snapshots_repository_configured: bool,
    log: u32,
    node: u32,
)
    requires
        spec_mode(cs, snapshots_repository_configured) is ArchivedLsn,
        spec_safe_trim_points(cs, current, snapshots_repository_configured).contains_key(log),
        cs.reports(node, log as u16),
    ensures
        spec_safe_trim_points(cs, current, snapshots_repository_configured)[log].0@
            <= cs.status(node, log as u16).reported(ReportedLsn::Applied),
{
    lemma_extremes_of_reported(cs, log as u16, ReportedLsn::Applied);
    assert(cs.all_reports().contains((node, log as u16)));
}

/// Without snapshots, one dead or suspect node is enough for nothing to be
/// trimmed.
pub proof fn lemma_dead_node_blocks_persisted_mode(
    cs: ClusterState,
    current: Map<u32, Lsn>,
    snapshots_repository_configured: bool,
)
    requires
        spec_mode(cs, snapshots_repository_configured) is PersistedLsn,
        cs.has_dead_or_suspect(),
    ensures
        spec_safe_trim_points(cs, current, snapshots_repository_configured) == Map::<
            u32,
            (Lsn, PartitionId),
        >::empty(),
{
    assert(spec_safe_trim_points(cs, current, snapshots_repository_configured) =~= Map::<
        u32,
        (Lsn, PartitionId),
    >::empty());
}

/// Two observations agree on their reports: on who reports which partition,
/// on what is reported, and on whether any node is dead or suspect.
pub open spec fn same_reports(a: ClusterState, b: ClusterState) -> bool {
    &&& forall|node: u32, partition: u16| #[trigger]
        a.reports(node, partition) == b.reports(node, partition)
    &&& forall|node: u32, partition: u16| #[trigger]
        a.reports(node, partition) ==> a.status(node, partition) == b.status(node, partition)
    &&& a.has_dead_or_suspect() == b.has_dead_or_suspect()
}

/// The new trim points depend on nothing but the reports, the known trim
/// points and the configuration: neither on the order in which nodes or
/// partitions are stored or visited, nor on versions or time stamps.
pub proof fn lemma_trim_points_determined_by_reports(
    a: ClusterState,
    b: ClusterState,
    current: Map<u32, Lsn>,
    snapshots_repository_configured: bool,
)
    requires
        same_reports(a, b),
    ensures
        spec_safe_trim_points(a, current, snapshots_repository_configured)
            == spec_safe_trim_points(b, current, snapshots_repository_configured),
{
    let snap = snapshots_repository_configured;
    assert(a.all_reports() =~= b.all_reports()) by {
        assert forall|r: (u32, u16)| a.all_reports().contains(r) == b.all_reports().contains(
            r,
        ) by {
            assert(a.reports(r.0, r.1) == b.reports(r.0, r.1));
        }
    }
    let all = a.all_reports();
    assert(any_archived_in(a, all) == any_archived_in(b, all)) by {
        if any_archived_in(a, all) {
            let r = choose|r: (u32, u16)| #[trigger]
                all.contains(r) && a.status(r.0, r.1).reported(ReportedLsn::Archived)
                    > INVALID_RAW;
            assert(a.reports(r.0, r.1));
        }
        if any_archived_in(b, all) {
            let r = choose|r: (u32, u16)| #[trigger]
                all.contains(r) && b.status(r.0, r.1).reported(ReportedLsn::Archived)
                    > INVALID_RAW;
            assert(a.reports(r.0, r.1));
        }
    }
    let mode = spec_mode(a, snap);
    assert(mode == spec_mode(b, snap));
    assert forall|p: u16| partition_reported(a, p) implies candidate(a, mode, p) == candidate(
        b,
        mode,
        p,
    ) && min_reported(a, p, ReportedLsn::Applied) == min_reported(b, p, ReportedLsn::Applied) by {
        lemma_extremes_agree(a, b, p, ReportedLsn::Applied);
        lemma_extremes_agree(a, b, p, ReportedLsn::Persisted);
        lemma_extremes_agree(a, b, p, ReportedLsn::Archived);
    }
    assert forall|p: u16| #[trigger]
        should_trim(a, current, snap, p) == should_trim(b, current, snap, p) by {
        assert(partition_reported(a, p) == partition_reported(b, p));
        assert(spec_is_trimming_suspended(mode, a) == spec_is_trimming_suspended(mode, b));
    }
    let out_a = spec_safe_trim_points(a, current, snap);
    let out_b = spec_safe_trim_points(b, current, snap);
    assert forall|log: u32| out_a.contains_key(log) == out_b.contains_key(log) by {}
    assert forall|log: u32| out_a.contains_key(log) implies out_a[log] == out_b[log] by {
        assert(partition_reported(a, log as u16));
    }
    assert(out_a =~= out_b);
}

/// Observations that agree on their reports agree on the extremes of every
/// reported partition.
proof fn lemma_extremes_agree(a: ClusterState, b: ClusterState, partition: u16, kind: ReportedLsn)
    requires
        same_reports(a, b),
        a.all_reports() == b.all_reports(),
        partition_reported(a, partition),
    ensures
        min_reported(a, partition, kind) == min_reported(b, partition, kind),
        max_reported(a, partition, kind) == max_reported(b, partition, kind),
{
    let all = a.all_reports();
    lemma_extremes_of_reported(a, partition, kind);
    lemma_extremes_of_reported(b, partition, kind);
    let min_a = min_reported(a, partition, kind);
    let max_a = max_reported(a, partition, kind);
    assert(is_min_in(b, all, partition, kind, min_a)) by {
        let n = choose|n: u32| #[trigger]
            all.contains((n, partition)) && a.status(n, partition).reported(kind) == min_a;
        assert(a.reports(n, partition));
        assert forall|m: u32| #[trigger] all.contains((m, partition)) implies min_a <= b.status(
            m,
            partition,
        ).reported(kind) by {
            assert(a.reports(m, partition));
        }
    }
    assert(is_max_in(b, all, partition, kind, max_a)) by {
        let n = choose|n: u32| #[trigger]
            all.contains((n, partition)) && a.status(n, partition).reported(kind) == max_a;
        assert(a.reports(n, partition));
        assert forall|m: u32| #[trigger] all.contains((m, partition)) implies b.status(
            m,
            partition,
        ).reported(kind) <= max_a by {
            assert(a.reports(m, partition));
        }
    }
    lemma_min_unique(b, all, partition, kind, min_a, min_reported(b, partition, kind));
    lemma_max_unique(b, all, partition, kind, max_a, max_reported(b, partition, kind));
}

impl SafeTrimPointMode {
    /// Whether the cluster's state forbids all trimming in this mode.
    pub fn is_trimming_suspended(&self, cluster_state: &ClusterState) -> (r: bool)
        ensures
            r == spec_is_trimming_suspended(*self, *cluster_state),
    {
        match self {
            SafeTrimPointMode::ArchivedLsn => false,
            SafeTrimPointMode::PersistedLsn => {
                let mut found = false;
                for kv in it: cluster_state.nodes.iter()
                    invariant
                        it.seq() == cluster_state.nodes.iter().remaining(),
                        found == (exists|i: int|
                            0 <= i < it.index() && !((#[trigger] it.seq()[i]).1 is Alive)),
                {
                    match kv.1 {
                        NodeState::Alive(_) => {},
                        _ => {
                            found = true;
                        },
                    }
                }
                proof {
                    let s = cluster_state.nodes.iter().remaining();
                    if found {
                        let i = choose|i: int| 0 <= i < s.len() && !((#[trigger] s[i]).1 is Alive);
                        assert(cluster_state.nodes@.contains_key(*s[i].0));
                    }
                    if cluster_state.has_dead_or_suspect() {
                        let node = choose|node: u32| #[trigger]
                            cluster_state.nodes@.contains_key(node) && !(
                            cluster_state.nodes@[node] is Alive);
                        assert(s.contains((&node, &cluster_state.nodes@[node])));
                        let i = choose|i: int|
                            0 <= i < s.len() && s[i] == (&node, &cluster_state.nodes@[node]);
                        assert(!(s[i].1 is Alive));
                    }
                }
                found
            },
        }
    }
}

/// What the reports seen so far say of one partition.
#[derive(Clone, Copy)]
struct PartitionSummary {
    max_archived: u64,
    min_applied: u64,
    min_persisted: u64,
}

/// `summary` holds the three extremes of `partition` over `reports`.
spec fn summary_of(
    cs: ClusterState,
    reports: Set<(u32, u16)>,
    partition: u16,
    summary: PartitionSummary,
) -> bool {
    &&& is_max_in(cs, reports, partition, ReportedLsn::Archived, summary.max_archived)
    &&& is_min_in(cs, reports, partition, ReportedLsn::Applied, summary.min_applied)
    &&& is_min_in(cs, reports, partition, ReportedLsn::Persisted, summary.min_persisted)
}

/// `summaries` has an entry for each partition with a report in `reports`,
/// and each entry holds the extremes over `reports`.
spec fn summaries_of(
    cs: ClusterState,
    reports: Set<(u32, u16)>,
    summaries: Map<u16, PartitionSummary>,
) -> bool {
    forall|p: u16|
        #![trigger summaries.contains_key(p)]
        {
            &&& summaries.contains_key(p) <==> reported_in(reports, p)
            &&& summaries.contains_key(p) ==> summary_of(cs, reports, p, summaries[p])
        }
}

/// Takes one more report into the summaries.
fn absorb_report(
    summaries: &mut BTreeMap<u16, PartitionSummary>,
    partition: u16,
    status: &PartitionProcessorStatus,
    Ghost(cs): Ghost<ClusterState>,
    Ghost(seen): Ghost<Set<(u32, u16)>>,
    Ghost(node): Ghost<u32>,
)
    requires
        cs.status(node, partition) == *status,
        summaries_of(cs, seen, old(summaries)@),
    ensures
        summaries_of(cs, seen.insert((node, partition)), final(summaries)@),
{
    let archived = lsn_or_invalid(status.last_archived_log_lsn);
    let applied = lsn_or_invalid(status.last_applied_log_lsn);
    let persisted = lsn_or_invalid(status.last_persisted_log_lsn);
    let merged = match summaries.get(&partition) {
        Some(known) => PartitionSummary {
            max_archived: if known.max_archived >= archived {
                known.max_archived
            } else {
                archived
            },
            min_applied: if known.min_applied <= applied {
                known.min_applied
            } else {
                applied
            },
            min_persisted: if known.min_persisted <= persisted {
                known.min_persisted
            } else {
                persisted
            },
        },
        None => PartitionSummary {
            max_archived: archived,
            min_applied: applied,
            min_persisted: persisted,
        },
    };
    let ghost before = summaries@;
    summaries.insert(partition, merged);
    proof {
        let after = seen.insert((node, partition));
        assert(after.contains((node, partition)));
        assert forall|p: u16| #![trigger summaries@.contains_key(p)]
            (summaries@.contains_key(p) <==> reported_in(after, p)) && (summaries@.contains_key(p)
                ==> summary_of(cs, after, p, summaries@[p])) by {
            assert(before.contains_key(p) <==> reported_in(seen, p));
            if before.contains_key(p) {
                lemma_extremes_stay_reported(cs, seen, after, p, before[p]);
                assert(reported_in(after, p));
            } else if p == partition {
                assert forall|n: u32| #[trigger] after.contains((n, p)) implies n == node by {
                    if n != node {
                        assert(seen.contains((n, p)));
                    }
                }
            } else if reported_in(after, p) {
                let n = choose|n: u32| after.contains((n, p));
                assert(seen.contains((n, p)));
            }
            if p == partition {
                assert(summary_of(cs, after, p, merged));
            } else if before.contains_key(p) {
                assert(summary_of(cs, after, p, before[p]));
            }
        }
    }
}

/// The reports that carry the extremes of a summary are still there after
/// more reports have come.
proof fn lemma_extremes_stay_reported(
    cs: ClusterState,
    seen: Set<(u32, u16)>,
    after: Set<(u32, u16)>,
    partition: u16,
    summary: PartitionSummary,
)
    requires
        summary_of(cs, seen, partition, summary),
        forall|r: (u32, u16)| seen.contains(r) ==> after.contains(r),
    ensures
        exists|n: u32| #[trigger]
            after.contains((n, partition)) && cs.status(n, partition).reported(
                ReportedLsn::Archived,
            ) == summary.max_archived,
        exists|n: u32| #[trigger]
            after.contains((n, partition)) && cs.status(n, partition).reported(
                ReportedLsn::Applied,
            ) == summary.min_applied,
        exists|n: u32| #[trigger]
            after.contains((n, partition)) && cs.status(n, partition).reported(
                ReportedLsn::Persisted,
            ) == summary.min_persisted,
{
    let archived = choose|n: u32| #[trigger]
        seen.contains((n, partition)) && cs.status(n, partition).reported(ReportedLsn::Archived)
            == summary.max_archived;
    assert(after.contains((archived, partition)));
    let applied = choose|n: u32| #[trigger]
        seen.contains((n, partition)) && cs.status(n, partition).reported(ReportedLsn::Applied)
            == summary.min_applied;
    assert(after.contains((applied, partition)));
    let persisted = choose|n: u32| #[trigger]
        seen.contains((n, partition)) && cs.status(n, partition).reported(ReportedLsn::Persisted)
            == summary.min_persisted;
    assert(after.contains((persisted, partition)));
}

/// The reports of one node.
spec fn node_reports(cs: ClusterState, node: u32) -> Set<(u32, u16)> {
    Set::new(|r: (u32, u16)| r.0 == node && cs.reports(r.0, r.1))
}

/// Takes every report of one alive node into the summaries, and says whether
/// any of them carries an archived position.
fn absorb_node(
    summaries: &mut BTreeMap<u16, PartitionSummary>,
    alive: &AliveNode,
    Ghost(cs): Ghost<ClusterState>,
    Ghost(seen): Ghost<Set<(u32, u16)>>,
    Ghost(node): Ghost<u32>,
) -> (any_archived: bool)
    requires
        cs.nodes@.contains_key(node),
        cs.nodes@[node] == NodeState::Alive(*alive),
        summaries_of(cs, seen, old(summaries)@),
    ensures
        summaries_of(cs, seen.union(node_reports(cs, node)), final(summaries)@),
        any_archived == any_archived_in(cs, node_reports(cs, node)),
{
    let mut any = false;
    let ghost mut done: Set<(u32, u16)> = Set::empty();
    proof {
        assert(seen.union(done) =~= seen);
    }
    for kv in it: alive.partitions.iter()
        invariant
            it.seq() == alive.partitions.iter().remaining(),
            cs.nodes@.contains_key(node),
            cs.nodes@[node] == NodeState::Alive(*alive),
            summaries_of(cs, seen.union(done), summaries@),
            forall|r: (u32, u16)| #[trigger]
                done.contains(r) <==> (r.0 == node && exists|i: int|
                    0 <= i < it.index() && *(#[trigger] it.seq()[i]).0 == r.1),
            any == any_archived_in(cs, done),
    {
        let partition: u16 = *kv.0;
        let status = kv.1;
        let ghost idx = it.index();
        proof {
            assert(alive.partitions@.contains_key(*it.seq()[idx].0));
            assert(alive.partitions@[partition] == *status);
            assert(cs.status(node, partition) == *status);
        }
        absorb_report(summaries, partition, status, Ghost(cs), Ghost(seen.union(done)), Ghost(node));
        let archived = lsn_or_invalid(status.last_archived_log_lsn);
        let ghost before = done;
        proof {
            done = done.insert((node, partition));
            assert(seen.union(before).insert((node, partition)) =~= seen.union(done));
            assert forall|r: (u32, u16)| #[trigger] done.contains(r) <==> (r.0 == node && exists|
                i: int,
            | 0 <= i < idx + 1 && *(#[trigger] it.seq()[i]).0 == r.1) by {
                if done.contains(r) {
                    if r == (node, partition) {
                        assert(*it.seq()[idx].0 == r.1);
                    } else {
                        assert(before.contains(r));
                    }
                }
                if r.0 == node && exists|i: int|
                    0 <= i < idx + 1 && *(#[trigger] it.seq()[i]).0 == r.1 {
                    let i = choose|i: int| 0 <= i < idx + 1 && *(#[trigger] it.seq()[i]).0 == r.1;
                    if i < idx {
                        assert(before.contains(r));
                    }
                }
            }
            if any_archived_in(cs, before) {
                let r = choose|r: (u32, u16)| #[trigger]
                    before.contains(r) && cs.status(r.0, r.1).reported(ReportedLsn::Archived)
                        > INVALID_RAW;
                assert(done.contains(r));
            }
            if archived > INVALID_RAW {
                assert(done.contains((node, partition)));
            }
            if any_archived_in(cs, done) {
                let r = choose|r: (u32, u16)| #[trigger]
                    done.contains(r) && cs.status(r.0, r.1).reported(ReportedLsn::Archived)
                        > INVALID_RAW;
                if r != (node, partition) {
                    assert(before.contains(r));
                }
            }
        }
        if archived > INVALID_RAW {
            any = true;
        }
    }
    proof {
        let s = alive.partitions.iter().remaining();
        assert forall|r: (u32, u16)| done.contains(r) <==> node_reports(cs, node).contains(r) by {
            if done.contains(r) {
                let i = choose|i: int| 0 <= i < s.len() && *(#[trigger] s[i]).0 == r.1;
                assert(alive.partitions@.contains_key(*s[i].0));
            }
            if node_reports(cs, node).contains(r) {
                assert(alive.partitions@.contains_key(r.1));
                assert(s.contains((&r.1, &alive.partitions@[r.1])));
                let i = choose|i: int| 0 <= i < s.len() && s[i] == (&r.1, &alive.partitions@[r.1]);
                assert(*s[i].0 == r.1);
            }
        }
        assert(done =~= node_reports(cs, node));
    }
    any
}

/// The extremes of every reported partition, and whether any report carries
/// an archived position.
fn summarize(cluster_state: &ClusterState) -> (r: (BTreeMap<u16, PartitionSummary>, bool))
    ensures
        summaries_of(*cluster_state, cluster_state.all_reports(), r.0@),
        r.1 == any_archived_in(*cluster_state, cluster_state.all_reports()),
{
    let mut summaries: BTreeMap<u16, PartitionSummary> = BTreeMap::new();
    let mut any = false;
    let ghost cs = *cluster_state;
    let ghost mut seen: Set<(u32, u16)> = Set::empty();
    for kv in it: cluster_state.nodes.iter()
        invariant
            cs == *cluster_state,
            it.seq() == cluster_state.nodes.iter().remaining(),
            summaries_of(cs, seen, summaries@),
            forall|r: (u32, u16)| #[trigger]
                seen.contains(r) <==> (cs.reports(r.0, r.1) && exists|i: int|
                    0 <= i < it.index() && *(#[trigger] it.seq()[i]).0 == r.0),
            any == any_archived_in(cs, seen),
    {
        let ghost idx = it.index();
        let ghost node = *kv.0;
        let ghost before = seen;
        proof {
            assert(cs.nodes@.contains_key(*it.seq()[idx].0));
            assert(cs.nodes@[node] == *kv.1);
        }
        match kv.1 {
            NodeState::Alive(alive) => {
                let node_any = absorb_node(
                    &mut summaries,
                    alive,
                    Ghost(cs),
                    Ghost(seen),
                    Ghost(node),
                );
                proof {
                    seen = seen.union(node_reports(cs, node));
                    if any_archived_in(cs, before) {
                        let r = choose|r: (u32, u16)| #[trigger]
                            before.contains(r) && cs.status(r.0, r.1).reported(
                                ReportedLsn::Archived,
                            ) > INVALID_RAW;
                        assert(seen.contains(r));
                    }
                    if node_any {
                        let r = choose|r: (u32, u16)| #[trigger]
                            node_reports(cs, node).contains(r) && cs.status(r.0, r.1).reported(
                                ReportedLsn::Archived,
                            ) > INVALID_RAW;
                        assert(seen.contains(r));
                    }
                    if any_archived_in(cs, seen) {
                        let r = choose|r: (u32, u16)| #[trigger]
                            seen.contains(r) && cs.status(r.0, r.1).reported(
                                ReportedLsn::Archived,
                            ) > INVALID_RAW;
                        assert(before.contains(r) || node_reports(cs, node).contains(r));
                    }
                }
                if node_any {
                    any = true;
                }
            },
            _ => {},
        }
        proof {
            assert forall|r: (u32, u16)| #[trigger] seen.contains(r) <==> (cs.reports(r.0, r.1)
                && exists|i: int| 0 <= i < idx + 1 && *(#[trigger] it.seq()[i]).0 == r.0) by {
                if seen.contains(r) {
                    if before.contains(r) {
                    } else {
                        assert(node_reports(cs, node).contains(r));
                        assert(*it.seq()[idx].0 == r.0);
                    }
                }
                if cs.reports(r.0, r.1) && exists|i: int|
                    0 <= i < idx + 1 && *(#[trigger] it.seq()[i]).0 == r.0 {
                    let i = choose|i: int| 0 <= i < idx + 1 && *(#[trigger] it.seq()[i]).0 == r.0;
                    if i < idx {
                        assert(before.contains(r));
                    } else {
                        assert(r.0 == node);
                        assert(node_reports(cs, node).contains(r));
                    }
                }
            }
        }
    }
    proof {
        let s = cluster_state.nodes.iter().remaining();
        assert forall|r: (u32, u16)| seen.contains(r) <==> cs.all_reports().contains(r) by {
            if cs.reports(r.0, r.1) {
                assert(s.contains((&r.0, &cs.nodes@[r.0])));
                let i = choose|i: int| 0 <= i < s.len() && s[i] == (&r.0, &cs.nodes@[r.0]);
                assert(*s[i].0 == r.0);
            }
        }
        assert(seen =~= cs.all_reports());
    }
    (summaries, any)
}

/// A summary over all reports holds the extremes that the contracts speak
/// of.
proof fn lemma_summary_extremes(cs: ClusterState, partition: u16, summary: PartitionSummary)
    requires
        summary_of(cs, cs.all_reports(), partition, summary),
    ensures
        max_reported(cs, partition, ReportedLsn::Archived) == summary.max_archived,
        min_reported(cs, partition, ReportedLsn::Applied) == summary.min_applied,
        min_reported(cs, partition, ReportedLsn::Persisted) == summary.min_persisted,
{
    let all = cs.all_reports();
    lemma_max_unique(
        cs,
        all,
        partition,
        ReportedLsn::Archived,
        max_reported(cs, partition, ReportedLsn::Archived),
        summary.max_archived,
    );
    lemma_min_unique(
        cs,
        all,
        partition,
        ReportedLsn::Applied,
        min_reported(cs, partition, ReportedLsn::Applied),
        summary.min_applied,
    );
    lemma_min_unique(
        cs,
        all,
        partition,
        ReportedLsn::Persisted,
        min_reported(cs, partition, ReportedLsn::Persisted),
        summary.min_persisted,
    );
}

/// The sequence number that decides for this observation: the archived
/// position where snapshots are configured or any alive node reports one,
/// the persisted position otherwise.
pub fn safe_trim_point_mode(cluster_state: &ClusterState, snapshots_repository_configured: bool)
    -> (r: SafeTrimPointMode)
    ensures
        r == spec_mode(*cluster_state, snapshots_repository_configured),
{
    if snapshots_repository_configured {
        return SafeTrimPointMode::ArchivedLsn;
    }
    let (_, any_archived) = summarize(cluster_state);
    if any_archived {
        SafeTrimPointMode::ArchivedLsn
    } else {
        SafeTrimPointMode::PersistedLsn
    }
}

/// Computes, for each log that needs trimming, the position to trim to.
///
/// `current_trim_points` holds the known trim point of each log, keyed by the
/// log's number; the result is keyed in the same way and holds only the logs
/// whose trim point has to move.
pub fn safe_trim_points(
    cluster_state: Arc<ClusterState>,
    current_trim_points: &HashMap<u32, Lsn>,
    snapshots_repository_configured: bool,
) -> (r: BTreeMap<u32, (Lsn, PartitionId)>)
    ensures
        r@ == spec_safe_trim_points(
            *cluster_state,
            current_trim_points@,
            snapshots_repository_configured,
        ),
{
    let cs: &ClusterState = &*cluster_state;
    let (summaries, any_archived) = summarize(cs);
    let mode = if snapshots_repository_configured || any_archived {
        SafeTrimPointMode::ArchivedLsn
    } else {
        SafeTrimPointMode::PersistedLsn
    };
    let mut out: BTreeMap<u32, (Lsn, PartitionId)> = BTreeMap::new();
    let ghost wanted = spec_safe_trim_points(
        *cs,
        current_trim_points@,
        snapshots_repository_configured,
    );
    if mode.is_trimming_suspended(cs) {
        proof {
            assert(out@ =~= wanted);
        }
        return out;
    }
    for kv in it: summaries.iter()
        invariant
            it.seq() == summaries.iter().remaining(),
            summaries_of(*cs, cs.all_reports(), summaries@),
            mode == spec_mode(*cs, snapshots_repository_configured),
            !spec_is_trimming_suspended(mode, *cs),
            wanted == spec_safe_trim_points(
                *cs,
                current_trim_points@,
                snapshots_repository_configured,
            ),
            forall|log: u32| #[trigger]
                out@.contains_key(log) <==> (wanted.contains_key(log) && exists|i: int|
                    0 <= i < it.index() && *(#[trigger] it.seq()[i]).0 == log as u16),
            forall|log: u32| #[trigger] out@.contains_key(log) ==> out@[log] == wanted[log],
    {
        let partition: u16 = *kv.0;
        let summary: PartitionSummary = *kv.1;
        let log: u32 = partition as u32;
        let ghost idx = it.index();
        let ghost before = out@;
        proof {
            assert(summaries@.contains_key(*it.seq()[idx].0));
            assert(summaries@[partition] == summary);
            assert(reported_in(cs.all_reports(), partition));
            lemma_summary_extremes(*cs, partition, summary);
        }
        let current = match current_trim_points.get(&log) {
            Some(lsn) => lsn.as_u64(),
            None => INVALID_RAW,
        };
        assert(current == current_trim_point(current_trim_points@, log));
        let trim_to = match mode {
            SafeTrimPointMode::ArchivedLsn => {
                if summary.max_archived > current && summary.max_archived <= summary.min_applied {
                    Some(summary.max_archived)
                } else {
                    None
                }
            },
            SafeTrimPointMode::PersistedLsn => {
                if summary.min_persisted > current {
                    Some(summary.min_persisted)
                } else {
                    None
                }
            },
        };
        assert(trim_to is Some <==> wanted.contains_key(log));
        if let Some(lsn) = trim_to {
            assert(wanted[log] == (Lsn(lsn), PartitionId(partition)));
            out.insert(log, (Lsn::new(lsn), PartitionId::new(partition)));
        }
        proof {
            assert forall|l: u32| #[trigger] out@.contains_key(l) <==> (wanted.contains_key(l)
                && exists|i: int| 0 <= i < idx + 1 && *(#[trigger] it.seq()[i]).0 == l as u16) by {
                if out@.contains_key(l) {
                    if l == log {
                        assert(*it.seq()[idx].0 == l as u16);
                    } else {
                        assert(before.contains_key(l));
                    }
                }
                if wanted.contains_key(l) && exists|i: int|
                    0 <= i < idx + 1 && *(#[trigger] it.seq()[i]).0 == l as u16 {
                    let i = choose|i: int|
                        0 <= i < idx + 1 && *(#[trigger] it.seq()[i]).0 == l as u16;
                    if i < idx {
                        assert(before.contains_key(l));
                    } else {
                        assert(l == log);
                    }
                }
            }
        }
    }
    proof {
        let s = summaries.iter().remaining();
        assert forall|l: u32| out@.contains_key(l) <==> wanted.contains_key(l) by {
            if wanted.contains_key(l) {
                let p = l as u16;
                assert(partition_reported(*cs, p));
                assert(summaries@.contains_key(p));
                assert(s.contains((&p, &summaries@[p])));
                let i = choose|i: int| 0 <= i < s.len() && s[i] == (&p, &summaries@[p]);
                assert(*s[i].0 == l as u16);
            }
        }
        assert(out@ =~= wanted);
    }
    out
}

/// The logs that belong to a partition with a report from an alive node.
pub open spec fn spec_logs_to_probe(cs: ClusterState) -> Set<u32> {
    Set::new(|log: u32| log <= u16::MAX && partition_reported(cs, log as u16))
}

/// The logs whose known trim point `safe_trim_points` will ask for: the log
/// of every partition that some alive node reports, each once.
pub fn logs_to_probe(cluster_state: &ClusterState) -> (r: BTreeSet<u32>)
    ensures
        r@ == spec_logs_to_probe(*cluster_state),
{
    let (summaries, _) = summarize(cluster_state);
    let mut logs: BTreeSet<u32> = BTreeSet::new();
    let ghost wanted = spec_logs_to_probe(*cluster_state);
    for kv in it: summaries.iter()
        invariant
            it.seq() == summaries.iter().remaining(),
            summaries_of(*cluster_state, cluster_state.all_reports(), summaries@),
            wanted == spec_logs_to_probe(*cluster_state),
            forall|log: u32| #[trigger]
                logs@.contains(log) <==> (wanted.contains(log) && exists|i: int|
                    0 <= i < it.index() && *(#[trigger] it.seq()[i]).0 == log as u16),
    {
        let partition: u16 = *kv.0;
        let ghost idx = it.index();
        let ghost before = logs@;
        proof {
            assert(summaries@.contains_key(*it.seq()[idx].0));
        }
        logs.insert(partition as u32);
        proof {
            assert forall|l: u32| #[trigger] logs@.contains(l) <==> (wanted.contains(l)
                && exists|i: int| 0 <= i < idx + 1 && *(#[trigger] it.seq()[i]).0 == l as u16) by {
                if logs@.contains(l) {
                    if l == partition as u32 {
                        assert(*it.seq()[idx].0 == l as u16);
                    } else {
                        assert(before.contains(l));
                    }
                }
                if wanted.contains(l) && exists|i: int|
                    0 <= i < idx + 1 && *(#[trigger] it.seq()[i]).0 == l as u16 {
                    let i = choose|i: int|
                        0 <= i < idx + 1 && *(#[trigger] it.seq()[i]).0 == l as u16;
                    if i < idx {
                        assert(before.contains(l));
                    }
                }
            }
        }
    }
    proof {
        let s = summaries.iter().remaining();
        assert forall|l: u32| logs@.contains(l) <==> wanted.contains(l) by {
            if wanted.contains(l) {
                let p = l as u16;
                assert(summaries@.contains_key(p));
                assert(s.contains((&p, &summaries@[p])));
                let i = choose|i: int| 0 <= i < s.len() && s[i] == (&p, &summaries@[p]);
                assert(*s[i].0 == l as u16);
            }
        }
        assert(logs@ =~= wanted);
    }
    logs
}

} // verus!
