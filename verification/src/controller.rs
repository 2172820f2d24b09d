//! The controller's two roles and its control loop, as decisions.
//!
//! The loop itself waits on timers and on watches, which this library does
//! not do. What it decides lives here: which role to take, what to wait for
//! in each role, what a wake-up leads to, and how an event is handled.

use crate::leader::LeaderEvent;
use crate::sequence::Lsn;
use vstd::prelude::*;

verus! {

/// The settings of the admin role. Durations are in milliseconds.
#[derive(Clone, Copy, Debug, PartialEq, Eq)]
pub struct AdminOptions {
    /// How often the tails of the logs are looked up.
    pub log_tail_update_interval: u64,
    /// How often the logs are checked for trimming; `None` turns trimming
    /// off.
    pub log_trim_interval: Option<u64>,
    pub log_trim_threshold: u64,
}

/// The period of the trim check, if trimming is on, and the trim threshold.
pub fn create_log_trim_interval(options: &AdminOptions) -> (r: (Option<u64>, Lsn))
    ensures
        r.0 == options.log_trim_interval,
        r.1@ == options.log_trim_threshold,
{
    (options.log_trim_interval, Lsn::new(options.log_trim_threshold))
}

/// What a leader keeps of its settings.
#[derive(Clone, Copy, Debug, PartialEq, Eq)]
pub struct Leader {
    pub find_logs_tail_interval: u64,
    pub log_trim_check_interval: Option<u64>,
    pub log_trim_threshold: Lsn,
    pub snapshots_repository_configured: bool,
}

/// A controller leads or follows.
#[derive(Clone, Copy, Debug, PartialEq, Eq)]
pub enum ClusterControllerState {
    Follower,
    Leader(Leader),
}

/// What an observation does to the role.
#[derive(Clone, Copy, Debug, PartialEq, Eq, Structural)]
pub enum RoleChange {
    Unchanged,
    /// The follower takes the lead: it sets up its timers and watches.
    BecomeLeader,
    /// The leader steps down: it lets go of its timers and watches.
    BecomeFollower,
}

/// What the control loop can be woken by.
#[derive(Clone, Copy, Debug, PartialEq, Eq, Structural)]
pub enum Wakeup {
    FindLogsTailTick,
    LogTrimCheckTick,
    /// The logs controller's background work ended, well or not.
    AsyncOperationsDone { failed: bool },
    LogsChanged,
    PartitionTableChanged,
}

/// What the control loop does after a wake-up.
#[derive(Clone, Copy, Debug, PartialEq, Eq, Structural)]
pub enum LoopStep {
    /// Look up the tails of the logs, then wait again.
    FindLogsTail,
    /// Wait again.
    Continue,
    /// Stop waiting and hand the event out.
    Emit(LeaderEvent),
    /// Stop waiting and hand the failure out.
    Fail,
}

/// What the control loop waits for.
#[derive(Clone, Copy, Debug, PartialEq, Eq, Structural)]
pub struct WaitSet {
    pub find_logs_tail_tick: bool,
    pub log_trim_check_tick: bool,
    pub async_operations: bool,
    pub logs_watcher: bool,
    pub partition_table_watcher: bool,
}

/// What is done with a failure of an event's work.
#[derive(Clone, Copy, Debug, PartialEq, Eq, Structural)]
pub enum OnFailure {
    /// Trimming only saves space: its failure is logged and forgotten.
    Swallow,
    Propagate,
}

/// The role change for a controller that leads or not, and should or not.
pub open spec fn spec_role_change(leads: bool, is_leader: bool) -> RoleChange {
    if leads == is_leader {
        RoleChange::Unchanged
    } else if is_leader {
        RoleChange::BecomeLeader
    } else {
        RoleChange::BecomeFollower
    }
}

/// The step after a wake-up of a leader's loop.
pub open spec fn spec_on_wakeup(wakeup: Wakeup) -> LoopStep {
    match wakeup {
        Wakeup::FindLogsTailTick => LoopStep::FindLogsTail,
        Wakeup::LogTrimCheckTick => LoopStep::Emit(LeaderEvent::TrimLogs),
        Wakeup::AsyncOperationsDone { failed } => if failed {
            LoopStep::Fail
        } else {
            LoopStep::Continue
        },
        Wakeup::LogsChanged => LoopStep::Emit(LeaderEvent::LogsUpdate),
        Wakeup::PartitionTableChanged => LoopStep::Emit(LeaderEvent::PartitionTableUpdate),
    }
}

/// How a failure of the work for `event` is treated.
pub open spec fn spec_on_failure(event: LeaderEvent) -> OnFailure {
    match event {
        LeaderEvent::TrimLogs => OnFailure::Swallow,
        _ => OnFailure::Propagate,
    }
}

/// The leader's settings after it has taken over the trim settings of
/// `options`.
pub open spec fn spec_reconfigured(leader: Leader, options: AdminOptions) -> Leader {
    Leader {
        find_logs_tail_interval: leader.find_logs_tail_interval,
        log_trim_check_interval: options.log_trim_interval,
        log_trim_threshold: Lsn(options.log_trim_threshold),
        snapshots_repository_configured: leader.snapshots_repository_configured,
    }
}

impl Leader {
    /// The settings of a new leader.
    pub fn from_options(options: &AdminOptions, snapshots_repository_configured: bool) -> (r:
        Leader)
        ensures
            r.find_logs_tail_interval == options.log_tail_update_interval,
            r.log_trim_check_interval == options.log_trim_interval,
            r.log_trim_threshold@ == options.log_trim_threshold,
            r.snapshots_repository_configured == snapshots_repository_configured,
    {
        let (log_trim_check_interval, log_trim_threshold) = create_log_trim_interval(options);
        Leader {
            find_logs_tail_interval: options.log_tail_update_interval,
            log_trim_check_interval,
            log_trim_threshold,
            snapshots_repository_configured,
        }
    }

    /// Takes over the trim settings of `options`; nothing else changes.
    pub fn reconfigure(&mut self, options: &AdminOptions)
        ensures
            *final(self) == spec_reconfigured(*old(self), *options),
    {
        let (log_trim_check_interval, log_trim_threshold) = create_log_trim_interval(options);
        self.log_trim_check_interval = log_trim_check_interval;
        self.log_trim_threshold = log_trim_threshold;
    }

    /// What the leader's loop waits for: everything, but the trim check only
    /// where trimming is on.
    pub fn wait_set(&self) -> (r: WaitSet)
        ensures
            r == (WaitSet {
                find_logs_tail_tick: true,
                log_trim_check_tick: self.log_trim_check_interval is Some,
                async_operations: true,
                logs_watcher: true,
                partition_table_watcher: true,
            }),
    {
        WaitSet {
            find_logs_tail_tick: true,
            log_trim_check_tick: self.log_trim_check_interval.is_some(),
            async_operations: true,
            logs_watcher: true,
            partition_table_watcher: true,
        }
    }

    /// One turn of the leader's loop: what follows the wake-up.
    pub fn run(&self, wakeup: Wakeup) -> (r: LoopStep)
        ensures
            r == spec_on_wakeup(wakeup),
    {
        match wakeup {
            Wakeup::FindLogsTailTick => LoopStep::FindLogsTail,
            Wakeup::LogTrimCheckTick => LoopStep::Emit(LeaderEvent::TrimLogs),
            Wakeup::AsyncOperationsDone { failed } => {
                if failed {
                    LoopStep::Fail
                } else {
                    LoopStep::Continue
                }
            },
            Wakeup::LogsChanged => LoopStep::Emit(LeaderEvent::LogsUpdate),
            Wakeup::PartitionTableChanged => LoopStep::Emit(LeaderEvent::PartitionTableUpdate),
        }
    }

    /// How the leader treats a failure of the work for `leader_event`.
    pub fn on_leader_event(&self, leader_event: LeaderEvent) -> (r: OnFailure)
        ensures
            r == spec_on_failure(leader_event),
    {
        match leader_event {
            LeaderEvent::TrimLogs => OnFailure::Swallow,
            LeaderEvent::LogsUpdate => OnFailure::Propagate,
            LeaderEvent::PartitionTableUpdate => OnFailure::Propagate,
        }
    }
}

impl ClusterControllerState {
    /// What an observation by which this controller leads, or does not,
    /// does to its role.
    pub fn role_change(&self, is_leader: bool) -> (r: RoleChange)
        ensures
            r == spec_role_change(*self is Leader, is_leader),
    {
        match (is_leader, self) {
            (true, ClusterControllerState::Leader(_)) => RoleChange::Unchanged,
            (false, ClusterControllerState::Follower) => RoleChange::Unchanged,
            (true, ClusterControllerState::Follower) => RoleChange::BecomeLeader,
            (false, ClusterControllerState::Leader(_)) => RoleChange::BecomeFollower,
        }
    }

    /// Takes the role that the observation asks for, whatever the role
    /// before. A controller that takes the lead starts from `leader`; one
    /// that keeps its role keeps its settings.
    pub fn update(&mut self, is_leader: bool, leader: Leader) -> (r: RoleChange)
        ensures
            r == spec_role_change(*old(self) is Leader, is_leader),
            *final(self) is Leader <==> is_leader,
            r is Unchanged ==> *final(self) == *old(self),
            r is BecomeLeader ==> *final(self) == ClusterControllerState::Leader(leader),
    {
        let change = self.role_change(is_leader);
        match change {
            RoleChange::Unchanged => {},
            RoleChange::BecomeLeader => {
                *self = ClusterControllerState::Leader(leader);
            },
            RoleChange::BecomeFollower => {
                *self = ClusterControllerState::Follower;
            },
        }
        change
    }

    /// How a failure of the work for `leader_event` is treated; a follower
    /// does no work for it.
    pub fn on_leader_event(&self, leader_event: LeaderEvent) -> (r: Option<OnFailure>)
        ensures
            r == match *self {
                ClusterControllerState::Follower => None::<OnFailure>,
                ClusterControllerState::Leader(_) => Some(spec_on_failure(leader_event)),
            },
    {
        match self {
            ClusterControllerState::Follower => None,
            ClusterControllerState::Leader(leader) => Some(leader.on_leader_event(leader_event)),
        }
    }

    /// What the loop waits for: a follower waits for nothing and so never
    /// wakes.
    pub fn wait_set(&self) -> (r: WaitSet)
        ensures
            *self is Follower ==> r == (WaitSet {
                find_logs_tail_tick: false,
                log_trim_check_tick: false,
                async_operations: false,
                logs_watcher: false,
                partition_table_watcher: false,
            }),
            *self matches ClusterControllerState::Leader(leader) ==> r == (WaitSet {
                find_logs_tail_tick: true,
                log_trim_check_tick: leader.log_trim_check_interval is Some,
                async_operations: true,
                logs_watcher: true,
                partition_table_watcher: true,
            }),
    {
        match self {
            ClusterControllerState::Follower => WaitSet {
                find_logs_tail_tick: false,
                log_trim_check_tick: false,
                async_operations: false,
                logs_watcher: false,
                partition_table_watcher: false,
            },
            ClusterControllerState::Leader(leader) => leader.wait_set(),
        }
    }

    /// One turn of the loop: what follows the wake-up. A follower goes on
    /// waiting whatever woke it.
    pub fn run(&self, wakeup: Wakeup) -> (r: LoopStep)
        ensures
            r == match *self {
                ClusterControllerState::Follower => LoopStep::Continue,
                ClusterControllerState::Leader(_) => spec_on_wakeup(wakeup),
            },
    {
        match self {
            ClusterControllerState::Follower => LoopStep::Continue,
            ClusterControllerState::Leader(leader) => leader.run(wakeup),
        }
    }

    /// Whether a new observation of the cluster is passed on to the logs
    /// controller and the scheduler: only a leader passes it on.
    pub fn on_observed_cluster_state(&self) -> (r: bool)
        ensures
            r == (*self is Leader),
    {
        match self {
            ClusterControllerState::Follower => false,
            ClusterControllerState::Leader(_) => true,
        }
    }

    /// Takes over the trim settings of `configuration`; a follower has none.
    pub fn reconfigure(&mut self, configuration: &AdminOptions)
        ensures
            *final(self) == match *old(self) {
                ClusterControllerState::Follower => ClusterControllerState::Follower,
                ClusterControllerState::Leader(leader) => ClusterControllerState::Leader(
                    spec_reconfigured(leader, *configuration),
                ),
            },
    {
        match self {
            ClusterControllerState::Follower => {},
            ClusterControllerState::Leader(leader) => {
                leader.reconfigure(configuration);
            },
        }
    }
}

} // verus!
