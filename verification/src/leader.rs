//! Who leads the cluster controllers, and what the leader does when.
//!
//! Every controller applies the same rule to what it observes: the alive
//! admin node with the least identity leads. No message is exchanged, so two
//! controllers agree as soon as they observe the same liveness.

use crate::identifiers::GenerationalNodeId;
use itertools::Itertools;
use std::collections::HashMap;
use vstd::prelude::*;

verus! {

/// What a leading controller has to do next. Each of these changes state
/// that others can see, and is carried out to its end before the leader
/// waits again.
#[derive(Clone, Copy, Debug, PartialEq, Eq, Structural)]
pub enum LeaderEvent {
    TrimLogs,
    LogsUpdate,
    PartitionTableUpdate,
}

/// Which nodes were last seen alive: for each, by its plain identity, the
/// incarnation that answered.
pub struct ObservedClusterState {
    pub alive_nodes: HashMap<u32, GenerationalNodeId>,
}

impl ObservedClusterState {
    /// The incarnation `node` was seen alive.
    pub open spec fn spec_is_node_alive(&self, node: GenerationalNodeId) -> bool {
        self.alive_nodes@.contains_key(node.id) && self.alive_nodes@[node.id] == node
    }

    /// Whether the incarnation `node` was seen alive. An older or newer
    /// incarnation of the same node does not count.
    pub fn is_node_alive(&self, node: GenerationalNodeId) -> (r: bool)
        ensures
            r == self.spec_is_node_alive(node),
    {
        match self.alive_nodes.get(&node.id) {
            Some(seen) => *seen == node,
            None => false,
        }
    }
}

/// `node` is one of the admin nodes and was seen alive.
pub open spec fn is_alive_admin(
    admin_nodes: Seq<GenerationalNodeId>,
    observed: ObservedClusterState,
    node: GenerationalNodeId,
) -> bool {
    admin_nodes.contains(node) && observed.spec_is_node_alive(node)
}

/// `leader` is the least of the alive admin nodes.
pub open spec fn is_designated_leader(
    admin_nodes: Seq<GenerationalNodeId>,
    observed: ObservedClusterState,
    leader: GenerationalNodeId,
) -> bool {
    &&& is_alive_admin(admin_nodes, observed, leader)
    &&& forall|node: GenerationalNodeId| #[trigger]
        is_alive_admin(admin_nodes, observed, node) ==> leader.spec_le(node)
}

/// Whether a node that found `designated` to be the designated leader leads
/// itself: it leads if the designated leader has its plain identity,
/// whatever the generation. Where no admin node is alive, every node takes
/// the lead.
pub open spec fn spec_is_leader(designated: Option<GenerationalNodeId>, me: GenerationalNodeId)
    -> bool {
    match designated {
        None => true,
        Some(leader) => leader.id == me.id,
    }
}

/// Whether the node `me` leads on this observation: no admin node is alive,
/// or the least alive admin node has the plain identity of `me`.
pub open spec fn spec_leads(
    admin_nodes: Seq<GenerationalNodeId>,
    observed: ObservedClusterState,
    me: GenerationalNodeId,
) -> bool {
    ||| forall|node: GenerationalNodeId| !is_alive_admin(admin_nodes, observed, node)
    ||| exists|leader: GenerationalNodeId|
        is_designated_leader(admin_nodes, observed, leader) && leader.id == me.id
}

/// The order of pairs of integers: by the first, then by the second.
pub open spec fn pair_le(a: (u32, u32), b: (u32, u32)) -> bool {
    a.0 < b.0 || (a.0 == b.0 && a.1 <= b.1)
}

/// Calls `Itertools::sorted` on the pairs and collects what it yields: the
/// same pairs, each as often as before, in ascending order. Pairs of
/// integers are ordered by their first component, then by their second.
#[verifier::external_body]
fn sorted_ascending(ids: Vec<(u32, u32)>) -> (r: Vec<(u32, u32)>)
    ensures
        r@.to_multiset() == ids@.to_multiset(),
        forall|i: int, j: int| 0 <= i < j < r@.len() ==> pair_le(r@[i], r@[j]),
{
    ids.into_iter().sorted().collect()
}

/// The designated leader: the least of the admin nodes that were seen alive,
/// if there is one. `admin_nodes` holds the current incarnation of every node
/// with the admin role, in any order.
pub fn designated_leader(admin_nodes: &Vec<GenerationalNodeId>, observed: &ObservedClusterState)
    -> (r: Option<GenerationalNodeId>)
    ensures
        match r {
            Some(leader) => is_designated_leader(admin_nodes@, *observed, leader),
            None => forall|node: GenerationalNodeId|
                !is_alive_admin(admin_nodes@, *observed, node),
        },
{
    let mut alive: Vec<(u32, u32)> = Vec::new();
    let mut i: usize = 0;
    while i < admin_nodes.len()
        invariant
            i <= admin_nodes.len(),
            forall|k: int|
                0 <= k < alive@.len() ==> is_alive_admin(
                    admin_nodes@,
                    *observed,
                    GenerationalNodeId { id: (#[trigger] alive@[k]).0, generation: alive@[k].1 },
                ),
            forall|j: int|
                0 <= j < i && observed.spec_is_node_alive(#[trigger] admin_nodes@[j])
                    ==> alive@.contains((admin_nodes@[j].id, admin_nodes@[j].generation)),
        decreases admin_nodes.len() - i,
    {
        let node = admin_nodes[i];
        let ghost before = alive@;
        if observed.is_node_alive(node) {
            alive.push((node.id, node.generation));
            proof {
                assert(alive@[before.len() as int] == (node.id, node.generation));
                assert(admin_nodes@.contains(node));
                assert forall|j: int|
                    0 <= j < i + 1 && observed.spec_is_node_alive(
                        #[trigger] admin_nodes@[j],
                    ) implies alive@.contains(
                    (admin_nodes@[j].id, admin_nodes@[j].generation),
                ) by {
                    if j < i {
                        let k = choose|k: int|
                            0 <= k < before.len() && before[k] == (
                                admin_nodes@[j].id,
                                admin_nodes@[j].generation,
                            );
                        assert(alive@[k] == before[k]);
                    }
                }
            }
        }
        i += 1;
    }
    let ghost unsorted = alive@;
    let sorted = sorted_ascending(alive);
    proof {
        vstd::seq_lib::to_multiset_len(unsorted);
        vstd::seq_lib::to_multiset_len(sorted@);
        assert forall|pair: (u32, u32)| sorted@.contains(pair) == unsorted.contains(pair) by {
            vstd::seq_lib::to_multiset_contains(unsorted, pair);
            vstd::seq_lib::to_multiset_contains(sorted@, pair);
        }
    }
    if sorted.len() == 0 {
        proof {
            assert forall|node: GenerationalNodeId|
                !is_alive_admin(admin_nodes@, *observed, node) by {
                if is_alive_admin(admin_nodes@, *observed, node) {
                    let j = choose|j: int|
                        0 <= j < admin_nodes@.len() && admin_nodes@[j] == node;
                    assert(unsorted.contains((admin_nodes@[j].id, admin_nodes@[j].generation)));
                }
            }
        }
        None
    } else {
        let first = sorted[0];
        let leader = GenerationalNodeId::new(first.0, first.1);
        proof {
            assert(sorted@[0] == first);
            assert(sorted@.contains(first));
            assert(unsorted.contains(first));
            let k = choose|k: int| 0 <= k < unsorted.len() && unsorted[k] == first;
            assert(is_alive_admin(
                admin_nodes@,
                *observed,
                GenerationalNodeId { id: unsorted[k].0, generation: unsorted[k].1 },
            ));
            assert forall|node: GenerationalNodeId| #[trigger]
                is_alive_admin(admin_nodes@, *observed, node) implies leader.spec_le(node) by {
                let j = choose|j: int| 0 <= j < admin_nodes@.len() && admin_nodes@[j] == node;
                let pair = (node.id, node.generation);
                assert(unsorted.contains((admin_nodes@[j].id, admin_nodes@[j].generation)));
                assert(sorted@.contains(pair));
                let m = choose|m: int| 0 <= m < sorted@.len() && sorted@[m] == pair;
                if m > 0 {
                    assert(pair_le(sorted@[0], sorted@[m]));
                }
            }
        }
        Some(leader)
    }
}

/// Whether the node `me` leads, given the designated leader.
pub fn is_leader(designated: Option<GenerationalNodeId>, me: GenerationalNodeId) -> (r: bool)
    ensures
        r == spec_is_leader(designated, me),
{
    match designated {
        None => true,
        Some(leader) => leader.id == me.id,
    }
}

/// Whether the node `me` leads on this observation. `admin_nodes` holds the
/// current incarnation of every node with the admin role, in any order.
pub fn leads(
    admin_nodes: &Vec<GenerationalNodeId>,
    observed: &ObservedClusterState,
    me: GenerationalNodeId,
) -> (r: bool)
    ensures
        r == spec_leads(admin_nodes@, *observed, me),
{
    let designated = designated_leader(admin_nodes, observed);
    proof {
        match designated {
            Some(leader) => {
                assert(is_alive_admin(admin_nodes@, *observed, leader));
                assert forall|other: GenerationalNodeId|
                    is_designated_leader(admin_nodes@, *observed, other) implies other
                    == leader by {
                    lemma_designated_leader_unique(admin_nodes@, *observed, other, leader);
                }
            },
            None => {},
        }
    }
    is_leader(designated, me)
}

/// There is at most one designated leader.
pub proof fn lemma_designated_leader_unique(
    admin_nodes: Seq<GenerationalNodeId>,
    observed: ObservedClusterState,
    a: GenerationalNodeId,
    b: GenerationalNodeId,
)
    requires
        is_designated_leader(admin_nodes, observed, a),
        is_designated_leader(admin_nodes, observed, b),
    ensures
        a == b,
{
}

/// The designated leader does not depend on the order in which the admin
/// nodes are listed, nor on how often one is listed.
pub proof fn lemma_designated_leader_ignores_order(
    admin_nodes: Seq<GenerationalNodeId>,
    reordered: Seq<GenerationalNodeId>,
    observed: ObservedClusterState,
    leader: GenerationalNodeId,
)
    requires
        forall|node: GenerationalNodeId| admin_nodes.contains(node) == reordered.contains(node),
    ensures
        is_designated_leader(admin_nodes, observed, leader) == is_designated_leader(
            reordered,
            observed,
            leader,
        ),
{
    assert forall|node: GenerationalNodeId|
        is_alive_admin(admin_nodes, observed, node) == is_alive_admin(
            reordered,
            observed,
            node,
        ) by {}
}

/// Among the nodes that make the same observation, and see some admin node
/// alive, at most one leads: two that lead have the same plain identity.
pub proof fn lemma_at_most_one_leader(
    admin_nodes: Seq<GenerationalNodeId>,
    observed: ObservedClusterState,
    a: GenerationalNodeId,
    b: GenerationalNodeId,
)
    requires
        exists|node: GenerationalNodeId| is_alive_admin(admin_nodes, observed, node),
        spec_leads(admin_nodes, observed, a),
        spec_leads(admin_nodes, observed, b),
    ensures
        a.id == b.id,
{
    let leader_a = choose|leader: GenerationalNodeId|
        is_designated_leader(admin_nodes, observed, leader) && leader.id == a.id;
    let leader_b = choose|leader: GenerationalNodeId|
        is_designated_leader(admin_nodes, observed, leader) && leader.id == b.id;
    lemma_designated_leader_unique(admin_nodes, observed, leader_a, leader_b);
}

/// Whether a node leads depends on its plain identity alone, not on its
/// generation.
pub proof fn lemma_leading_ignores_generation(
    admin_nodes: Seq<GenerationalNodeId>,
    observed: ObservedClusterState,
    a: GenerationalNodeId,
    b: GenerationalNodeId,
)
    requires
        a.id == b.id,
    ensures
        spec_leads(admin_nodes, observed, a) == spec_leads(admin_nodes, observed, b),
{
    if exists|leader: GenerationalNodeId|
        is_designated_leader(admin_nodes, observed, leader) && leader.id == a.id {
        let leader = choose|leader: GenerationalNodeId|
            is_designated_leader(admin_nodes, observed, leader) && leader.id == a.id;
        assert(is_designated_leader(admin_nodes, observed, leader) && leader.id == b.id);
    }
    if exists|leader: GenerationalNodeId|
        is_designated_leader(admin_nodes, observed, leader) && leader.id == b.id {
        let leader = choose|leader: GenerationalNodeId|
            is_designated_leader(admin_nodes, observed, leader) && leader.id == b.id;
        assert(is_designated_leader(admin_nodes, observed, leader) && leader.id == a.id);
    }
}

} // verus!
