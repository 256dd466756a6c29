//! Failure recovery: detection of newly failed nodes, planning of recovery
//! actions for the shards they held, and execution of the plan. The periodic
//! loops that drive these steps run outside the library.

use vstd::prelude::*;
use std::sync::Arc;
use crate::distributed_topology::NodeId;
use crate::distributed_shard::{ShardManager, ShardId, ShardAssignment, holds_shard};
use crate::distributed_partition::PartitionManager;
use crate::table::{Table, keys_unique};

verus! {

/// Recovery action type.
#[derive(Debug, Clone, Copy, PartialEq, Eq, Structural)]
pub enum RecoveryAction {
    /// Promote replica to primary
    PromoteReplica { shard_id: ShardId, old_primary: NodeId, new_primary: NodeId },
    /// Create new replica
    CreateReplica { shard_id: ShardId, source_node: NodeId, target_node: NodeId },
    /// Remove failed replica
    RemoveReplica { shard_id: ShardId, failed_node: NodeId },
    /// Rebalance shard
    RebalanceShard { shard_id: ShardId, from_node: NodeId, to_node: NodeId },
}

/// Recovery state.
#[derive(Debug, Clone, Copy, PartialEq, Eq, Structural)]
pub enum RecoveryState {
    /// Monitoring for failures
    Monitoring,
    /// Failure detected, planning recovery
    Planning,
    /// Executing recovery actions
    Recovering,
    /// Recovery complete
    Recovered,
    /// Recovery failed
    Failed,
}

/// Failure recovery manager.
pub struct FailureRecoveryManager {
    /// This node's ID
    local_id: NodeId,
    /// Shard manager
    shard_manager: Arc<ShardManager>,
    /// Partition manager
    partition_manager: Arc<PartitionManager>,
    /// Current recovery state
    state: RecoveryState,
    /// Pending recovery actions
    pending_actions: Vec<RecoveryAction>,
    /// Completed recovery actions
    completed_actions: Vec<RecoveryAction>,
    /// Failed nodes
    failed_nodes: Table<NodeId, ()>,
    /// Health check interval in seconds
    check_interval_secs: u64,
    /// Minimum replicas to maintain
    min_replicas: usize,
}

impl FailureRecoveryManager {
    pub closed spec fn wf(&self) -> bool {
        &&& self.shard_manager.wf()
        &&& self.partition_manager.wf()
        &&& self.failed_nodes.wf()
    }

    pub closed spec fn local_id_spec(&self) -> NodeId { self.local_id }
    pub closed spec fn state_spec(&self) -> RecoveryState { self.state }
    pub closed spec fn pending(&self) -> Seq<RecoveryAction> { self.pending_actions@ }
    pub closed spec fn completed(&self) -> Seq<RecoveryAction> { self.completed_actions@ }
    pub closed spec fn failed(&self) -> Set<NodeId> { self.failed_nodes.view().dom() }
    pub closed spec fn shards(&self) -> ShardManager { *self.shard_manager }
    pub closed spec fn partitions(&self) -> PartitionManager { *self.partition_manager }
    pub closed spec fn min_replicas_spec(&self) -> usize { self.min_replicas }
    pub closed spec fn interval_spec(&self) -> u64 { self.check_interval_secs }

    /// A manager that is monitoring, with no failures and no actions.
    pub fn new(
        local_id: NodeId,
        shard_manager: Arc<ShardManager>,
        partition_manager: Arc<PartitionManager>,
        min_replicas: usize,
        check_interval_secs: u64,
    ) -> (r: Self)
        requires
            shard_manager.wf(),
            partition_manager.wf(),
        ensures
            r.wf(),
            r.local_id_spec() == local_id,
            r.state_spec() == RecoveryState::Monitoring,
            r.pending() == Seq::<RecoveryAction>::empty(),
            r.completed() == Seq::<RecoveryAction>::empty(),
            r.failed() == Set::<NodeId>::empty(),
            r.shards() == *shard_manager,
            r.partitions() == *partition_manager,
            r.min_replicas_spec() == min_replicas,
            r.interval_spec() == check_interval_secs,
    {
        let r = Self {
            local_id,
            shard_manager,
            partition_manager,
            state: RecoveryState::Monitoring,
            pending_actions: Vec::new(),
            completed_actions: Vec::new(),
            failed_nodes: Table::new(),
            check_interval_secs,
            min_replicas,
        };
        assert(r.failed() =~= Set::<NodeId>::empty());
        r
    }

    /// Record newly unreachable nodes as failed and plan recovery for them.
    /// With no unreachable node, or no new failure, nothing changes.
    pub fn check_for_failures(&mut self)
        requires
            old(self).wf(),
        ensures
            final(self).wf(),
            final(self).failed() == old(self).failed().union(old(self).partitions().unreachable_set()),
            final(self).failed() == old(self).failed() ==> final(self).pending() == old(self).pending()
                && final(self).state_spec() == old(self).state_spec(),
            final(self).failed() != old(self).failed() ==> final(self).state_spec() == RecoveryState::Recovering,
            final(self).completed() == old(self).completed(),
            final(self).shards() == old(self).shards(),
            final(self).partitions() == old(self).partitions(),
            final(self).local_id_spec() == old(self).local_id_spec(),
            final(self).min_replicas_spec() == old(self).min_replicas_spec(),
    {
        let unreachable_nodes = self.partition_manager.get_unreachable_nodes();
        if unreachable_nodes.len() == 0 {
            proof {
                assert(old(self).partitions().unreachable_set() =~= Set::<NodeId>::empty()) by {
                    assert forall|x: NodeId| !old(self).partitions().unreachable_set().contains(x) by {
                        if old(self).partitions().unreachable_set().contains(x) {
                            assert(unreachable_nodes@.to_set().contains(x));
                        }
                    }
                }
                assert(self.failed().union(Set::<NodeId>::empty()) =~= self.failed());
            }
            return;
        }
        let mut new_failures: Vec<NodeId> = Vec::new();
        let mut i: usize = 0;
        while i < unreachable_nodes.len()
            invariant
                self.wf(),
                i <= unreachable_nodes.len(),
                self.failed() == old(self).failed().union(unreachable_nodes@.subrange(0, i as int).to_set()),
                (self.failed() == old(self).failed()) == (new_failures@.len() == 0),
                self.shard_manager == old(self).shard_manager,
                self.partition_manager == old(self).partition_manager,
                self.pending_actions == old(self).pending_actions,
                self.completed_actions == old(self).completed_actions,
                self.state == old(self).state,
                self.local_id == old(self).local_id,
                self.min_replicas == old(self).min_replicas,
            decreases unreachable_nodes.len() - i,
        {
            let node_id = unreachable_nodes[i];
            let ghost before = self.failed();
            let known = self.failed_nodes.contains_key(&node_id);
            if !known {
                self.failed_nodes.insert(node_id, ());
                new_failures.push(node_id);
            }
            proof {
                let sub1 = unreachable_nodes@.subrange(0, i as int);
                let sub2 = unreachable_nodes@.subrange(0, i + 1);
                assert(sub2.to_set() =~= sub1.to_set().insert(node_id)) by {
                    assert forall|x: NodeId| sub2.to_set().contains(x) <==> sub1.to_set().contains(x) || x == node_id by {
                        if sub2.to_set().contains(x) {
                            let j = choose|j: int| 0 <= j < sub2.len() && sub2[j] == x;
                            if j < i { assert(sub1[j] == x); }
                        }
                        if sub1.to_set().contains(x) {
                            let j = choose|j: int| 0 <= j < sub1.len() && sub1[j] == x;
                            assert(sub2[j] == x);
                        }
                        if x == node_id { assert(sub2[i as int] == x); }
                    }
                }
                assert(self.failed() =~= old(self).failed().union(sub2.to_set()));
                if !known {
                    assert(!before.contains(node_id));
                    assert(self.failed().contains(node_id));
                    if self.failed() == old(self).failed() {
                        assert(old(self).failed().contains(node_id));
                        assert(before.contains(node_id));
                    }
                } else {
                    assert(self.failed() =~= before);
                }
            }
            i = i + 1;
        }
        proof {
            assert(unreachable_nodes@.subrange(0, unreachable_nodes@.len() as int) =~= unreachable_nodes@);
        }
        if new_failures.len() > 0 {
            self.plan_recovery(new_failures);
        }
    }

    /// Plan recovery for failed nodes. For each shard that a failed node
    /// holds: a primary with a replica gets its first replica promoted; a
    /// replica is removed; and if fewer than the minimum of other replicas
    /// survive, a new replica is requested on a reachable node that has not
    /// failed (when there is one). The plan replaces the pending actions and
    /// the state becomes `Recovering`.
    pub fn plan_recovery(&mut self, failed_nodes: Vec<NodeId>)
        requires
            old(self).wf(),
        ensures
            final(self).wf(),
            final(self).state_spec() == RecoveryState::Recovering,
            forall|j: int| 0 <= j < final(self).pending().len() ==> Self::justified(#[trigger] final(self).pending()[j],
                failed_nodes@, old(self).shards().shards_spec(), old(self).partitions(), old(self).failed(), old(self).local_id_spec()),
            forall|n: NodeId, id: ShardId| #![trigger failed_nodes@.contains(n), old(self).shards().shards_spec()[id]]
                failed_nodes@.contains(n) && old(self).shards().shards_spec().contains_key(id)
                && holds_shard(old(self).shards().shards_spec()[id], n)
                ==> Self::covered(final(self).pending(), n, id, old(self).shards().shards_spec()[id]),
            final(self).failed() == old(self).failed(),
            final(self).completed() == old(self).completed(),
            final(self).shards() == old(self).shards(),
            final(self).partitions() == old(self).partitions(),
            final(self).local_id_spec() == old(self).local_id_spec(),
            final(self).min_replicas_spec() == old(self).min_replicas_spec(),
    {
        self.state = RecoveryState::Planning;
        let mut actions: Vec<RecoveryAction> = Vec::new();
        let ghost shards = self.shard_manager.shards_spec();
        let mut f: usize = 0;
        while f < failed_nodes.len()
            invariant
                self.wf(),
                shards == self.shard_manager.shards_spec(),
                self.shard_manager == old(self).shard_manager,
                self.partition_manager == old(self).partition_manager,
                self.failed_nodes == old(self).failed_nodes,
                self.completed_actions == old(self).completed_actions,
                self.local_id == old(self).local_id,
                self.min_replicas == old(self).min_replicas,
                f <= failed_nodes.len(),
                forall|j: int| 0 <= j < actions@.len() ==> Self::justified(#[trigger] actions@[j], failed_nodes@, shards,
                    old(self).partitions(), old(self).failed(), old(self).local_id_spec()),
                forall|fi: int, id: ShardId| 0 <= fi < f && #[trigger] shards.contains_key(id) && holds_shard(shards[id], #[trigger] failed_nodes@[fi])
                    ==> Self::covered(actions@, failed_nodes@[fi], id, shards[id]),
            decreases failed_nodes.len() - f,
        {
            let failed_node = failed_nodes[f];
            let affected_shards = self.shard_manager.get_shards_for_node(failed_node);
            let ghost before_actions = actions@;
            let mut k: usize = 0;
            while k < affected_shards.len()
                invariant
                    self.wf(),
                    shards == self.shard_manager.shards_spec(),
                    self.shard_manager == old(self).shard_manager,
                    self.partition_manager == old(self).partition_manager,
                    self.failed_nodes == old(self).failed_nodes,
                    self.local_id == old(self).local_id,
                    self.min_replicas == old(self).min_replicas,
                    f < failed_nodes.len(),
                    failed_node == failed_nodes@[f as int],
                    k <= affected_shards.len(),
                    forall|j: int| 0 <= j < affected_shards@.len() ==> shards.contains_key(#[trigger] affected_shards@[j].shard_id)
                        && holds_shard(shards[affected_shards@[j].shard_id], failed_node)
                        && affected_shards@[j].replica_nodes@ == shards[affected_shards@[j].shard_id].replica_nodes@
                        && affected_shards@[j].primary_node == shards[affected_shards@[j].shard_id].primary_node,
                    forall|id: ShardId| #[trigger] shards.contains_key(id) && holds_shard(shards[id], failed_node)
                        ==> exists|j: int| 0 <= j < affected_shards@.len() && affected_shards@[j].shard_id == id,
                    forall|j: int| 0 <= j < actions@.len() ==> Self::justified(#[trigger] actions@[j], failed_nodes@, shards,
                        old(self).partitions(), old(self).failed(), old(self).local_id_spec()),
                    forall|j: int| 0 <= j < before_actions.len() ==> actions@[j] == before_actions[j],
                    before_actions.len() <= actions@.len(),
                    forall|j: int| 0 <= j < k ==> Self::covered(actions@, failed_node,
                        (#[trigger] affected_shards@[j]).shard_id, shards[affected_shards@[j].shard_id]),
                decreases affected_shards.len() - k,
            {
                let shard = &affected_shards[k];
                let ghost before_k = actions@;
                if shard.primary_node == failed_node {
                    if shard.replica_nodes.len() > 0 {
                        let new_primary = shard.replica_nodes[0];
                        actions.push(RecoveryAction::PromoteReplica {
                            shard_id: shard.shard_id,
                            old_primary: failed_node,
                            new_primary,
                        });
                    }
                } else {
                    actions.push(RecoveryAction::RemoveReplica { shard_id: shard.shard_id, failed_node });
                }
                let mut current_replicas: usize = 0;
                let mut r: usize = 0;
                while r < shard.replica_nodes.len()
                    invariant
                        r <= shard.replica_nodes.len(),
                        current_replicas <= r,
                    decreases shard.replica_nodes.len() - r,
                {
                    if shard.replica_nodes[r] != failed_node {
                        current_replicas = current_replicas + 1;
                    }
                    r = r + 1;
                }
                if current_replicas < self.min_replicas {
                    if let Some(target_node) = self.find_replication_target(shard.shard_id) {
                        actions.push(RecoveryAction::CreateReplica {
                            shard_id: shard.shard_id,
                            source_node: shard.primary_node,
                            target_node,
                        });
                    }
                }
                proof {
                    assert forall|j: int| 0 <= j < before_k.len() implies actions@[j] == before_k[j] by {}
                    let id = shard.shard_id;
                    if shard.primary_node == failed_node && shard.replica_nodes@.len() > 0 {
                        assert(actions@[before_k.len() as int] == RecoveryAction::PromoteReplica {
                            shard_id: id, old_primary: failed_node, new_primary: shards[id].replica_nodes@[0] });
                    }
                    if shard.primary_node != failed_node {
                        assert(actions@[before_k.len() as int] == RecoveryAction::RemoveReplica { shard_id: id, failed_node });
                    }
                    assert forall|j: int| 0 <= j < k + 1 implies Self::covered(actions@, failed_node,
                        (#[trigger] affected_shards@[j]).shard_id, shards[affected_shards@[j].shard_id]) by {
                        if j < k {
                            let a = shards[affected_shards@[j].shard_id];
                            if a.primary_node == failed_node && a.replica_nodes@.len() > 0 {
                                let w = choose|w: int| 0 <= w < before_k.len() && before_k[w] == RecoveryAction::PromoteReplica {
                                    shard_id: affected_shards@[j].shard_id, old_primary: failed_node, new_primary: a.replica_nodes@[0] };
                                assert(actions@[w] == before_k[w]);
                            }
                            if a.primary_node != failed_node {
                                let w = choose|w: int| 0 <= w < before_k.len() && before_k[w] == RecoveryAction::RemoveReplica {
                                    shard_id: affected_shards@[j].shard_id, failed_node };
                                assert(actions@[w] == before_k[w]);
                            }
                        }
                    }
                    assert forall|j: int| 0 <= j < actions@.len() implies Self::justified(#[trigger] actions@[j], failed_nodes@, shards,
                        old(self).partitions(), old(self).failed(), old(self).local_id_spec()) by {
                        if j >= before_k.len() {
                            assert(failed_nodes@[f as int] == failed_node);
                        }
                    }
                }
                k = k + 1;
            }
            proof {
                assert forall|fi: int, id: ShardId| 0 <= fi < f + 1 && #[trigger] shards.contains_key(id) && holds_shard(shards[id], #[trigger] failed_nodes@[fi])
                    implies Self::covered(actions@, failed_nodes@[fi], id, shards[id]) by {
                    if fi < f {
                        let a = shards[id];
                        let n = failed_nodes@[fi];
                        if a.primary_node == n && a.replica_nodes@.len() > 0 {
                            let w = choose|w: int| 0 <= w < before_actions.len() && before_actions[w] == RecoveryAction::PromoteReplica {
                                shard_id: id, old_primary: n, new_primary: a.replica_nodes@[0] };
                            assert(actions@[w] == before_actions[w]);
                        }
                        if a.primary_node != n {
                            let w = choose|w: int| 0 <= w < before_actions.len() && before_actions[w] == RecoveryAction::RemoveReplica {
                                shard_id: id, failed_node: n };
                            assert(actions@[w] == before_actions[w]);
                        }
                    } else {
                        let j = choose|j: int| 0 <= j < affected_shards@.len() && affected_shards@[j].shard_id == id;
                        assert(Self::covered(actions@, failed_node, affected_shards@[j].shard_id, shards[affected_shards@[j].shard_id]));
                    }
                }
            }
            f = f + 1;
        }
        self.pending_actions = actions;
        self.state = RecoveryState::Recovering;
        proof {
            assert forall|n: NodeId, id: ShardId| #![trigger failed_nodes@.contains(n), shards[id]]
                failed_nodes@.contains(n) && shards.contains_key(id) && holds_shard(shards[id], n)
                implies Self::covered(self.pending_actions@, n, id, shards[id]) by {
                let fi = choose|fi: int| 0 <= fi < failed_nodes@.len() && failed_nodes@[fi] == n;
                assert(holds_shard(shards[id], failed_nodes@[fi]));
            }
        }
    }

    /// Whether an action is justified by the failures and the shard table.
    pub open spec fn justified(
        a: RecoveryAction,
        failed: Seq<NodeId>,
        shards: Map<ShardId, ShardAssignment>,
        pm: PartitionManager,
        known_failed: Set<NodeId>,
        local: NodeId,
    ) -> bool {
        match a {
            RecoveryAction::PromoteReplica { shard_id, old_primary, new_primary } =>
                failed.contains(old_primary) && shards.contains_key(shard_id)
                    && shards[shard_id].primary_node == old_primary
                    && shards[shard_id].replica_nodes@.len() > 0
                    && new_primary == shards[shard_id].replica_nodes@[0],
            RecoveryAction::RemoveReplica { shard_id, failed_node } =>
                failed.contains(failed_node) && shards.contains_key(shard_id)
                    && shards[shard_id].primary_node != failed_node
                    && shards[shard_id].replica_nodes@.contains(failed_node),
            RecoveryAction::CreateReplica { shard_id, source_node, target_node } =>
                shards.contains_key(shard_id) && source_node == shards[shard_id].primary_node
                    && pm.partition().contains(target_node) && !known_failed.contains(target_node)
                    && target_node != local,
            RecoveryAction::RebalanceShard { .. } => false,
        }
    }

    /// Whether the actions promote or remove as the failure of `n` on shard
    /// `id` (held as `a`) asks.
    pub open spec fn covered(actions: Seq<RecoveryAction>, n: NodeId, id: ShardId, a: ShardAssignment) -> bool {
        &&& a.primary_node == n && a.replica_nodes@.len() > 0 ==> actions.contains(
            RecoveryAction::PromoteReplica { shard_id: id, old_primary: n, new_primary: a.replica_nodes@[0] })
        &&& a.primary_node != n ==> actions.contains(RecoveryAction::RemoveReplica { shard_id: id, failed_node: n })
    }

    /// A reachable node, not failed and not this node, to hold a new
    /// replica; none if there is no such node.
    pub fn find_replication_target(&self, _shard_id: ShardId) -> (r: Option<NodeId>)
        requires
            self.wf(),
        ensures
            r matches Some(t) ==> self.partitions().partition().contains(t) && !self.failed().contains(t) && t != self.local_id_spec(),
            r is None ==> forall|t: NodeId| self.partitions().partition().contains(t) ==> self.failed().contains(t) || t == self.local_id_spec(),
    {
        let reachable_nodes = self.partition_manager.get_our_partition();
        let mut i: usize = 0;
        while i < reachable_nodes.len()
            invariant
                self.wf(),
                reachable_nodes@.to_set() == self.partitions().partition(),
                i <= reachable_nodes.len(),
                forall|j: int| 0 <= j < i ==> self.failed().contains(#[trigger] reachable_nodes@[j]) || reachable_nodes@[j] == self.local_id,
            decreases reachable_nodes.len() - i,
        {
            let id = reachable_nodes[i];
            if !self.failed_nodes.contains_key(&id) && id != self.local_id {
                proof { assert(reachable_nodes@.to_set().contains(id)); }
                return Some(id);
            }
            i = i + 1;
        }
        proof {
            assert forall|t: NodeId| self.partitions().partition().contains(t) implies self.failed().contains(t) || t == self.local_id_spec() by {
                assert(reachable_nodes@.to_set().contains(t));
                let j = choose|j: int| 0 <= j < reachable_nodes@.len() && reachable_nodes@[j] == t;
            }
        }
        None
    }

    /// Execute one recovery action. Every action completes.
    fn execute_action(&self, action: &RecoveryAction) -> (r: Result<(), String>)
        ensures
            r is Ok,
    {
        match action {
            RecoveryAction::PromoteReplica { .. } => Ok(()),
            RecoveryAction::CreateReplica { .. } => Ok(()),
            RecoveryAction::RemoveReplica { .. } => Ok(()),
            RecoveryAction::RebalanceShard { .. } => Ok(()),
        }
    }

    /// Execute the pending actions: each completes, moves to the completed
    /// actions, and the state becomes `Recovered`.
    pub fn execute_recovery_actions(&mut self)
        requires
            old(self).wf(),
        ensures
            final(self).wf(),
            final(self).state_spec() == RecoveryState::Recovered,
            final(self).pending() == Seq::<RecoveryAction>::empty(),
            final(self).completed() == old(self).completed() + old(self).pending(),
            final(self).failed() == old(self).failed(),
            final(self).shards() == old(self).shards(),
            final(self).partitions() == old(self).partitions(),
            final(self).local_id_spec() == old(self).local_id_spec(),
            final(self).min_replicas_spec() == old(self).min_replicas_spec(),
    {
        if self.pending_actions.len() == 0 {
            self.state = RecoveryState::Recovered;
            assert(old(self).completed() + old(self).pending() =~= old(self).completed());
            return;
        }
        let mut completed: Vec<RecoveryAction> = Vec::new();
        let mut remaining: Vec<RecoveryAction> = Vec::new();
        let mut i: usize = 0;
        while i < self.pending_actions.len()
            invariant
                self == old(self),
                i <= self.pending_actions.len(),
                completed@.len() + remaining@.len() == i,
                forall|j: int| 0 <= j < completed@.len() ==> completed@[j] == self.pending_actions@[j],
                completed@.len() == i,
                remaining@.len() == 0,
            decreases self.pending_actions.len() - i,
        {
            let action = self.pending_actions[i];
            match self.execute_action(&action) {
                Ok(_) => {
                    completed.push(action);
                },
                Err(_) => {
                    remaining.push(action);
                },
            }
            i = i + 1;
        }
        self.pending_actions = remaining;
        let mut j: usize = 0;
        let ghost base = self.completed_actions@;
        while j < completed.len()
            invariant
                j <= completed.len(),
                self.completed_actions@ == base + completed@.subrange(0, j as int),
                self.pending_actions@.len() == 0,
                self.failed_nodes == old(self).failed_nodes,
                self.shard_manager == old(self).shard_manager,
                self.partition_manager == old(self).partition_manager,
                self.local_id == old(self).local_id,
                self.min_replicas == old(self).min_replicas,
                self.wf(),
            decreases completed.len() - j,
        {
            self.completed_actions.push(completed[j]);
            proof {
                assert(self.completed_actions@ =~= base + completed@.subrange(0, j + 1));
            }
            j = j + 1;
        }
        proof {
            assert(completed@ =~= old(self).pending());
            assert(completed@.subrange(0, completed@.len() as int) =~= completed@);
        }
        if self.pending_actions.len() == 0 {
            self.state = RecoveryState::Recovered;
        }
    }

    /// Mark a node as recovered: it is no longer failed.
    pub fn mark_recovered(&mut self, node_id: NodeId)
        requires
            old(self).wf(),
        ensures
            final(self).wf(),
            final(self).failed() == old(self).failed().remove(node_id),
            final(self).state_spec() == old(self).state_spec(),
            final(self).pending() == old(self).pending(),
            final(self).completed() == old(self).completed(),
    {
        let _ = self.failed_nodes.remove(&node_id);
        assert(self.failed() =~= old(self).failed().remove(node_id));
    }

    /// The current recovery state.
    pub fn get_state(&self) -> (r: RecoveryState)
        ensures
            r == self.state_spec(),
    {
        self.state
    }

    /// Counts of failed nodes and actions.
    pub fn get_statistics(&self) -> (r: RecoveryStats)
        requires
            self.wf(),
        ensures
            r.state == self.state_spec(),
            r.failed_nodes == self.failed().len(),
            r.pending_actions == self.pending().len(),
            r.completed_actions == self.completed().len(),
    {
        RecoveryStats {
            state: self.state,
            failed_nodes: self.failed_nodes.len(),
            pending_actions: self.pending_actions.len(),
            completed_actions: self.completed_actions.len(),
        }
    }
}

/// Recovery statistics.
#[derive(Debug, Clone, Copy)]
pub struct RecoveryStats {
    pub state: RecoveryState,
    pub failed_nodes: usize,
    pub pending_actions: usize,
    pub completed_actions: usize,
}

} // verus!
