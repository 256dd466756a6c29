//! Network partition handling: node health tracking, partition detection,
//! majority quorum and read/write consistency checks.

use vstd::prelude::*;
use std::sync::Arc;
use crate::clock::current_timestamp;
use crate::distributed_topology::NodeId;
use crate::table::{Table, map_count_where, lemma_count_where, count_where, keys_unique};
use crate::text::{decimal, usize_to_string, concat2, concat3};
use vstd::string::StringExecFns;

verus! {

/// Partition detection state.
#[derive(Debug, Clone, Copy, PartialEq, Eq, Structural)]
pub enum PartitionState {
    /// Normal operation: every known node is reachable
    Healthy,
    /// Partition detected
    Partitioned,
    /// Partition healing in progress
    Healing,
}

/// Consistency level for operations.
#[derive(Debug, Clone, Copy, PartialEq, Eq, Structural)]
pub enum ConsistencyLevel {
    /// Must reach a majority of the replicas
    Quorum,
    /// Must reach all replicas
    All,
    /// Can succeed with any node
    One,
    /// Local node only
    Local,
}

/// The number of nodes that a consistency level asks for.
pub open spec fn required_nodes_spec(level: ConsistencyLevel, replication_factor: usize) -> nat {
    match level {
        ConsistencyLevel::Quorum => (replication_factor / 2 + 1) as nat,
        ConsistencyLevel::All => replication_factor as nat,
        ConsistencyLevel::One => 1,
        ConsistencyLevel::Local => 1,
    }
}

/// The name of a consistency level, as `Debug` prints it.
pub open spec fn consistency_name(level: ConsistencyLevel) -> Seq<char> {
    match level {
        ConsistencyLevel::Quorum => "Quorum"@,
        ConsistencyLevel::All => "All"@,
        ConsistencyLevel::One => "One"@,
        ConsistencyLevel::Local => "Local"@,
    }
}

impl ConsistencyLevel {
    /// The number of nodes this level needs; the total node count does not
    /// enter into it.
    pub fn required_nodes(&self, total_nodes: usize, replication_factor: usize) -> (r: usize)
        ensures
            r == required_nodes_spec(*self, replication_factor),
    {
        match self {
            ConsistencyLevel::Quorum => (replication_factor / 2) + 1,
            ConsistencyLevel::All => replication_factor,
            ConsistencyLevel::One => 1,
            ConsistencyLevel::Local => 1,
        }
    }

    /// The name of the level.
    pub fn name(&self) -> (r: &'static str)
        ensures
            r@ == consistency_name(*self),
    {
        match self {
            ConsistencyLevel::Quorum => "Quorum",
            ConsistencyLevel::All => "All",
            ConsistencyLevel::One => "One",
            ConsistencyLevel::Local => "Local",
        }
    }
}

/// Health status of a node.
#[derive(Debug, Clone, Copy)]
pub struct NodeHealth {
    pub node_id: NodeId,
    /// Unix timestamp of the last successful contact
    pub last_seen: u64,
    pub is_reachable: bool,
    pub consecutive_failures: usize,
}

/// Holds of the health of an unreachable node.
pub open spec fn unreachable_pred() -> spec_fn(NodeHealth) -> bool {
    |h: NodeHealth| !h.is_reachable
}

/// The majority of a cluster of `total` nodes.
pub open spec fn majority(total: usize) -> nat {
    (total / 2 + 1) as nat
}

/// Partition detector and handler.
pub struct PartitionManager {
    /// This node's ID
    local_id: NodeId,
    /// Current partition state
    state: PartitionState,
    /// Health status of all registered nodes
    node_health: Table<NodeId, NodeHealth>,
    /// Nodes in our partition
    our_partition: Table<NodeId, ()>,
    /// Total number of nodes in the cluster
    total_nodes: usize,
    /// Replication factor
    replication_factor: usize,
    /// Health check interval in seconds
    health_check_interval_secs: u64,
    /// Consecutive failures before a node is marked unreachable
    failure_threshold: usize,
}

impl PartitionManager {
    pub closed spec fn wf(&self) -> bool {
        &&& self.node_health.wf()
        &&& self.our_partition.wf()
        &&& forall|k: NodeId| #[trigger] self.node_health.view().contains_key(k) ==> self.node_health.view()[k].node_id == k
    }

    pub closed spec fn local_id_spec(&self) -> NodeId { self.local_id }
    pub closed spec fn state_spec(&self) -> PartitionState { self.state }
    /// The health of each registered node.
    pub closed spec fn health(&self) -> Map<NodeId, NodeHealth> { self.node_health.view() }
    /// The nodes of our partition.
    pub closed spec fn partition(&self) -> Set<NodeId> { self.our_partition.view().dom() }
    pub closed spec fn total_nodes_spec(&self) -> usize { self.total_nodes }
    pub closed spec fn replication_factor_spec(&self) -> usize { self.replication_factor }
    pub closed spec fn failure_threshold_spec(&self) -> usize { self.failure_threshold }
    pub closed spec fn interval_spec(&self) -> u64 { self.health_check_interval_secs }

    /// The registered nodes that are unreachable.
    pub open spec fn unreachable_set(&self) -> Set<NodeId> {
        self.health().dom().filter(|k: NodeId| !self.health()[k].is_reachable)
    }

    /// The registered nodes that are reachable.
    pub open spec fn reachable_set(&self) -> Set<NodeId> {
        self.health().dom().filter(|k: NodeId| self.health()[k].is_reachable)
    }

    /// A healthy manager whose partition holds only this node, with no other
    /// node registered; three consecutive failures mark a node unreachable.
    pub fn new(
        local_id: NodeId,
        total_nodes: usize,
        replication_factor: usize,
        health_check_interval_secs: u64,
    ) -> (r: Self)
        ensures
            r.wf(),
            r.local_id_spec() == local_id,
            r.state_spec() == PartitionState::Healthy,
            r.health() == Map::<NodeId, NodeHealth>::empty(),
            r.partition() == set![local_id],
            r.total_nodes_spec() == total_nodes,
            r.replication_factor_spec() == replication_factor,
            r.failure_threshold_spec() == 3,
            r.interval_spec() == health_check_interval_secs,
    {
        let mut our_partition = Table::new();
        our_partition.insert(local_id, ());
        let r = Self {
            local_id,
            state: PartitionState::Healthy,
            node_health: Table::new(),
            our_partition,
            total_nodes,
            replication_factor,
            health_check_interval_secs,
            failure_threshold: 3,
        };
        assert(r.partition() =~= set![local_id]);
        r
    }

    /// Register a node as reachable, with no failures, last seen at second
    /// `now`, and place it in our partition.
    pub fn add_node_at(&mut self, node_id: NodeId, now: u64)
        requires
            old(self).wf(),
        ensures
            final(self).wf(),
            final(self).health().contains_key(node_id),
            final(self).health() == old(self).health().insert(node_id, final(self).health()[node_id]),
            final(self).health()[node_id].is_reachable,
            final(self).health()[node_id].consecutive_failures == 0,
            final(self).health()[node_id].last_seen == now,
            final(self).health()[node_id].node_id == node_id,
            final(self).partition() == old(self).partition().insert(node_id),
            final(self).state_spec() == old(self).state_spec(),
            final(self).local_id_spec() == old(self).local_id_spec(),
            final(self).total_nodes_spec() == old(self).total_nodes_spec(),
            final(self).replication_factor_spec() == old(self).replication_factor_spec(),
            final(self).failure_threshold_spec() == old(self).failure_threshold_spec(),
    {
        let health = NodeHealth {
            node_id,
            last_seen: now,
            is_reachable: true,
            consecutive_failures: 0,
        };
        self.node_health.insert(node_id, health);
        self.our_partition.insert(node_id, ());
        assert(self.partition() =~= old(self).partition().insert(node_id));
    }

    /// Register a node as reachable, with no failures, and place it in our
    /// partition.
    pub fn add_node(&mut self, node_id: NodeId)
        requires
            old(self).wf(),
        ensures
            final(self).wf(),
            final(self).health().contains_key(node_id),
            final(self).health() == old(self).health().insert(node_id, final(self).health()[node_id]),
            final(self).health()[node_id].is_reachable,
            final(self).health()[node_id].consecutive_failures == 0,
            final(self).partition() == old(self).partition().insert(node_id),
            final(self).state_spec() == old(self).state_spec(),
            final(self).local_id_spec() == old(self).local_id_spec(),
            final(self).total_nodes_spec() == old(self).total_nodes_spec(),
            final(self).replication_factor_spec() == old(self).replication_factor_spec(),
            final(self).failure_threshold_spec() == old(self).failure_threshold_spec(),
    {
        self.add_node_at(node_id, current_timestamp());
    }

    /// Record a successful contact: a registered node becomes reachable with
    /// no failures; an unknown node is ignored.
    pub fn record_heartbeat(&mut self, node_id: NodeId)
        requires
            old(self).wf(),
        ensures
            final(self).wf(),
            old(self).health().contains_key(node_id) ==> {
                &&& final(self).health().contains_key(node_id)
                &&& final(self).health() == old(self).health().insert(node_id, final(self).health()[node_id])
                &&& final(self).health()[node_id].is_reachable
                &&& final(self).health()[node_id].consecutive_failures == 0
            },
            !old(self).health().contains_key(node_id) ==> final(self).health() == old(self).health(),
            final(self).partition() == old(self).partition(),
            final(self).state_spec() == old(self).state_spec(),
            final(self).local_id_spec() == old(self).local_id_spec(),
            final(self).total_nodes_spec() == old(self).total_nodes_spec(),
            final(self).replication_factor_spec() == old(self).replication_factor_spec(),
            final(self).failure_threshold_spec() == old(self).failure_threshold_spec(),
    {
        if let Some(i) = self.node_health.find(&node_id) {
            let h = *self.node_health.value_at(i);
            let now = current_timestamp();
            self.node_health.set_value_at(i, NodeHealth {
                node_id: h.node_id,
                last_seen: now,
                is_reachable: true,
                consecutive_failures: 0,
            });
        }
    }

    /// Record a failed contact: the failure count of a registered node grows
    /// by one, and the node becomes unreachable once the count reaches the
    /// threshold; an unknown node is ignored.
    pub fn record_failure(&mut self, node_id: NodeId)
        requires
            old(self).wf(),
            old(self).health().contains_key(node_id)
                ==> old(self).health()[node_id].consecutive_failures < usize::MAX,
        ensures
            final(self).wf(),
            old(self).health().contains_key(node_id) ==> {
                let h = old(self).health()[node_id];
                let failures = h.consecutive_failures + 1;
                &&& final(self).health() == old(self).health().insert(node_id, NodeHealth {
                    consecutive_failures: failures as usize,
                    is_reachable: if failures >= old(self).failure_threshold_spec() { false } else { h.is_reachable },
                    ..h
                })
            },
            !old(self).health().contains_key(node_id) ==> final(self).health() == old(self).health(),
            final(self).partition() == old(self).partition(),
            final(self).state_spec() == old(self).state_spec(),
            final(self).local_id_spec() == old(self).local_id_spec(),
            final(self).total_nodes_spec() == old(self).total_nodes_spec(),
            final(self).replication_factor_spec() == old(self).replication_factor_spec(),
            final(self).failure_threshold_spec() == old(self).failure_threshold_spec(),
    {
        if let Some(i) = self.node_health.find(&node_id) {
            let h = *self.node_health.value_at(i);
            let failures = h.consecutive_failures + 1;
            let reachable = if failures >= self.failure_threshold { false } else { h.is_reachable };
            self.node_health.set_value_at(i, NodeHealth {
                node_id: h.node_id,
                last_seen: h.last_seen,
                is_reachable: reachable,
                consecutive_failures: failures,
            });
        }
    }

    fn count_unreachable(&self) -> (r: usize)
        requires
            self.wf(),
        ensures
            r == self.unreachable_set().len(),
            self.unreachable_set().finite(),
    {
        let ghost p = unreachable_pred();
        let mut n: usize = 0;
        let mut i: usize = 0;
        let len = self.node_health.len();
        proof { self.node_health.lemma_wf(); }
        while i < len
            invariant
                self.wf(),
                len == self.node_health.entries().len(),
                i <= len,
                n <= i,
                p == unreachable_pred(),
                n == count_where(self.node_health.entries().subrange(0, i as int), p),
            decreases len - i,
        {
            let h = self.node_health.value_at(i);
            proof {
                let s = self.node_health.entries();
                let t = s.subrange(0, i + 1);
                assert(t.drop_last() =~= s.subrange(0, i as int));
                assert(t.last() == s[i as int]);
                assert(*h == s[i as int].1);
                assert(p(s[i as int].1) == !h.is_reachable);
                assert(count_where(t, p) == count_where(t.drop_last(), p) + if p(t.last().1) { 1nat } else { 0nat });
            }
            if !h.is_reachable {
                n = n + 1;
            }
            i = i + 1;
        }
        proof {
            let s = self.node_health.entries();
            assert(s.subrange(0, len as int) =~= s);
            lemma_count_where(s, p);
            let m = self.health();
            assert(m.dom().filter(|k: NodeId| p(m[k])) =~= self.unreachable_set());
            m.dom().lemma_len_filter(|k: NodeId| !m[k].is_reachable);
        }
        n
    }

    /// Recompute our partition and the partition state: our partition becomes
    /// this node and every reachable node; the state is `Partitioned` when some
    /// registered node is unreachable, `Healthy` otherwise.
    pub fn check_partition(&mut self) -> (r: PartitionState)
        requires
            old(self).wf(),
        ensures
            final(self).wf(),
            r == (if old(self).unreachable_set().len() > 0 { PartitionState::Partitioned } else { PartitionState::Healthy }),
            final(self).state_spec() == r,
            final(self).partition() == old(self).reachable_set().insert(old(self).local_id_spec()),
            final(self).health() == old(self).health(),
            final(self).local_id_spec() == old(self).local_id_spec(),
            final(self).total_nodes_spec() == old(self).total_nodes_spec(),
            final(self).replication_factor_spec() == old(self).replication_factor_spec(),
            final(self).failure_threshold_spec() == old(self).failure_threshold_spec(),
    {
        let unreachable_count = self.count_unreachable();
        let mut part: Table<NodeId, ()> = Table::new();
        part.insert(self.local_id, ());
        let len = self.node_health.len();
        let mut i: usize = 0;
        while i < len
            invariant
                self.wf(),
                part.wf(),
                len == self.node_health.entries().len(),
                i <= len,
                forall|k: NodeId| #[trigger] part.view().contains_key(k) <==> (k == self.local_id || exists|j: int| 0 <= j < i
                    && self.node_health.entries()[j].0 == k && self.node_health.entries()[j].1.is_reachable),
            decreases len - i,
        {
            let h = *self.node_health.value_at(i);
            let k = self.node_health.key_at(i);
            if h.is_reachable {
                part.insert(h.node_id, ());
            }
            proof {
                assert(h.node_id == k);
                assert forall|x: NodeId| #[trigger] part.view().contains_key(x) <==> (x == self.local_id || exists|j: int| 0 <= j < i + 1
                    && self.node_health.entries()[j].0 == x && self.node_health.entries()[j].1.is_reachable) by {
                    if x == k && h.is_reachable {
                        assert(self.node_health.entries()[i as int].0 == x);
                    }
                }
            }
            i = i + 1;
        }
        let new_state = if unreachable_count > 0 {
            PartitionState::Partitioned
        } else {
            PartitionState::Healthy
        };
        let ghost old_self = *old(self);
        proof {
            self.node_health.lemma_wf();
            let s = self.node_health.entries();
            let target = old_self.reachable_set().insert(self.local_id);
            assert forall|x: NodeId| part.view().dom().contains(x) <==> target.contains(x) by {
                if part.view().contains_key(x) && x != self.local_id {
                    let j = choose|j: int| 0 <= j < len && s[j].0 == x && s[j].1.is_reachable;
                    crate::table::lemma_entry_in_view(s, j);
                }
                if target.contains(x) && x != self.local_id {
                    let m = self.health();
                    assert(m.contains_key(x));
                    let j = choose|j: int| 0 <= j < s.len() && s[j].0 == x;
                    crate::table::lemma_entry_in_view(s, j);
                    assert(part.view().contains_key(x));
                }
            }
            assert(part.view().dom() =~= target);
        }
        self.our_partition = part;
        self.state = new_state;
        new_state
    }

    /// Whether our partition holds a majority of the cluster.
    pub fn has_quorum(&self) -> (r: bool)
        requires
            self.wf(),
        ensures
            r == (self.partition().len() >= majority(self.total_nodes_spec())),
    {
        let quorum = (self.total_nodes / 2) + 1;
        self.our_partition.len() >= quorum
    }

    /// Writes need a majority.
    pub fn can_write(&self) -> (r: bool)
        requires
            self.wf(),
        ensures
            r == (self.partition().len() >= majority(self.total_nodes_spec())),
    {
        self.has_quorum()
    }

    /// Reads need as many nodes as the consistency level asks for.
    pub fn can_read(&self, consistency: ConsistencyLevel) -> (r: bool)
        requires
            self.wf(),
        ensures
            r == (self.partition().len() >= required_nodes_spec(consistency, self.replication_factor_spec())),
    {
        let required = consistency.required_nodes(self.total_nodes, self.replication_factor);
        self.our_partition.len() >= required
    }

    /// The current partition state.
    pub fn get_state(&self) -> (r: PartitionState)
        ensures
            r == self.state_spec(),
    {
        self.state
    }

    /// The nodes of our partition, each once.
    pub fn get_our_partition(&self) -> (r: Vec<NodeId>)
        requires
            self.wf(),
        ensures
            r@.to_set() == self.partition(),
            r@.no_duplicates(),
    {
        let mut out: Vec<NodeId> = Vec::new();
        let len = self.our_partition.len();
        let mut i: usize = 0;
        proof { self.our_partition.lemma_wf(); }
        while i < len
            invariant
                self.wf(),
                keys_unique(self.our_partition.entries()),
                len == self.our_partition.entries().len(),
                i <= len,
                out@.len() == i,
                forall|j: int| 0 <= j < i ==> out@[j] == self.our_partition.entries()[j].0,
            decreases len - i,
        {
            out.push(self.our_partition.key_at(i));
            i = i + 1;
        }
        proof {
            let s = self.our_partition.entries();
            assert forall|x: NodeId| out@.to_set().contains(x) <==> self.partition().contains(x) by {
                if out@.to_set().contains(x) {
                    let j = choose|j: int| 0 <= j < out@.len() && out@[j] == x;
                    crate::table::lemma_entry_in_view(s, j);
                }
                if self.partition().contains(x) {
                    let j = choose|j: int| 0 <= j < s.len() && s[j].0 == x;
                    assert(out@[j] == x);
                }
            }
            assert(out@.to_set() =~= self.partition());
        }
        out
    }

    /// The unreachable registered nodes, each once.
    pub fn get_unreachable_nodes(&self) -> (r: Vec<NodeId>)
        requires
            self.wf(),
        ensures
            r@.to_set() == self.unreachable_set(),
            r@.no_duplicates(),
    {
        let mut out: Vec<NodeId> = Vec::new();
        let len = self.node_health.len();
        let mut i: usize = 0;
        proof { self.node_health.lemma_wf(); }
        let ghost s = self.node_health.entries();
        while i < len
            invariant
                self.wf(),
                s == self.node_health.entries(),
                keys_unique(s),
                len == s.len(),
                i <= len,
                forall|j: int| 0 <= j < out@.len() ==> self.unreachable_set().contains(#[trigger] out@[j]),
                forall|w: int| 0 <= w < i && !s[w].1.is_reachable ==> out@.contains(#[trigger] s[w].0),
                out@.no_duplicates(),
                forall|j: int, w: int| 0 <= j < out@.len() && i <= w < len ==> #[trigger] s[w].0 != #[trigger] out@[j],
            decreases len - i,
        {
            let h = *self.node_health.value_at(i);
            let k = self.node_health.key_at(i);
            let ghost old_out = out@;
            proof {
                assert(s[i as int].1 == h && s[i as int].0 == k);
                crate::table::lemma_entry_in_view(s, i as int);
            }
            if !h.is_reachable {
                out.push(h.node_id);
                proof {
                    assert(h.node_id == k);
                    assert forall|j: int| 0 <= j < out@.len() implies self.unreachable_set().contains(#[trigger] out@[j]) by {
                        if j < old_out.len() {
                            assert(out@[j] == old_out[j]);
                        }
                    }
                    assert forall|w: int| 0 <= w < i + 1 && !s[w].1.is_reachable implies out@.contains(#[trigger] s[w].0) by {
                        if w < i {
                            let j = choose|j: int| 0 <= j < old_out.len() && old_out[j] == s[w].0;
                            assert(out@[j] == s[w].0);
                        } else {
                            assert(out@[out@.len() - 1] == s[w].0);
                        }
                    }
                    assert forall|a: int, b: int| 0 <= a < out@.len() && 0 <= b < out@.len() && a != b implies out@[a] != out@[b] by {
                        if a < old_out.len() && b < old_out.len() {
                            assert(old_out[a] != old_out[b]);
                        } else if a < old_out.len() {
                            assert(s[i as int].0 != old_out[a]);
                        } else if b < old_out.len() {
                            assert(s[i as int].0 != old_out[b]);
                        }
                    }
                    assert forall|j: int, w: int| 0 <= j < out@.len() && i + 1 <= w < len implies #[trigger] s[w].0 != #[trigger] out@[j] by {
                        if j < old_out.len() {
                            assert(out@[j] == old_out[j]);
                        } else {
                            assert(s[w].0 != s[i as int].0);
                        }
                    }
                }
            }
            i = i + 1;
        }
        proof {
            assert forall|x: NodeId| out@.to_set().contains(x) <==> self.unreachable_set().contains(x) by {
                if out@.to_set().contains(x) {
                    let j = choose|j: int| 0 <= j < out@.len() && out@[j] == x;
                    assert(self.unreachable_set().contains(out@[j]));
                }
                if self.unreachable_set().contains(x) {
                    let w = choose|w: int| 0 <= w < s.len() && s[w].0 == x;
                    crate::table::lemma_entry_in_view(s, w);
                    assert(out@.contains(s[w].0));
                }
            }
            assert(out@.to_set() =~= self.unreachable_set());
        }
        out
    }

    /// Start healing: the state becomes `Healing` and unreachable nodes get
    /// their failure counters reset.
    pub fn attempt_healing(&mut self)
        requires
            old(self).wf(),
        ensures
            final(self).wf(),
            final(self).state_spec() == PartitionState::Healing,
            final(self).health().dom() == old(self).health().dom(),
            forall|k: NodeId| #[trigger] final(self).health().contains_key(k) ==> final(self).health()[k] == (
                if old(self).health()[k].is_reachable {
                    old(self).health()[k]
                } else {
                    NodeHealth { consecutive_failures: 0, ..old(self).health()[k] }
                }),
            final(self).partition() == old(self).partition(),
            final(self).local_id_spec() == old(self).local_id_spec(),
            final(self).total_nodes_spec() == old(self).total_nodes_spec(),
            final(self).replication_factor_spec() == old(self).replication_factor_spec(),
            final(self).failure_threshold_spec() == old(self).failure_threshold_spec(),
    {
        self.state = PartitionState::Healing;
        let len = self.node_health.len();
        let mut i: usize = 0;
        let ghost m0 = self.node_health.view();
        let ghost s0 = self.node_health.entries();
        proof { self.node_health.lemma_wf(); }
        while i < len
            invariant
                self.wf(),
                len == self.node_health.entries().len(),
                s0.len() == len,
                keys_unique(s0),
                m0 == crate::table::table_view(s0),
                i <= len,
                forall|j: int| 0 <= j < len ==> (#[trigger] self.node_health.entries()[j]).0 == s0[j].0,
                forall|j: int| i <= j < len ==> (#[trigger] self.node_health.entries()[j]).1 == s0[j].1,
                forall|j: int| 0 <= j < i ==> (#[trigger] self.node_health.entries()[j]).1 == (
                    if s0[j].1.is_reachable { s0[j].1 } else { NodeHealth { consecutive_failures: 0, ..s0[j].1 } }),
                self.state == PartitionState::Healing,
                self.our_partition == old(self).our_partition,
                self.local_id == old(self).local_id,
                self.total_nodes == old(self).total_nodes,
                self.replication_factor == old(self).replication_factor,
                self.failure_threshold == old(self).failure_threshold,
            decreases len - i,
        {
            let h = *self.node_health.value_at(i);
            if !h.is_reachable {
                self.node_health.set_value_at(i, NodeHealth {
                    node_id: h.node_id,
                    last_seen: h.last_seen,
                    is_reachable: h.is_reachable,
                    consecutive_failures: 0,
                });
            }
            i = i + 1;
        }
        proof {
            let s = self.node_health.entries();
            self.node_health.lemma_wf();
            assert forall|k: NodeId| #[trigger] self.health().contains_key(k) <==> m0.contains_key(k) by {
                if self.health().contains_key(k) {
                    let j = choose|j: int| 0 <= j < s.len() && s[j].0 == k;
                    crate::table::lemma_entry_in_view(s0, j);
                }
                if m0.contains_key(k) {
                    let j = choose|j: int| 0 <= j < s0.len() && s0[j].0 == k;
                    crate::table::lemma_entry_in_view(s, j);
                }
            }
            assert(self.health().dom() =~= m0.dom());
            assert forall|k: NodeId| #[trigger] self.health().contains_key(k) implies self.health()[k] == (
                if m0[k].is_reachable { m0[k] } else { NodeHealth { consecutive_failures: 0, ..m0[k] } }) by {
                let j = choose|j: int| 0 <= j < s.len() && s[j].0 == k;
                crate::table::lemma_entry_in_view(s, j);
                crate::table::lemma_entry_in_view(s0, j);
            }
            assert forall|k: NodeId| #[trigger] self.node_health.view().contains_key(k) implies self.node_health.view()[k].node_id == k by {
                assert(m0.contains_key(k));
            }
        }
    }

    /// Current statistics.
    pub fn get_statistics(&self) -> (r: PartitionStats)
        requires
            self.wf(),
        ensures
            r.state == self.state_spec(),
            r.total_nodes == self.total_nodes_spec(),
            r.reachable_nodes == self.partition().len(),
            r.unreachable_nodes == self.unreachable_set().len(),
            r.has_quorum == (self.partition().len() >= majority(self.total_nodes_spec())),
            r.can_write == r.has_quorum,
    {
        PartitionStats {
            state: self.get_state(),
            total_nodes: self.total_nodes,
            reachable_nodes: self.our_partition.len(),
            unreachable_nodes: self.count_unreachable(),
            has_quorum: self.has_quorum(),
            can_write: self.can_write(),
        }
    }
}

/// Quorum-based read/write manager.
pub struct QuorumManager {
    /// This node's ID
    local_id: NodeId,
    /// Replication factor
    replication_factor: usize,
    /// Default read consistency
    read_consistency: ConsistencyLevel,
    /// Default write consistency
    write_consistency: ConsistencyLevel,
    /// Partition manager
    partition_manager: Arc<PartitionManager>,
}

/// The error of a read that the partition cannot serve.
pub open spec fn read_refusal(level: ConsistencyLevel) -> Seq<char> {
    "Cannot satisfy read consistency "@ + consistency_name(level) + " - not enough reachable nodes"@
}

/// The error of a write whose consistency the partition cannot serve.
pub open spec fn write_refusal(level: ConsistencyLevel) -> Seq<char> {
    "Cannot satisfy write consistency "@ + consistency_name(level) + " - not enough reachable nodes"@
}

impl QuorumManager {
    pub closed spec fn wf(&self) -> bool {
        self.partition_manager.wf()
    }

    pub closed spec fn partition_manager_spec(&self) -> PartitionManager { *self.partition_manager }
    pub closed spec fn read_consistency_spec(&self) -> ConsistencyLevel { self.read_consistency }
    pub closed spec fn write_consistency_spec(&self) -> ConsistencyLevel { self.write_consistency }
    pub closed spec fn replication_factor_spec(&self) -> usize { self.replication_factor }

    /// Quorum reads and writes by default.
    pub fn new(local_id: NodeId, replication_factor: usize, partition_manager: Arc<PartitionManager>) -> (r: Self)
        requires
            partition_manager.wf(),
        ensures
            r.wf(),
            r.partition_manager_spec() == *partition_manager,
            r.read_consistency_spec() == ConsistencyLevel::Quorum,
            r.write_consistency_spec() == ConsistencyLevel::Quorum,
            r.replication_factor_spec() == replication_factor,
    {
        Self {
            local_id,
            replication_factor,
            read_consistency: ConsistencyLevel::Quorum,
            write_consistency: ConsistencyLevel::Quorum,
            partition_manager,
        }
    }

    pub fn set_read_consistency(&mut self, level: ConsistencyLevel)
        ensures
            final(self).read_consistency_spec() == level,
            final(self).write_consistency_spec() == old(self).write_consistency_spec(),
            final(self).partition_manager_spec() == old(self).partition_manager_spec(),
            final(self).replication_factor_spec() == old(self).replication_factor_spec(),
            final(self).wf() == old(self).wf(),
    {
        self.read_consistency = level;
    }

    pub fn set_write_consistency(&mut self, level: ConsistencyLevel)
        ensures
            final(self).write_consistency_spec() == level,
            final(self).read_consistency_spec() == old(self).read_consistency_spec(),
            final(self).partition_manager_spec() == old(self).partition_manager_spec(),
            final(self).replication_factor_spec() == old(self).replication_factor_spec(),
            final(self).wf() == old(self).wf(),
    {
        self.write_consistency = level;
    }

    /// A read can proceed when the partition can serve the read consistency.
    pub fn can_read(&self) -> (r: Result<(), String>)
        requires
            self.wf(),
        ensures
            self.partition_manager_spec().partition().len() >= required_nodes_spec(
                self.read_consistency_spec(), self.partition_manager_spec().replication_factor_spec()) ==> r is Ok,
            self.partition_manager_spec().partition().len() < required_nodes_spec(
                self.read_consistency_spec(), self.partition_manager_spec().replication_factor_spec())
                ==> (r matches Err(e) && e@ == read_refusal(self.read_consistency_spec())),
    {
        if !self.partition_manager.can_read(self.read_consistency) {
            return Err(concat3(
                "Cannot satisfy read consistency ",
                self.read_consistency.name(),
                " - not enough reachable nodes",
            ));
        }
        Ok(())
    }

    /// A write can proceed when the partition holds a majority and can serve
    /// the write consistency.
    pub fn can_write(&self) -> (r: Result<(), String>)
        requires
            self.wf(),
        ensures
            ({
                let pm = self.partition_manager_spec();
                let n = pm.partition().len();
                &&& n < majority(pm.total_nodes_spec())
                    ==> (r matches Err(e) && e@ == "Cannot write - no quorum"@)
                &&& n >= majority(pm.total_nodes_spec())
                    && n < required_nodes_spec(self.write_consistency_spec(), pm.replication_factor_spec())
                    ==> (r matches Err(e) && e@ == write_refusal(self.write_consistency_spec()))
                &&& n >= majority(pm.total_nodes_spec())
                    && n >= required_nodes_spec(self.write_consistency_spec(), pm.replication_factor_spec())
                    ==> r is Ok
            }),
    {
        if !self.partition_manager.can_write() {
            return Err(String::from_str("Cannot write - no quorum"));
        }
        if !self.partition_manager.can_read(self.write_consistency) {
            return Err(concat3(
                "Cannot satisfy write consistency ",
                self.write_consistency.name(),
                " - not enough reachable nodes",
            ));
        }
        Ok(())
    }

    /// Coordinate a quorum read of `key` among `replicas`: when a read may
    /// proceed and some replica is listed, the value of the first replica
    /// comes back (replicas answer with a fixed placeholder value).
    pub fn quorum_read(&self, key: &str, replicas: Vec<NodeId>) -> (r: Result<Vec<u8>, String>)
        requires
            self.wf(),
        ensures
            ({
                let pm = self.partition_manager_spec();
                let readable = pm.partition().len() >= required_nodes_spec(self.read_consistency_spec(), pm.replication_factor_spec());
                let answered = replicas@.len() > 0 && required_nodes_spec(self.read_consistency_spec(), self.replication_factor_spec()) > 0;
                &&& !readable ==> (r matches Err(e) && e@ == read_refusal(self.read_consistency_spec()))
                &&& readable && !answered ==> (r matches Err(e) && e@ == "No responses"@)
                &&& readable && answered ==> (r matches Ok(v) && v@ == seq![1u8, 2u8, 3u8])
            }),
    {
        self.can_read()?;
        let required = self.read_consistency.required_nodes(replicas.len(), self.replication_factor);
        let mut responses: Vec<Vec<u8>> = Vec::new();
        let mut i: usize = 0;
        while i < replicas.len() && i < required
            invariant
                i <= replicas.len(),
                i <= required,
                responses@.len() == i,
                forall|j: int| 0 <= j < i ==> (#[trigger] responses@[j])@ == seq![1u8, 2u8, 3u8],
            decreases replicas.len() - i,
        {
            let value: Vec<u8> = vec![1, 2, 3];
            responses.push(value);
            i = i + 1;
        }
        if responses.len() > 0 {
            let first = responses.remove(0);
            Ok(first)
        } else {
            Err(String::from_str("No responses"))
        }
    }

    /// Coordinate a quorum write of `value` under `key` among `replicas`:
    /// when a write may proceed, it succeeds if enough replicas are listed to
    /// meet the write consistency.
    pub fn quorum_write(&self, key: &str, value: Vec<u8>, replicas: Vec<NodeId>) -> (r: Result<(), String>)
        requires
            self.wf(),
        ensures
            ({
                let pm = self.partition_manager_spec();
                let n = pm.partition().len();
                let admitted = required_nodes_spec(self.write_consistency_spec(), pm.replication_factor_spec());
                let required = required_nodes_spec(self.write_consistency_spec(), self.replication_factor_spec());
                let writable = n >= majority(pm.total_nodes_spec()) && n >= admitted;
                &&& n < majority(pm.total_nodes_spec()) ==> (r matches Err(e) && e@ == "Cannot write - no quorum"@)
                &&& n >= majority(pm.total_nodes_spec()) && n < admitted
                    ==> (r matches Err(e) && e@ == write_refusal(self.write_consistency_spec()))
                &&& writable && replicas@.len() >= required ==> r is Ok
                &&& writable && replicas@.len() < required ==> (r matches Err(e) && e@ ==
                    "Write failed - only "@ + decimal(replicas@.len()) + " of "@ + decimal(required) + " required nodes succeeded"@)
            }),
    {
        self.can_write()?;
        let required = self.write_consistency.required_nodes(replicas.len(), self.replication_factor);
        let mut successful_writes: usize = 0;
        let mut i: usize = 0;
        while i < replicas.len() && i < required
            invariant
                i <= replicas.len(),
                i <= required,
                successful_writes == i,
            decreases replicas.len() - i,
        {
            successful_writes = successful_writes + 1;
            i = i + 1;
        }
        if successful_writes >= required {
            Ok(())
        } else {
            let a = usize_to_string(successful_writes);
            let b = usize_to_string(required);
            let mut msg = concat3("Write failed - only ", a.as_str(), " of ");
            msg.append(b.as_str());
            msg.append(" required nodes succeeded");
            Err(msg)
        }
    }

    /// Current statistics.
    pub fn get_statistics(&self) -> (r: QuorumStats)
        ensures
            r.read_consistency == self.read_consistency_spec(),
            r.write_consistency == self.write_consistency_spec(),
            r.replication_factor == self.replication_factor_spec(),
    {
        QuorumStats {
            read_consistency: self.read_consistency,
            write_consistency: self.write_consistency,
            replication_factor: self.replication_factor,
        }
    }
}

/// Partition statistics.
#[derive(Debug, Clone)]
pub struct PartitionStats {
    pub state: PartitionState,
    pub total_nodes: usize,
    pub reachable_nodes: usize,
    pub unreachable_nodes: usize,
    pub has_quorum: bool,
    pub can_write: bool,
}

/// Quorum statistics.
#[derive(Debug, Clone)]
pub struct QuorumStats {
    pub read_consistency: ConsistencyLevel,
    pub write_consistency: ConsistencyLevel,
    pub replication_factor: usize,
}


/// Split-brain safety: two groups of nodes with no node in common, drawn
/// from a cluster of `total` nodes, cannot both hold a majority; so at most
/// one side of a network partition has quorum and may write.
pub proof fn law_no_two_disjoint_majorities(a: Set<NodeId>, b: Set<NodeId>, total: usize)
    requires
        a.finite(),
        b.finite(),
        a.disjoint(b),
        (a + b).len() <= total,
    ensures
        !(a.len() >= majority(total) && b.len() >= majority(total)),
{
    vstd::set_lib::lemma_set_disjoint_lens(a, b);
}

/// Quorum reads meet quorum writes: with replication factor `rf`, a read
/// quorum and a write quorum together ask for more than `rf` replicas, so
/// they share at least one.
pub proof fn law_quorums_intersect(rf: usize)
    ensures
        required_nodes_spec(ConsistencyLevel::Quorum, rf) + required_nodes_spec(ConsistencyLevel::Quorum, rf) > rf,
{
}

/// The consistency levels ask for nested numbers of nodes: one node for
/// `One` and `Local`, no more than a quorum, which asks no more than `All`.
pub proof fn law_consistency_levels_ordered(rf: usize)
    requires
        rf >= 1,
    ensures
        required_nodes_spec(ConsistencyLevel::One, rf) == required_nodes_spec(ConsistencyLevel::Local, rf),
        required_nodes_spec(ConsistencyLevel::One, rf) <= required_nodes_spec(ConsistencyLevel::Quorum, rf),
        required_nodes_spec(ConsistencyLevel::Quorum, rf) <= required_nodes_spec(ConsistencyLevel::All, rf),
{
}

} // verus!
