//! Nodes of the distributed network: identifiers, addresses and node
//! information, and the small-world topology that connects this node to
//! others: a ring of near neighbours plus random long-range shortcuts.

use vstd::prelude::*;
use rand::Rng;
use std::collections::{HashMap, HashSet, VecDeque};
use vstd::std_specs::iter::IteratorSpec;
use crate::clock::current_timestamp;
use crate::text::{decimal, u64_to_string, concat3};

verus! {

/// Unique identifier for a node in the distributed network.
pub type NodeId = u64;

/// Network address for peer-to-peer communication.
#[derive(Debug, Clone, PartialEq, Eq, Hash)]
pub struct NodeAddress {
    pub host: String,
    pub port: u16,
}

impl NodeAddress {
    pub fn new(host: String, port: u16) -> (r: Self)
        ensures
            r.host == host,
            r.port == port,
    {
        Self { host, port }
    }

    /// `host:port`.
    pub fn to_string(&self) -> (r: String)
        ensures
            r@ == self.host@ + ":"@ + decimal(self.port as nat),
    {
        let p = u64_to_string(self.port as u64);
        concat3(self.host.as_str(), ":", p.as_str())
    }
}

/// Information about a node in the network.
#[derive(Debug, Clone)]
pub struct NodeInfo {
    pub id: NodeId,
    pub address: NodeAddress,
    pub is_alive: bool,
    /// Unix timestamp of the last contact
    pub last_seen: u64,
    /// How many shards this node manages
    pub shard_count: usize,
    /// Maximum shards this node can handle
    pub capacity: usize,
}

impl NodeInfo {
    /// A live node with no shards, last seen now.
    pub fn new(id: NodeId, address: NodeAddress, capacity: usize) -> (r: Self)
        ensures
            r.id == id,
            r.address == address,
            r.is_alive,
            r.shard_count == 0,
            r.capacity == capacity,
    {
        Self {
            id,
            address,
            is_alive: true,
            last_seen: current_timestamp(),
            shard_count: 0,
            capacity,
        }
    }
}

/// Connection type in the small-world topology.
#[derive(Debug, Clone, Copy, PartialEq, Eq, Structural)]
pub enum ConnectionType {
    /// Connection to a nearby node (ring neighbor)
    Local,
    /// Long-range shortcut connection
    LongRange,
}

/// A connection between two nodes.
#[derive(Debug, Clone, Copy, PartialEq, Eq, Structural)]
pub struct Connection {
    pub target_id: NodeId,
    pub connection_type: ConnectionType,
    /// Measured round-trip time
    pub latency_ms: u32,
}

/// The keys of a table by node, each once, in the table's order.
fn node_ids<V>(nodes: &HashMap<NodeId, V>) -> (r: Vec<NodeId>)
    ensures
        r@.no_duplicates(),
        r@.to_set() == nodes@.dom(),
{
    broadcast use vstd::std_specs::hash::group_hash_axioms;
    let ghost all = vstd::std_specs::hash::spec_keys_iter(nodes).remaining();
    let mut ids: Vec<NodeId> = Vec::new();
    for k in it: nodes.keys()
        invariant
            it.seq() == all,
            ids@.len() == it.index(),
            forall|j: int| 0 <= j < it.index() ==> ids@[j] == *all[j],
        ensures
            ids@.len() == all.len(),
    {
        ids.push(*k);
    }
    assert(ids@ =~= all.unref());
    ids
}

/// Configuration of the small-world topology. (The rewiring probability
/// of the full configuration plays no part in building connections.)
#[derive(Debug, Clone, Copy)]
pub struct TopologyConfig {
    /// Number of local connections (k nearest neighbours on the ring)
    pub local_connections: usize,
    /// Number of long-range connections (random shortcuts)
    pub longrange_connections: usize,
    /// Maximum latency (ms) before marking node as slow
    pub max_latency_ms: u32,
    /// Health check interval (seconds)
    pub health_check_interval_secs: u64,
}

impl Default for TopologyConfig {
    fn default() -> (r: Self)
        ensures
            r.local_connections == 6,
            r.longrange_connections == 3,
            r.max_latency_ms == 100,
            r.health_check_interval_secs == 10,
    {
        TopologyConfig {
            local_connections: 6,
            longrange_connections: 3,
            max_latency_ms: 100,
            health_check_interval_secs: 10,
        }
    }
}

/// A uniformly random index below `n` (`rand::thread_rng().gen_range(0..n)`).
/// Only the range is claimed.
#[verifier::external_body]
pub(crate) fn random_index(n: usize) -> (r: usize)
    requires
        n > 0,
    ensures
        r < n,
{
    rand::thread_rng().gen_range(0..n)
}

/// A new local (ring) connection.
pub open spec fn local_conn(t: NodeId) -> Connection {
    Connection { target_id: t, connection_type: ConnectionType::Local, latency_ms: 0 }
}

/// A new long-range connection.
pub open spec fn longrange_conn(t: NodeId) -> Connection {
    Connection { target_id: t, connection_type: ConnectionType::LongRange, latency_ms: 0 }
}

/// The ring connections at offsets 1 to `o` on both sides of position
/// `idx` in `ids`.
pub open spec fn ring_upto(ids: Seq<NodeId>, idx: int, o: int) -> Map<NodeId, Connection>
    decreases o,
{
    if o <= 0 {
        Map::empty()
    } else {
        let n = ids.len() as int;
        let right = ids[(idx + o) % n];
        let left = ids[(idx - o) % n];
        ring_upto(ids, idx, o - 1).insert(right, local_conn(right)).insert(left, local_conn(left))
    }
}

/// One long-range round over its draws from `j` on: the first drawn node
/// that is neither this node nor connected yet is connected; a round whose
/// draws all fail adds nothing.
pub open spec fn longrange_round(
    ids: Seq<NodeId>,
    local: NodeId,
    m: Map<NodeId, Connection>,
    ds: Seq<int>,
    j: int,
) -> Map<NodeId, Connection>
    decreases ds.len() - j,
{
    if j < 0 || j >= ds.len() {
        m
    } else {
        let id = ids[ds[j]];
        if id == local || m.contains_key(id) {
            longrange_round(ids, local, m, ds, j + 1)
        } else {
            m.insert(id, longrange_conn(id))
        }
    }
}

/// The long-range rounds, one after the other.
pub open spec fn longrange_rounds(
    ids: Seq<NodeId>,
    local: NodeId,
    m: Map<NodeId, Connection>,
    rounds: Seq<Seq<int>>,
) -> Map<NodeId, Connection>
    decreases rounds.len(),
{
    if rounds.len() == 0 {
        m
    } else {
        longrange_round(ids, local, longrange_rounds(ids, local, m, rounds.drop_last()), rounds.last(), 0)
    }
}

/// The connections of this node `local`, with the nodes in the order
/// `ids` and the random draws `rounds`: none when the node is not among
/// them; else its ring neighbours at offsets 1 to `k / 2` on both sides,
/// then the long-range rounds.
pub open spec fn planned_connections(
    ids: Seq<NodeId>,
    local: NodeId,
    k: usize,
    rounds: Seq<Seq<int>>,
) -> Map<NodeId, Connection> {
    if ids.contains(local) {
        longrange_rounds(ids, local, ring_upto(ids, ids.index_of(local), (k / 2) as int), rounds)
    } else {
        Map::empty()
    }
}

/// Draws for a build over `n` nodes: `rounds` rounds when the node is
/// among them (none otherwise), each of at most 10 draws below `n`.
pub open spec fn valid_draws(rounds: Seq<Seq<int>>, count: nat, n: nat) -> bool {
    &&& rounds.len() == count
    &&& forall|r: int| 0 <= r < rounds.len() ==> #[trigger] rounds[r].len() <= 10
    &&& forall|r: int, j: int| 0 <= r < rounds.len() && 0 <= j < rounds[r].len() ==> 0 <= #[trigger] rounds[r][j] < n
}

/// The fields of a node's information, its host as characters.
pub open spec fn node_view(n: NodeInfo) -> (NodeId, Seq<char>, u16, bool, u64, usize, usize) {
    (n.id, n.address.host@, n.address.port, n.is_alive, n.last_seen, n.shard_count, n.capacity)
}

/// A copy of a node's information.
fn copy_node(n: &NodeInfo) -> (r: NodeInfo)
    ensures
        node_view(r) == node_view(*n),
{
    NodeInfo {
        id: n.id,
        address: NodeAddress { host: n.address.host.clone(), port: n.address.port },
        is_alive: n.is_alive,
        last_seen: n.last_seen,
        shard_count: n.shard_count,
        capacity: n.capacity,
    }
}

/// Small-world network topology manager: the known nodes and this node's
/// outgoing connections.
pub struct SmallWorldTopology {
    config: TopologyConfig,
    /// This node's ID
    local_id: NodeId,
    /// All known nodes in the network
    nodes: HashMap<NodeId, NodeInfo>,
    /// Outgoing connections from this node
    connections: HashMap<NodeId, Connection>,
}

impl SmallWorldTopology {
    /// The known nodes.
    pub closed spec fn nodes_spec(&self) -> Map<NodeId, NodeInfo> {
        self.nodes@
    }

    /// This node's connections, by target.
    pub closed spec fn connections_spec(&self) -> Map<NodeId, Connection> {
        self.connections@
    }

    /// The configuration.
    pub closed spec fn config_spec(&self) -> TopologyConfig {
        self.config
    }

    /// This node's ID.
    pub closed spec fn local_spec(&self) -> NodeId {
        self.local_id
    }

    /// A topology for this node with no known nodes and no connections.
    pub fn new(local_id: NodeId, config: TopologyConfig) -> (r: Self)
        ensures
            r.local_spec() == local_id,
            r.config_spec() == config,
            r.nodes_spec() == Map::<NodeId, NodeInfo>::empty(),
            r.connections_spec() == Map::<NodeId, Connection>::empty(),
    {
        SmallWorldTopology { config, local_id, nodes: HashMap::new(), connections: HashMap::new() }
    }

    /// This node's ID.
    pub fn local_id(&self) -> (r: NodeId)
        ensures
            r == self.local_spec(),
    {
        self.local_id
    }

    /// Register a node (replacing what was known of its ID).
    pub fn add_node(&mut self, node: NodeInfo)
        ensures
            final(self).nodes_spec() == old(self).nodes_spec().insert(node.id, node),
            final(self).connections_spec() == old(self).connections_spec(),
            final(self).local_spec() == old(self).local_spec(),
            final(self).config_spec() == old(self).config_spec(),
    {
        broadcast use vstd::std_specs::hash::group_hash_axioms;
        self.nodes.insert(node.id, node);
    }

    /// Forget a node and the connection to it.
    pub fn remove_node(&mut self, node_id: NodeId)
        ensures
            final(self).nodes_spec() == old(self).nodes_spec().remove(node_id),
            final(self).connections_spec() == old(self).connections_spec().remove(node_id),
            final(self).local_spec() == old(self).local_spec(),
            final(self).config_spec() == old(self).config_spec(),
    {
        broadcast use vstd::std_specs::hash::group_hash_axioms;
        self.nodes.remove(&node_id);
        self.connections.remove(&node_id);
    }

    /// A copy of every known node, each once, in the table's order.
    pub fn get_all_nodes(&self) -> (r: Vec<NodeInfo>)
        ensures
            exists|ids: Seq<NodeId>|
                {
                    &&& ids.no_duplicates()
                    &&& ids.to_set() == self.nodes_spec().dom()
                    &&& r@.len() == ids.len()
                    &&& forall|i: int|
                        0 <= i < ids.len() ==> node_view(#[trigger] r@[i]) == node_view(self.nodes_spec()[ids[i]])
                },
    {
        broadcast use vstd::std_specs::hash::group_hash_axioms;
        let ids = node_ids(&self.nodes);
        let mut out: Vec<NodeInfo> = Vec::new();
        let mut i: usize = 0;
        while i < ids.len()
            invariant
                ids@.to_set() == self.nodes@.dom(),
                i <= ids.len(),
                out@.len() == i,
                forall|j: int| 0 <= j < i ==> node_view(#[trigger] out@[j]) == node_view(self.nodes@[ids@[j]]),
            decreases ids.len() - i,
        {
            assert(ids@.to_set().contains(ids@[i as int]));
            match self.nodes.get(&ids[i]) {
                Some(n) => out.push(copy_node(n)),
                None => {},
            }
            i = i + 1;
        }
        assert(ids@.no_duplicates());
        out
    }

    /// A copy of a known node.
    pub fn get_node(&self, node_id: NodeId) -> (r: Option<NodeInfo>)
        ensures
            match self.nodes_spec().get(node_id) {
                Some(n) => r matches Some(x) && node_view(x) == node_view(n),
                None => r is None,
            },
    {
        broadcast use vstd::std_specs::hash::group_hash_axioms;
        match self.nodes.get(&node_id) {
            Some(n) => Some(copy_node(n)),
            None => None,
        }
    }

    /// The connections of this node, each once, in the table's order.
    pub fn get_connections(&self) -> (r: Vec<Connection>)
        ensures
            exists|ids: Seq<NodeId>|
                {
                    &&& ids.no_duplicates()
                    &&& ids.to_set() == self.connections_spec().dom()
                    &&& r@ == ids.map_values(|t: NodeId| self.connections_spec()[t])
                },
    {
        broadcast use vstd::std_specs::hash::group_hash_axioms;
        let ghost all = vstd::std_specs::hash::spec_keys_iter(&self.connections).remaining();
        let mut ids: Vec<NodeId> = Vec::new();
        for k in it: self.connections.keys()
            invariant
                it.seq() == all,
                ids@.len() == it.index(),
                forall|j: int| 0 <= j < it.index() ==> ids@[j] == *all[j],
            ensures
                ids@.len() == all.len(),
        {
            ids.push(*k);
        }
        assert(ids@ =~= all.unref());
        let mut out: Vec<Connection> = Vec::new();
        let mut i: usize = 0;
        while i < ids.len()
            invariant
                ids@.to_set() == self.connections@.dom(),
                i <= ids.len(),
                out@ == ids@.take(i as int).map_values(|t: NodeId| self.connections@[t]),
            decreases ids.len() - i,
        {
            assert(ids@.to_set().contains(ids@[i as int]));
            let c = *self.connections.get(&ids[i]).unwrap();
            out.push(c);
            assert(ids@.take(i + 1).map_values(|t: NodeId| self.connections@[t]) =~= ids@.take(i as int).map_values(
                |t: NodeId| self.connections@[t],
            ).push(c));
            i = i + 1;
        }
        assert(ids@.take(ids.len() as int) =~= ids@);
        out
    }

    /// Set the measured latency of the connection to a node, if there is
    /// one.
    pub fn update_latency(&mut self, node_id: NodeId, latency_ms: u32)
        ensures
            final(self).connections_spec() == if old(self).connections_spec().contains_key(node_id) {
                old(self).connections_spec().insert(
                    node_id,
                    Connection { latency_ms, ..old(self).connections_spec()[node_id] },
                )
            } else {
                old(self).connections_spec()
            },
            final(self).nodes_spec() == old(self).nodes_spec(),
            final(self).local_spec() == old(self).local_spec(),
            final(self).config_spec() == old(self).config_spec(),
    {
        broadcast use vstd::std_specs::hash::group_hash_axioms;
        let existing = match self.connections.get(&node_id) {
            Some(c) => Some(*c),
            None => None,
        };
        if let Some(c) = existing {
            self.connections.insert(node_id, Connection { latency_ms, ..c });
        }
    }
}

/// Draws that all fail leave a round's outcome to the draws after them.
proof fn lemma_round_skips(ids: Seq<NodeId>, local: NodeId, m: Map<NodeId, Connection>, ds: Seq<int>, j: int)
    requires
        0 <= j <= ds.len(),
        forall|i: int| 0 <= i < j ==> ids[ds[i]] == local || m.contains_key(#[trigger] ids[ds[i]]),
    ensures
        longrange_round(ids, local, m, ds, 0) == longrange_round(ids, local, m, ds, j),
    decreases j,
{
    if j > 0 {
        lemma_round_skips(ids, local, m, ds, j - 1);
    }
}

/// The position of `r` steps to the right of `idx` on a ring of `n`.
fn ring_right(idx: usize, r: usize, n: usize) -> (p: usize)
    requires
        idx < n,
        r < n,
    ensures
        p == (idx + r) % (n as int),
        p < n,
{
    proof {
        if idx + r < n {
            vstd::arithmetic::div_mod::lemma_small_mod((idx + r) as nat, n as nat);
        } else {
            vstd::arithmetic::div_mod::lemma_small_mod((idx + r - n) as nat, n as nat);
            vstd::arithmetic::div_mod::lemma_mod_add_multiples_vanish(idx + r - n, n as int);
        }
    }
    if r < n - idx {
        idx + r
    } else {
        idx - (n - r)
    }
}

/// The position of `r` steps to the left of `idx` on a ring of `n`.
fn ring_left(idx: usize, r: usize, n: usize) -> (p: usize)
    requires
        idx < n,
        r < n,
    ensures
        p == (idx - r) % (n as int),
        p < n,
{
    proof {
        vstd::arithmetic::div_mod::lemma_mod_add_multiples_vanish(idx - r, n as int);
        if r <= idx {
            vstd::arithmetic::div_mod::lemma_small_mod((idx - r) as nat, n as nat);
        } else {
            vstd::arithmetic::div_mod::lemma_small_mod((idx + n - r) as nat, n as nat);
        }
    }
    if r <= idx {
        idx - r
    } else {
        idx + (n - r)
    }
}

impl SmallWorldTopology {
    /// Build this node's connections: with more than one known node, its
    /// ring neighbours (`local_connections / 2` on each side, in the
    /// table's order of the nodes), then `longrange_connections` random
    /// shortcuts, each drawn up to 10 times until it names a node that is
    /// neither this one nor connected; none when this node is not known.
    /// With at most one known node nothing changes.
    pub fn build_topology(&mut self)
        ensures
            final(self).nodes_spec() == old(self).nodes_spec(),
            final(self).local_spec() == old(self).local_spec(),
            final(self).config_spec() == old(self).config_spec(),
            old(self).nodes_spec().len() <= 1 ==> final(self).connections_spec() == old(self).connections_spec(),
            old(self).nodes_spec().len() > 1 ==> exists|ids: Seq<NodeId>, rounds: Seq<Seq<int>>|
                {
                    &&& ids.no_duplicates()
                    &&& ids.to_set() == old(self).nodes_spec().dom()
                    &&& valid_draws(
                        rounds,
                        if ids.contains(old(self).local_spec()) {
                            old(self).config_spec().longrange_connections as nat
                        } else {
                            0
                        },
                        ids.len(),
                    )
                    &&& final(self).connections_spec() == planned_connections(
                        ids,
                        old(self).local_spec(),
                        old(self).config_spec().local_connections,
                        rounds,
                    )
                },
    {
        broadcast use vstd::std_specs::hash::group_hash_axioms;
        let ids = node_ids(&self.nodes);
        proof {
            ids@.unique_seq_to_set();
            assert(self.nodes@.dom().len() == self.nodes@.len());
        }
        if ids.len() <= 1 {
            return;
        }
        let n = ids.len();
        let local = self.local_id;
        let mut conns: HashMap<NodeId, Connection> = HashMap::new();
        // Where this node stands in the order
        let mut pos: Option<usize> = None;
        let mut i: usize = 0;
        while i < n
            invariant_except_break
                pos is None,
            invariant
                n == ids.len(),
                i <= n,
                forall|j: int| 0 <= j < i ==> ids@[j] != local,
            ensures
                pos matches Some(p) ==> p < n && ids@[p as int] == local,
                pos is None ==> forall|j: int| 0 <= j < n ==> ids@[j] != local,
            decreases n - i,
        {
            if ids[i] == local {
                pos = Some(i);
                break;
            }
            i = i + 1;
        }
        let ghost mut rounds: Seq<Seq<int>> = Seq::empty();
        if pos.is_none() {
            assert(!ids@.contains(local));
        }
        if let Some(idx) = pos {
            assert(ids@[idx as int] == local);
            assert(ids@.contains(local));
            assert(ids@.index_of(local) == idx as int) by {
                let c = ids@.index_of(local);
                assert(ids@[c] == local);
            }
            // Step 1: ring of local connections
            let half = self.config.local_connections / 2;
            let mut offset: usize = 1;
            while offset <= half
                invariant
                    n == ids.len(),
                    n > 1,
                    idx < n,
                    1 <= offset,
                    half < usize::MAX,
                    offset <= half + 1,
                    conns@ == ring_upto(ids@, idx as int, offset - 1),
                decreases half + 1 - offset,
            {
                let r = offset % n;
                proof {
                    vstd::arithmetic::div_mod::lemma_add_mod_noop_right(idx as int, offset as int, n as int);
                    vstd::arithmetic::div_mod::lemma_sub_mod_noop_right(idx as int, offset as int, n as int);
                }
                let right = ring_right(idx, r, n);
                let left = ring_left(idx, r, n);
                let right_id = ids[right];
                let left_id = ids[left];
                conns.insert(
                    right_id,
                    Connection { target_id: right_id, connection_type: ConnectionType::Local, latency_ms: 0 },
                );
                conns.insert(
                    left_id,
                    Connection { target_id: left_id, connection_type: ConnectionType::Local, latency_ms: 0 },
                );
                offset = offset + 1;
            }
            let ghost ring = conns@;
            // Step 2: long-range shortcuts
            let mut round: usize = 0;
            while round < self.config.longrange_connections
                invariant
                    n == ids.len(),
                    n > 1,
                    rounds.len() == round,
                    round <= self.config.longrange_connections,
                    forall|r: int| 0 <= r < rounds.len() ==> #[trigger] rounds[r].len() <= 10,
                    forall|r: int, j: int|
                        0 <= r < rounds.len() && 0 <= j < rounds[r].len() ==> 0 <= #[trigger] rounds[r][j] < n,
                    conns@ == longrange_rounds(ids@, local, ring, rounds),
                    local == self.local_id,
                decreases self.config.longrange_connections - round,
            {
                let ghost mut ds: Seq<int> = Seq::empty();
                let ghost m0 = conns@;
                let mut attempts: usize = 0;
                while attempts < 10
                    invariant_except_break
                        conns@ == m0,
                        ds.len() == attempts,
                        longrange_round(ids@, local, m0, ds, 0) == m0,
                    invariant
                        n == ids.len(),
                        n > 1,
                        attempts <= 10,
                        forall|j: int| 0 <= j < ds.len() ==> 0 <= #[trigger] ds[j] < n,
                        ds.len() <= 10,
                        local == self.local_id,
                        forall|j: int|
                            0 <= j < attempts && j < ds.len() ==> ids@[ds[j]] == local || m0.contains_key(
                                #[trigger] ids@[ds[j]],
                            ),
                    ensures
                        conns@ == longrange_round(ids@, local, m0, ds, 0),
                    decreases 10 - attempts,
                {
                    let r = random_index(n);
                    proof {
                        ds = ds.push(r as int);
                    }
                    let id = ids[r];
                    if id == local || conns.contains_key(&id) {
                        proof {
                            lemma_round_skips(ids@, local, m0, ds, ds.len() as int);
                        }
                        attempts = attempts + 1;
                        continue;
                    }
                    conns.insert(
                        id,
                        Connection { target_id: id, connection_type: ConnectionType::LongRange, latency_ms: 0 },
                    );
                    proof {
                        lemma_round_skips(ids@, local, m0, ds, ds.len() - 1);
                    }
                    break;
                }
                proof {
                    let before = rounds;
                    rounds = rounds.push(ds);
                    assert(rounds.drop_last() =~= before);
                }
                round = round + 1;
            }
        }
        self.connections = conns;
        proof {
            assert({
                &&& ids@.no_duplicates()
                &&& ids@.to_set() == old(self).nodes_spec().dom()
                &&& valid_draws(
                    rounds,
                    if ids@.contains(old(self).local_spec()) {
                        old(self).config_spec().longrange_connections as nat
                    } else {
                        0
                    },
                    ids@.len(),
                )
                &&& self.connections_spec() == planned_connections(
                    ids@,
                    old(self).local_spec(),
                    old(self).config_spec().local_connections,
                    rounds,
                )
            });
        }
    }
}

/// The route to `target` from `local` with connections `conns`, as far as
/// this node knows the network: itself, a direct connection, or none
/// (other nodes' connections are not known here).
pub open spec fn route(local: NodeId, conns: Map<NodeId, Connection>, target: NodeId) -> Option<Seq<NodeId>> {
    if target == local {
        Some(seq![local])
    } else if conns.contains_key(target) {
        Some(seq![local, target])
    } else {
        None
    }
}

impl SmallWorldTopology {
    /// The neighbours of a node for routing: this node's connections;
    /// other nodes' are not known here.
    fn get_neighbors(&self, node_id: NodeId) -> (r: Option<Vec<NodeId>>)
        ensures
            match r {
                Some(v) => node_id == self.local_id && v@.no_duplicates() && v@.to_set()
                    == self.connections@.dom(),
                None => node_id != self.local_id,
            },
    {
        if node_id == self.local_id {
            Some(node_ids(&self.connections))
        } else {
            None
        }
    }

    /// The shortest path to a node, by breadth-first search over the
    /// neighbours this node knows.
    pub fn find_route(&self, target_id: NodeId) -> (r: Option<Vec<NodeId>>)
        ensures
            match route(self.local_spec(), self.connections_spec(), target_id) {
                Some(p) => r matches Some(v) && v@ == p,
                None => r is None,
            },
    {
        broadcast use vstd::std_specs::hash::group_hash_axioms;
        let local = self.local_id;
        if target_id == local {
            let v = vec![local];
            assert(v@ =~= seq![local]);
            return Some(v);
        }
        if self.connections.contains_key(&target_id) {
            let v = vec![local, target_id];
            assert(v@ =~= seq![local, target_id]);
            return Some(v);
        }
        // Breadth-first search
        let mut queue: VecDeque<NodeId> = VecDeque::new();
        let mut visited: HashSet<NodeId> = HashSet::new();
        let mut parent: HashMap<NodeId, NodeId> = HashMap::new();
        queue.push_back(local);
        visited.insert(local);
        let ghost mut started = false;
        let ghost width = self.connections@.dom().len();
        loop
            invariant
                local == self.local_id,
                target_id != local,
                !self.connections@.contains_key(target_id),
                visited@.contains(local),
                width == self.connections@.dom().len(),
                !started ==> queue@ == seq![local],
                started ==> forall|i: int|
                    0 <= i < queue@.len() ==> #[trigger] queue@[i] != local && self.connections@.contains_key(
                        queue@[i],
                    ),
                started ==> queue@.len() <= width,
            decreases (if started { queue@.len() as int } else { width + 1 as int }),
        {
            let current = match queue.pop_front() {
                Some(c) => c,
                None => break,
            };
            if current == target_id {
                // Reconstruct the path (never reached: the target is
                // neither this node nor one of its connections)
                let mut path = vec![target_id];
                let mut node = target_id;
                loop
                    invariant
                        current == target_id,
                        target_id != local,
                        !self.connections@.contains_key(target_id),
                        current == local || self.connections@.contains_key(current),
                    decreases 0nat,
                {
                    let prev = match parent.get(&node) {
                        Some(p) => *p,
                        None => break,
                    };
                    path.push(prev);
                    node = prev;
                }
                let mut forward: Vec<NodeId> = Vec::new();
                let mut j = path.len();
                while j > 0
                    invariant
                        current == target_id,
                        target_id != local,
                        !self.connections@.contains_key(target_id),
                        current == local || self.connections@.contains_key(current),
                    decreases j,
                {
                    j = j - 1;
                    forward.push(path[j]);
                }
                return Some(forward);
            }
            match self.get_neighbors(current) {
                Some(neighbors) => {
                    let ghost q0 = queue@;
                    assert(q0.len() == 0);
                    proof {
                        neighbors@.unique_seq_to_set();
                    }
                    let mut k: usize = 0;
                    while k < neighbors.len()
                        invariant
                            local == self.local_id,
                            visited@.contains(local),
                            neighbors@.to_set() == self.connections@.dom(),
                            neighbors@.len() == width,
                            k <= neighbors.len(),
                            queue@.len() <= k,
                            forall|i: int|
                                0 <= i < queue@.len() ==> #[trigger] queue@[i] != local
                                    && self.connections@.contains_key(queue@[i]),
                        decreases neighbors.len() - k,
                    {
                        let neighbor = neighbors[k];
                        assert(neighbors@.to_set().contains(neighbor));
                        if !visited.contains(&neighbor) {
                            visited.insert(neighbor);
                            parent.insert(neighbor, current);
                            queue.push_back(neighbor);
                        }
                        k = k + 1;
                    }
                },
                None => {},
            }
            proof {
                started = true;
            }
        }
        None
    }
}

} // verus!
