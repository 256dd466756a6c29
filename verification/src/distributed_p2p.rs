//! Peer-to-peer messaging between nodes: the messages, the configuration,
//! and the table of known peers and connected ones. Sockets, encoding and
//! the message loop are the caller's part.

use vstd::prelude::*;
use std::collections::{HashMap, HashSet};
use vstd::std_specs::iter::IteratorSpec;
use crate::distributed_topology::{NodeId, NodeAddress};
use crate::clock::current_timestamp;
use crate::text::decimal;

verus! {

broadcast use vstd::std_specs::hash::group_hash_axioms;

/// Message ID for tracking request/response.
pub type MessageId = u64;

/// Types of P2P messages.
#[derive(Debug, Clone, PartialEq, Eq)]
pub enum MessageType {
    /// Health check ping
    Ping,
    /// Health check response
    Pong,
    /// Request data for specific shard
    ShardDataRequest { shard_id: u64 },
    /// Response with shard data
    ShardDataResponse { shard_id: u64, data: Vec<u8> },
    /// Execute query on remote node
    QueryRequest { query: String },
    /// Query result from remote node
    QueryResponse { result: String },
    /// Notify about shard reassignment
    ShardReassignment { shard_id: u64, new_owner: NodeId },
    /// Acknowledge message receipt
    Ack,
    /// Error response
    Error { message: String },
}

/// P2P message structure.
#[derive(Debug, Clone)]
pub struct P2PMessage {
    pub id: MessageId,
    pub sender_id: NodeId,
    pub receiver_id: NodeId,
    pub message_type: MessageType,
    /// Unix timestamp (seconds) of creation
    pub timestamp: u64,
}

impl P2PMessage {
    /// A message with the given ID (the caller numbers its messages),
    /// stamped with the current time.
    pub fn new(id: MessageId, sender_id: NodeId, receiver_id: NodeId, message_type: MessageType) -> (r: Self)
        ensures
            r.id == id,
            r.sender_id == sender_id,
            r.receiver_id == receiver_id,
            r.message_type == message_type,
    {
        P2PMessage { id, sender_id, receiver_id, message_type, timestamp: current_timestamp() }
    }
}

/// What a node does with an incoming message before any handler of its
/// own runs: a ping is answered with a pong to its sender, a pong ends the
/// exchange, and any other message goes to the handler registered for its
/// kind.
#[derive(Debug, Clone)]
pub enum Dispatch {
    Reply(P2PMessage),
    Done,
    ToHandler,
}

/// The built-in handling of an incoming message; `reply_id` numbers the
/// reply, if one is made.
pub fn dispatch_message(msg: &P2PMessage, reply_id: MessageId) -> (r: Dispatch)
    ensures
        match msg.message_type {
            MessageType::Ping => r matches Dispatch::Reply(m) && m.id == reply_id && m.sender_id
                == msg.receiver_id && m.receiver_id == msg.sender_id && m.message_type
                == MessageType::Pong,
            MessageType::Pong => r is Done,
            _ => r is ToHandler,
        },
{
    match &msg.message_type {
        MessageType::Ping => Dispatch::Reply(
            P2PMessage::new(reply_id, msg.receiver_id, msg.sender_id, MessageType::Pong),
        ),
        MessageType::Pong => Dispatch::Done,
        _ => Dispatch::ToHandler,
    }
}

/// Whether the reply to a ping shows the peer alive: only a pong does.
pub fn is_pong_reply(response: &Option<P2PMessage>) -> (r: bool)
    ensures
        r == (response matches Some(m) && m.message_type is Pong),
{
    match response {
        Some(m) => match &m.message_type {
            MessageType::Pong => true,
            _ => false,
        },
        None => false,
    }
}

/// Configuration for the P2P network.
#[derive(Debug, Clone, Copy)]
pub struct P2PConfig {
    /// Port for incoming P2P connections
    pub listen_port: u16,
    /// Timeout for connection attempts (ms)
    pub connection_timeout_ms: u64,
    /// Timeout for message responses (ms)
    pub message_timeout_ms: u64,
    /// Heartbeat interval (seconds)
    pub heartbeat_interval_secs: u64,
    /// Maximum retry attempts for failed messages
    pub max_retries: usize,
    /// Buffer size for message receiving
    pub buffer_size: usize,
}

impl Default for P2PConfig {
    fn default() -> (r: Self)
        ensures
            r.listen_port == 9000,
            r.connection_timeout_ms == 5000,
            r.message_timeout_ms == 10000,
            r.heartbeat_interval_secs == 5,
            r.max_retries == 3,
            r.buffer_size == 65536,
    {
        P2PConfig {
            listen_port: 9000,
            connection_timeout_ms: 5000,
            message_timeout_ms: 10000,
            heartbeat_interval_secs: 5,
            max_retries: 3,
            buffer_size: 65536,
        }
    }
}

/// P2P network statistics.
#[derive(Debug, Clone)]
pub struct P2PStats {
    pub total_peers: usize,
    pub active_connections: usize,
    pub local_address: String,
}

/// The peers of this node: their addresses, and which of them have an
/// open connection.
pub struct P2PNetwork {
    config: P2PConfig,
    local_id: NodeId,
    local_address: NodeAddress,
    /// Known peer addresses
    peers: HashMap<NodeId, NodeAddress>,
    /// Peers with an active connection
    connections: HashSet<NodeId>,
}

/// A peer's address as its host's characters and its port.
pub open spec fn address_view(a: NodeAddress) -> (Seq<char>, u16) {
    (a.host@, a.port)
}

impl P2PNetwork {
    /// The known peers.
    pub closed spec fn peers_spec(&self) -> Map<NodeId, NodeAddress> {
        self.peers@
    }

    /// The peers with an active connection.
    pub closed spec fn connections_spec(&self) -> Set<NodeId> {
        self.connections@
    }

    /// This node's address.
    pub closed spec fn address_spec(&self) -> NodeAddress {
        self.local_address
    }

    /// A network for this node with no peers.
    pub fn new(local_id: NodeId, local_address: NodeAddress, config: P2PConfig) -> (r: Self)
        ensures
            r.peers_spec() == Map::<NodeId, NodeAddress>::empty(),
            r.connections_spec() == Set::<NodeId>::empty(),
            r.address_spec() == local_address,
    {
        P2PNetwork { config, local_id, local_address, peers: HashMap::new(), connections: HashSet::new() }
    }

    /// Add a known peer (replacing its address).
    pub fn add_peer(&mut self, node_id: NodeId, address: NodeAddress)
        ensures
            final(self).peers_spec() == old(self).peers_spec().insert(node_id, address),
            final(self).connections_spec() == old(self).connections_spec(),
            final(self).address_spec() == old(self).address_spec(),
    {
        self.peers.insert(node_id, address);
    }

    /// Remove a peer and its connection.
    pub fn remove_peer(&mut self, node_id: NodeId)
        ensures
            final(self).peers_spec() == old(self).peers_spec().remove(node_id),
            final(self).connections_spec() == old(self).connections_spec().remove(node_id),
            final(self).address_spec() == old(self).address_spec(),
    {
        self.peers.remove(&node_id);
        self.connections.remove(&node_id);
    }

    /// Record that a connection to a peer is open.
    pub fn connection_opened(&mut self, node_id: NodeId)
        ensures
            final(self).connections_spec() == old(self).connections_spec().insert(node_id),
            final(self).peers_spec() == old(self).peers_spec(),
            final(self).address_spec() == old(self).address_spec(),
    {
        self.connections.insert(node_id);
    }

    /// Record that the connection to a peer was dropped.
    pub fn connection_closed(&mut self, node_id: NodeId)
        ensures
            final(self).connections_spec() == old(self).connections_spec().remove(node_id),
            final(self).peers_spec() == old(self).peers_spec(),
            final(self).address_spec() == old(self).address_spec(),
    {
        self.connections.remove(&node_id);
    }

    /// The address of a known peer.
    pub fn peer_address(&self, node_id: NodeId) -> (r: Option<NodeAddress>)
        ensures
            match self.peers_spec().get(node_id) {
                Some(a) => r matches Some(x) && address_view(x) == address_view(a),
                None => r is None,
            },
    {
        match self.peers.get(&node_id) {
            Some(a) => Some(NodeAddress { host: a.host.clone(), port: a.port }),
            None => None,
        }
    }

    /// All known peers with their addresses, each once, in the table's
    /// order.
    pub fn get_peers(&self) -> (r: Vec<(NodeId, NodeAddress)>)
        ensures
            r@.len() == self.peers_spec().len(),
            forall|i: int|
                0 <= i < r@.len() ==> self.peers_spec().contains_key(#[trigger] r@[i].0) && address_view(r@[i].1)
                    == address_view(self.peers_spec()[r@[i].0]),
            forall|i: int, j: int| 0 <= i < j < r@.len() ==> r@[i].0 != r@[j].0,
    {
        let ghost all = vstd::std_specs::hash::spec_keys_iter(&self.peers).remaining();
        let mut ids: Vec<NodeId> = Vec::new();
        for k in it: self.peers.keys()
            invariant
                it.seq() == all,
                ids@.len() == it.index(),
                forall|j: int| 0 <= j < it.index() ==> ids@[j] == *all[j],
            ensures
                ids@.len() == all.len(),
        {
            ids.push(*k);
        }
        assert(ids@ =~= all.unref());
        proof {
            ids@.unique_seq_to_set();
            assert(self.peers@.dom().len() == self.peers@.len());
        }
        let mut out: Vec<(NodeId, NodeAddress)> = Vec::new();
        let mut i: usize = 0;
        while i < ids.len()
            invariant
                ids@.to_set() == self.peers@.dom(),
                ids@.no_duplicates(),
                i <= ids.len(),
                out@.len() == i,
                forall|j: int| 0 <= j < i ==> #[trigger] out@[j].0 == ids@[j],
                forall|j: int|
                    0 <= j < i ==> address_view(#[trigger] out@[j].1) == address_view(self.peers@[ids@[j]]),
            decreases ids.len() - i,
        {
            let id = ids[i];
            assert(ids@.to_set().contains(id));
            let a = self.peers.get(&id).unwrap();
            out.push((id, NodeAddress { host: a.host.clone(), port: a.port }));
            i = i + 1;
        }
        assert forall|x: int, y: int| 0 <= x < y < out@.len() implies out@[x].0 != out@[y].0 by {
            assert(out@[x].0 == ids@[x]);
            assert(out@[y].0 == ids@[y]);
        }
        assert forall|x: int| 0 <= x < out@.len() implies self.peers@.contains_key(#[trigger] out@[x].0) by {
            assert(out@[x].0 == ids@[x]);
            assert(ids@.to_set().contains(ids@[x]));
        }
        out
    }

    /// Network statistics: peers, open connections, and this node's
    /// address as `host:port`.
    pub fn get_stats(&self) -> (r: P2PStats)
        ensures
            r.total_peers == self.peers_spec().len(),
            r.active_connections == self.connections_spec().len(),
            r.local_address@ == self.address_spec().host@ + ":"@ + decimal(self.address_spec().port as nat),
    {
        P2PStats {
            total_peers: self.peers.len(),
            active_connections: self.connections.len(),
            local_address: self.local_address.to_string(),
        }
    }
}

} // verus!
