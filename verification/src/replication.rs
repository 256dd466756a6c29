//! Master-slave replication: the master numbers every mutation in a
//! replication log, slaves acknowledge what they applied, and the log is
//! trimmed once it has been acknowledged.
//!
//! An entry's properties travel in serialized form (bytes); this module only
//! orders and hands them on.

use vstd::prelude::*;
use vstd::string::StringExecFns;
use crate::clock::current_timestamp;
use crate::text::copy_bytes;

verus! {

/// Node role in replication topology.
#[derive(Debug, Clone, Copy, PartialEq, Eq, Structural)]
pub enum NodeRole {
    Master,
    Slave,
}

/// Replication log sequence number.
pub type ReplicationSeq = u64;

/// Replication log entry.
#[derive(Debug, Clone)]
pub enum ReplicationEntry {
    InsertEntity { seq: ReplicationSeq, entity_id: u64, entity_type: String, properties: Vec<u8>, timestamp: u64 },
    UpdateEntity { seq: ReplicationSeq, entity_id: u64, properties: Vec<u8>, timestamp: u64 },
    DeleteEntity { seq: ReplicationSeq, entity_id: u64, timestamp: u64 },
    CreateEdge {
        seq: ReplicationSeq,
        edge_id: u64,
        from_id: u64,
        to_id: u64,
        edge_type: String,
        properties: Vec<u8>,
        timestamp: u64,
    },
    DeleteEdge { seq: ReplicationSeq, edge_id: u64, timestamp: u64 },
}

/// The value of a replication log entry.
pub enum EntryView {
    InsertEntity { seq: u64, entity_id: u64, entity_type: Seq<char>, properties: Seq<u8>, timestamp: u64 },
    UpdateEntity { seq: u64, entity_id: u64, properties: Seq<u8>, timestamp: u64 },
    DeleteEntity { seq: u64, entity_id: u64, timestamp: u64 },
    CreateEdge {
        seq: u64,
        edge_id: u64,
        from_id: u64,
        to_id: u64,
        edge_type: Seq<char>,
        properties: Seq<u8>,
        timestamp: u64,
    },
    DeleteEdge { seq: u64, edge_id: u64, timestamp: u64 },
}

impl View for ReplicationEntry {
    type V = EntryView;

    open spec fn view(&self) -> EntryView {
        match self {
            ReplicationEntry::InsertEntity { seq, entity_id, entity_type, properties, timestamp } =>
                EntryView::InsertEntity {
                    seq: *seq,
                    entity_id: *entity_id,
                    entity_type: entity_type@,
                    properties: properties@,
                    timestamp: *timestamp,
                },
            ReplicationEntry::UpdateEntity { seq, entity_id, properties, timestamp } =>
                EntryView::UpdateEntity {
                    seq: *seq,
                    entity_id: *entity_id,
                    properties: properties@,
                    timestamp: *timestamp,
                },
            ReplicationEntry::DeleteEntity { seq, entity_id, timestamp } =>
                EntryView::DeleteEntity { seq: *seq, entity_id: *entity_id, timestamp: *timestamp },
            ReplicationEntry::CreateEdge { seq, edge_id, from_id, to_id, edge_type, properties, timestamp } =>
                EntryView::CreateEdge {
                    seq: *seq,
                    edge_id: *edge_id,
                    from_id: *from_id,
                    to_id: *to_id,
                    edge_type: edge_type@,
                    properties: properties@,
                    timestamp: *timestamp,
                },
            ReplicationEntry::DeleteEdge { seq, edge_id, timestamp } =>
                EntryView::DeleteEdge { seq: *seq, edge_id: *edge_id, timestamp: *timestamp },
        }
    }
}

/// The sequence number of an entry.
pub open spec fn entry_seq(e: EntryView) -> u64 {
    match e {
        EntryView::InsertEntity { seq, .. } => seq,
        EntryView::UpdateEntity { seq, .. } => seq,
        EntryView::DeleteEntity { seq, .. } => seq,
        EntryView::CreateEdge { seq, .. } => seq,
        EntryView::DeleteEdge { seq, .. } => seq,
    }
}

/// The time stamp of an entry.
pub open spec fn entry_timestamp(e: EntryView) -> u64 {
    match e {
        EntryView::InsertEntity { timestamp, .. } => timestamp,
        EntryView::UpdateEntity { timestamp, .. } => timestamp,
        EntryView::DeleteEntity { timestamp, .. } => timestamp,
        EntryView::CreateEdge { timestamp, .. } => timestamp,
        EntryView::DeleteEdge { timestamp, .. } => timestamp,
    }
}

fn copy_text(s: &String) -> (r: String)
    ensures
        r@ == s@,
{
    s.clone()
}

impl ReplicationEntry {
    /// The entry's sequence number.
    pub fn seq(&self) -> (r: ReplicationSeq)
        ensures
            r == entry_seq(self@),
    {
        match self {
            ReplicationEntry::InsertEntity { seq, .. } => *seq,
            ReplicationEntry::UpdateEntity { seq, .. } => *seq,
            ReplicationEntry::DeleteEntity { seq, .. } => *seq,
            ReplicationEntry::CreateEdge { seq, .. } => *seq,
            ReplicationEntry::DeleteEdge { seq, .. } => *seq,
        }
    }

    /// The entry's time stamp.
    pub fn timestamp(&self) -> (r: u64)
        ensures
            r == entry_timestamp(self@),
    {
        match self {
            ReplicationEntry::InsertEntity { timestamp, .. } => *timestamp,
            ReplicationEntry::UpdateEntity { timestamp, .. } => *timestamp,
            ReplicationEntry::DeleteEntity { timestamp, .. } => *timestamp,
            ReplicationEntry::CreateEdge { timestamp, .. } => *timestamp,
            ReplicationEntry::DeleteEdge { timestamp, .. } => *timestamp,
        }
    }

    /// A copy of the entry.
    pub fn duplicate(&self) -> (r: Self)
        ensures
            r@ == self@,
    {
        match self {
            ReplicationEntry::InsertEntity { seq, entity_id, entity_type, properties, timestamp } =>
                ReplicationEntry::InsertEntity {
                    seq: *seq,
                    entity_id: *entity_id,
                    entity_type: copy_text(entity_type),
                    properties: copy_bytes(properties),
                    timestamp: *timestamp,
                },
            ReplicationEntry::UpdateEntity { seq, entity_id, properties, timestamp } =>
                ReplicationEntry::UpdateEntity {
                    seq: *seq,
                    entity_id: *entity_id,
                    properties: copy_bytes(properties),
                    timestamp: *timestamp,
                },
            ReplicationEntry::DeleteEntity { seq, entity_id, timestamp } =>
                ReplicationEntry::DeleteEntity { seq: *seq, entity_id: *entity_id, timestamp: *timestamp },
            ReplicationEntry::CreateEdge { seq, edge_id, from_id, to_id, edge_type, properties, timestamp } =>
                ReplicationEntry::CreateEdge {
                    seq: *seq,
                    edge_id: *edge_id,
                    from_id: *from_id,
                    to_id: *to_id,
                    edge_type: copy_text(edge_type),
                    properties: copy_bytes(properties),
                    timestamp: *timestamp,
                },
            ReplicationEntry::DeleteEdge { seq, edge_id, timestamp } =>
                ReplicationEntry::DeleteEdge { seq: *seq, edge_id: *edge_id, timestamp: *timestamp },
        }
    }
}

/// Replication configuration.
#[derive(Debug, Clone)]
pub struct ReplicationConfig {
    /// Node ID (unique identifier)
    pub node_id: String,
    /// Node role (Master or Slave)
    pub role: NodeRole,
    /// Master address (for slaves)
    pub master_address: Option<String>,
    /// Replication lag tolerance (ms)
    pub max_lag_ms: u64,
    /// Batch size for replication
    pub batch_size: usize,
}

impl Default for ReplicationConfig {
    fn default() -> (r: Self)
        ensures
            r.node_id@ == "node-1"@,
            r.role == NodeRole::Master,
            r.master_address is None,
            r.max_lag_ms == 1000,
            r.batch_size == 100,
    {
        ReplicationConfig {
            node_id: String::from_str("node-1"),
            role: NodeRole::Master,
            master_address: None,
            max_lag_ms: 1000,
            batch_size: 100,
        }
    }
}

/// Slave replication state.
#[derive(Debug, Clone)]
pub struct SlaveState {
    pub slave_id: String,
    pub last_ack_seq: ReplicationSeq,
    pub last_contact: u64,
    pub lag_ms: u64,
}

/// The value of a slave's state.
pub struct SlaveView {
    pub slave_id: Seq<char>,
    pub last_ack_seq: u64,
    pub last_contact: u64,
    pub lag_ms: u64,
}

impl View for SlaveState {
    type V = SlaveView;

    open spec fn view(&self) -> SlaveView {
        SlaveView {
            slave_id: self.slave_id@,
            last_ack_seq: self.last_ack_seq,
            last_contact: self.last_contact,
            lag_ms: self.lag_ms,
        }
    }
}

impl SlaveState {
    /// A copy of the state.
    pub fn duplicate(&self) -> (r: Self)
        ensures
            r@ == self@,
    {
        SlaveState {
            slave_id: copy_text(&self.slave_id),
            last_ack_seq: self.last_ack_seq,
            last_contact: self.last_contact,
            lag_ms: self.lag_ms,
        }
    }
}

/// The views of a sequence of entries.
pub open spec fn entry_views(v: Seq<ReplicationEntry>) -> Seq<EntryView> {
    v.map_values(|e: ReplicationEntry| e@)
}

/// The views of a sequence of slave states.
pub open spec fn slave_views(v: Seq<SlaveState>) -> Seq<SlaveView> {
    v.map_values(|s: SlaveState| s@)
}

/// The log with its leading entries of sequence number at most `up_to`
/// removed, as popping them from the front one by one does.
pub open spec fn trimmed(log: Seq<EntryView>, up_to: u64) -> Seq<EntryView>
    decreases log.len(),
{
    if log.len() > 0 && entry_seq(log[0]) <= up_to {
        trimmed(log.drop_first(), up_to)
    } else {
        log
    }
}

/// Whether a slave with id `id` is registered.
pub open spec fn has_slave(s: Seq<SlaveView>, id: Seq<char>) -> bool {
    exists|i: int| 0 <= i < s.len() && s[i].slave_id == id
}

/// The position of slave `id`.
pub open spec fn slave_index(s: Seq<SlaveView>, id: Seq<char>) -> int {
    choose|i: int| 0 <= i < s.len() && s[i].slave_id == id
}

/// Slave ids are pairwise distinct.
pub open spec fn slave_ids_unique(s: Seq<SlaveView>) -> bool {
    forall|i: int, j: int| 0 <= i < s.len() && 0 <= j < s.len() && s[i].slave_id == s[j].slave_id ==> i == j
}

/// The lag the master records for an acknowledgement of `ack` when its next
/// sequence number is `current`: ten milliseconds per unacknowledged entry.
pub open spec fn lag_for(current: u64, ack: u64) -> u64 {
    let behind: int = if current >= ack { current - ack } else { 0 };
    if behind * 10 > u64::MAX { u64::MAX } else { (behind * 10) as u64 }
}

/// The message for a log operation on a slave.
pub open spec fn only_master_log_msg() -> Seq<char> {
    "Only master can log operations"@
}

/// Replication manager.
pub struct ReplicationManager {
    config: ReplicationConfig,
    /// Replication log, oldest first
    log: Vec<ReplicationEntry>,
    /// Next sequence number
    next_seq: ReplicationSeq,
    /// Slave states (for master)
    slave_states: Vec<SlaveState>,
    /// Last applied sequence (for slave)
    last_applied_seq: ReplicationSeq,
}

impl ReplicationManager {
    /// The configuration.
    pub closed spec fn config_spec(&self) -> ReplicationConfig {
        self.config
    }

    /// The replication log, oldest entry first.
    pub closed spec fn log_spec(&self) -> Seq<EntryView> {
        entry_views(self.log@)
    }

    /// The next sequence number to hand out.
    pub closed spec fn next_seq_spec(&self) -> u64 {
        self.next_seq
    }

    /// The registered slaves.
    pub closed spec fn slaves(&self) -> Seq<SlaveView> {
        slave_views(self.slave_states@)
    }

    /// The last sequence number a slave applied.
    pub closed spec fn last_applied_spec(&self) -> u64 {
        self.last_applied_seq
    }

    /// Log entries carry increasing sequence numbers below the next one,
    /// slave ids are distinct, and a slave keeps no log.
    pub closed spec fn wf(&self) -> bool {
        &&& forall|i: int, j: int| 0 <= i < j < self.log@.len() ==> entry_seq(self.log@[i]@) < entry_seq(self.log@[j]@)
        &&& forall|i: int| 0 <= i < self.log@.len() ==> entry_seq(#[trigger] self.log@[i]@) < self.next_seq
        &&& slave_ids_unique(self.slaves())
        &&& self.config.role == NodeRole::Slave ==> self.log@.len() == 0
    }

    /// A manager with an empty log and no slaves; numbering starts at 0.
    pub fn new(config: ReplicationConfig) -> (r: Self)
        ensures
            r.wf(),
            r.config_spec() == config,
            r.log_spec() == Seq::<EntryView>::empty(),
            r.next_seq_spec() == 0,
            r.slaves() == Seq::<SlaveView>::empty(),
            r.last_applied_spec() == 0,
    {
        let r = ReplicationManager {
            config,
            log: Vec::new(),
            next_seq: 0,
            slave_states: Vec::new(),
            last_applied_seq: 0,
        };
        assert(r.log_spec() =~= Seq::<EntryView>::empty());
        assert(r.slaves() =~= Seq::<SlaveView>::empty());
        r
    }

    /// A master node with the default lag tolerance (1000 ms) and batch size (100).
    pub fn new_master(node_id: String) -> (r: Self)
        ensures
            r.wf(),
            r.config_spec().node_id@ == node_id@,
            r.config_spec().role == NodeRole::Master,
            r.config_spec().master_address is None,
            r.config_spec().max_lag_ms == 1000,
            r.config_spec().batch_size == 100,
            r.log_spec() == Seq::<EntryView>::empty(),
            r.next_seq_spec() == 0,
            r.slaves() == Seq::<SlaveView>::empty(),
    {
        let config = ReplicationConfig {
            node_id,
            role: NodeRole::Master,
            master_address: None,
            max_lag_ms: 1000,
            batch_size: 100,
        };
        Self::new(config)
    }

    /// A slave node following `master_address`, with the default lag
    /// tolerance (1000 ms) and batch size (100).
    pub fn new_slave(node_id: String, master_address: String) -> (r: Self)
        ensures
            r.wf(),
            r.config_spec().node_id@ == node_id@,
            r.config_spec().role == NodeRole::Slave,
            r.config_spec().master_address == Some(master_address),
            r.config_spec().max_lag_ms == 1000,
            r.config_spec().batch_size == 100,
            r.log_spec() == Seq::<EntryView>::empty(),
            r.next_seq_spec() == 0,
            r.slaves() == Seq::<SlaveView>::empty(),
    {
        let config = ReplicationConfig {
            node_id,
            role: NodeRole::Slave,
            master_address: Some(master_address),
            max_lag_ms: 1000,
            batch_size: 100,
        };
        Self::new(config)
    }

    /// The node's role.
    pub fn role(&self) -> (r: NodeRole)
        ensures
            r == self.config_spec().role,
    {
        self.config.role
    }

    /// Appends `entry` under the next sequence number (master only; the
    /// caller has checked the role).
    fn append(&mut self, entry: ReplicationEntry)
        requires
            old(self).wf(),
            old(self).config.role == NodeRole::Master,
            entry_seq(entry@) == old(self).next_seq,
            old(self).next_seq < u64::MAX,
        ensures
            final(self).wf(),
            final(self).log_spec() == old(self).log_spec().push(entry@),
            final(self).next_seq == old(self).next_seq + 1,
            final(self).config == old(self).config,
            final(self).slave_states == old(self).slave_states,
            final(self).last_applied_seq == old(self).last_applied_seq,
    {
        let ghost before = self.log@;
        self.log.push(entry);
        self.next_seq = self.next_seq + 1;
        proof {
            assert(entry_views(self.log@) =~= entry_views(before).push(entry@));
            assert forall|i: int, j: int| 0 <= i < j < self.log@.len() implies entry_seq(self.log@[i]@) < entry_seq(self.log@[j]@) by {
                if j == self.log@.len() - 1 {
                    assert(entry_seq(before[i]@) < old(self).next_seq);
                } else {
                    assert(self.log@[i] == before[i] && self.log@[j] == before[j]);
                }
            }
            assert forall|i: int| 0 <= i < self.log@.len() implies entry_seq(#[trigger] self.log@[i]@) < self.next_seq by {
                if i < before.len() {
                    assert(self.log@[i] == before[i]);
                }
            }
        }
    }

    /// Log an insert (master only): the entry gets the next sequence number,
    /// which is returned, and the current time.
    pub fn log_insert(&mut self, entity_id: u64, entity_type: String, properties: Vec<u8>) -> (r: Result<ReplicationSeq, String>)
        requires
            old(self).wf(),
            old(self).next_seq_spec() < u64::MAX,
        ensures
            final(self).wf(),
            final(self).config_spec() == old(self).config_spec(),
            final(self).slaves() == old(self).slaves(),
            old(self).config_spec().role != NodeRole::Master ==> (r matches Err(e) && e@ == only_master_log_msg())
                && final(self).log_spec() == old(self).log_spec()
                && final(self).next_seq_spec() == old(self).next_seq_spec(),
            old(self).config_spec().role == NodeRole::Master ==> r == Ok::<u64, String>(old(self).next_seq_spec())
                && final(self).next_seq_spec() == old(self).next_seq_spec() + 1
                && final(self).log_spec().drop_last() == old(self).log_spec()
                && final(self).log_spec().last() == (EntryView::InsertEntity {
                    seq: old(self).next_seq_spec(),
                    entity_id,
                    entity_type: entity_type@,
                    properties: properties@,
                    timestamp: entry_timestamp(final(self).log_spec().last()),
                }),
    {
        if self.config.role != NodeRole::Master {
            return Err(String::from_str("Only master can log operations"));
        }
        let seq = self.next_seq;
        let timestamp = current_timestamp();
        let entry = ReplicationEntry::InsertEntity { seq, entity_id, entity_type, properties, timestamp };
        self.append(entry);
        proof { assert(self.log_spec().drop_last() =~= old(self).log_spec()); }
        Ok(seq)
    }

    /// Log an update (master only).
    pub fn log_update(&mut self, entity_id: u64, properties: Vec<u8>) -> (r: Result<ReplicationSeq, String>)
        requires
            old(self).wf(),
            old(self).next_seq_spec() < u64::MAX,
        ensures
            final(self).wf(),
            final(self).config_spec() == old(self).config_spec(),
            final(self).slaves() == old(self).slaves(),
            old(self).config_spec().role != NodeRole::Master ==> (r matches Err(e) && e@ == only_master_log_msg())
                && final(self).log_spec() == old(self).log_spec()
                && final(self).next_seq_spec() == old(self).next_seq_spec(),
            old(self).config_spec().role == NodeRole::Master ==> r == Ok::<u64, String>(old(self).next_seq_spec())
                && final(self).next_seq_spec() == old(self).next_seq_spec() + 1
                && final(self).log_spec().drop_last() == old(self).log_spec()
                && final(self).log_spec().last() == (EntryView::UpdateEntity {
                    seq: old(self).next_seq_spec(),
                    entity_id,
                    properties: properties@,
                    timestamp: entry_timestamp(final(self).log_spec().last()),
                }),
    {
        if self.config.role != NodeRole::Master {
            return Err(String::from_str("Only master can log operations"));
        }
        let seq = self.next_seq;
        let timestamp = current_timestamp();
        let entry = ReplicationEntry::UpdateEntity { seq, entity_id, properties, timestamp };
        self.append(entry);
        proof { assert(self.log_spec().drop_last() =~= old(self).log_spec()); }
        Ok(seq)
    }

    /// Log a delete (master only).
    pub fn log_delete(&mut self, entity_id: u64) -> (r: Result<ReplicationSeq, String>)
        requires
            old(self).wf(),
            old(self).next_seq_spec() < u64::MAX,
        ensures
            final(self).wf(),
            final(self).config_spec() == old(self).config_spec(),
            final(self).slaves() == old(self).slaves(),
            old(self).config_spec().role != NodeRole::Master ==> (r matches Err(e) && e@ == only_master_log_msg())
                && final(self).log_spec() == old(self).log_spec()
                && final(self).next_seq_spec() == old(self).next_seq_spec(),
            old(self).config_spec().role == NodeRole::Master ==> r == Ok::<u64, String>(old(self).next_seq_spec())
                && final(self).next_seq_spec() == old(self).next_seq_spec() + 1
                && final(self).log_spec().drop_last() == old(self).log_spec()
                && final(self).log_spec().last() == (EntryView::DeleteEntity {
                    seq: old(self).next_seq_spec(),
                    entity_id,
                    timestamp: entry_timestamp(final(self).log_spec().last()),
                }),
    {
        if self.config.role != NodeRole::Master {
            return Err(String::from_str("Only master can log operations"));
        }
        let seq = self.next_seq;
        let timestamp = current_timestamp();
        let entry = ReplicationEntry::DeleteEntity { seq, entity_id, timestamp };
        self.append(entry);
        proof { assert(self.log_spec().drop_last() =~= old(self).log_spec()); }
        Ok(seq)
    }

    /// Log a new edge (master only).
    pub fn log_create_edge(&mut self, edge_id: u64, from_id: u64, to_id: u64, edge_type: String, properties: Vec<u8>) -> (r: Result<ReplicationSeq, String>)
        requires
            old(self).wf(),
            old(self).next_seq_spec() < u64::MAX,
        ensures
            final(self).wf(),
            final(self).config_spec() == old(self).config_spec(),
            final(self).slaves() == old(self).slaves(),
            old(self).config_spec().role != NodeRole::Master ==> (r matches Err(e) && e@ == only_master_log_msg())
                && final(self).log_spec() == old(self).log_spec()
                && final(self).next_seq_spec() == old(self).next_seq_spec(),
            old(self).config_spec().role == NodeRole::Master ==> r == Ok::<u64, String>(old(self).next_seq_spec())
                && final(self).next_seq_spec() == old(self).next_seq_spec() + 1
                && final(self).log_spec().drop_last() == old(self).log_spec()
                && final(self).log_spec().last() == (EntryView::CreateEdge {
                    seq: old(self).next_seq_spec(),
                    edge_id,
                    from_id,
                    to_id,
                    edge_type: edge_type@,
                    properties: properties@,
                    timestamp: entry_timestamp(final(self).log_spec().last()),
                }),
    {
        if self.config.role != NodeRole::Master {
            return Err(String::from_str("Only master can log operations"));
        }
        let seq = self.next_seq;
        let timestamp = current_timestamp();
        let entry = ReplicationEntry::CreateEdge { seq, edge_id, from_id, to_id, edge_type, properties, timestamp };
        self.append(entry);
        proof { assert(self.log_spec().drop_last() =~= old(self).log_spec()); }
        Ok(seq)
    }

    /// The entries from sequence `since_seq` on, oldest first, at most a
    /// batch of them.
    pub fn get_entries_since(&self, since_seq: ReplicationSeq) -> (r: Vec<ReplicationEntry>)
        requires
            self.wf(),
        ensures
            ({
                let f = self.log_spec().filter(|e: EntryView| entry_seq(e) >= since_seq);
                entry_views(r@) == f.take(
                    if f.len() < self.config_spec().batch_size { f.len() as int } else { self.config_spec().batch_size as int })
            }),
    {
        let ghost p = |e: EntryView| entry_seq(e) >= since_seq;
        let ghost s = self.log_spec();
        let batch = self.config.batch_size;
        let mut out: Vec<ReplicationEntry> = Vec::new();
        let mut i: usize = 0;
        while i < self.log.len() && out.len() < batch
            invariant
                s == self.log_spec(),
                s.len() == self.log@.len(),
                batch == self.config_spec().batch_size,
                p == (|e: EntryView| entry_seq(e) >= since_seq),
                i <= self.log@.len(),
                out.len() <= batch,
                entry_views(out@) == s.subrange(0, i as int).filter(p),
            decreases self.log.len() - i,
        {
            let ghost sub = s.subrange(0, i + 1);
            proof {
                assert(sub.drop_last() =~= s.subrange(0, i as int));
                sub.drop_last().lemma_filter_push(sub.last(), p);
                assert(sub =~= sub.drop_last().push(sub.last()));
            }
            if self.log[i].seq() >= since_seq {
                let e = self.log[i].duplicate();
                let ghost before = out@;
                out.push(e);
                proof { assert(entry_views(out@) =~= entry_views(before).push(e@)); }
            }
            i = i + 1;
        }
        proof {
            let f = s.filter(p);
            let k = entry_views(out@).len();
            // The entries kept so far are a prefix of all kept entries.
            lemma_filter_prefix(s, p, i as int);
            if i < self.log@.len() {
                assert(out.len() == batch);
            } else {
                assert(s.subrange(0, i as int) =~= s);
            }
            assert(entry_views(out@) =~= f.take(
                if f.len() < batch { f.len() as int } else { batch as int }));
        }
        out
    }

    /// Apply an entry (slave only): it becomes the last applied one.
    pub fn apply_entry(&mut self, entry: ReplicationEntry) -> (r: Result<(), String>)
        requires
            old(self).wf(),
        ensures
            final(self).wf(),
            final(self).config_spec() == old(self).config_spec(),
            final(self).log_spec() == old(self).log_spec(),
            final(self).next_seq_spec() == old(self).next_seq_spec(),
            final(self).slaves() == old(self).slaves(),
            old(self).config_spec().role != NodeRole::Slave ==> (r matches Err(e) && e@ == "Only slave can apply entries"@)
                && final(self).last_applied_spec() == old(self).last_applied_spec(),
            old(self).config_spec().role == NodeRole::Slave ==> r is Ok
                && final(self).last_applied_spec() == entry_seq(entry@),
    {
        if self.config.role != NodeRole::Slave {
            return Err(String::from_str("Only slave can apply entries"));
        }
        self.last_applied_seq = entry.seq();
        Ok(())
    }

    /// Replication lag of a slave: how far the newest logged entry is ahead
    /// of the last applied one; 0 for a master or an empty log.
    pub fn get_replication_lag(&self) -> (r: u64)
        requires
            self.wf(),
        ensures
            self.config_spec().role != NodeRole::Slave ==> r == 0,
            self.config_spec().role == NodeRole::Slave ==> r == 0,
    {
        if self.config.role != NodeRole::Slave {
            return 0;
        }
        // A slave never logs, so its log is empty.
        if self.log.len() > 0 {
            let latest = self.log[self.log.len() - 1].seq();
            if latest >= self.last_applied_seq {
                return latest - self.last_applied_seq;
            }
        }
        0
    }

    fn find_slave(&self, slave_id: &str) -> (r: Option<usize>)
        requires
            self.wf(),
        ensures
            r is None ==> !has_slave(self.slaves(), slave_id@),
            r matches Some(i) ==> i < self.slave_states@.len() && self.slaves()[i as int].slave_id == slave_id@
                && slave_index(self.slaves(), slave_id@) == i,
    {
        let mut i: usize = 0;
        while i < self.slave_states.len()
            invariant
                self.wf(),
                i <= self.slave_states@.len(),
                forall|j: int| 0 <= j < i ==> self.slaves()[j].slave_id != slave_id@,
            decreases self.slave_states.len() - i,
        {
            if crate::text::str_equal(self.slave_states[i].slave_id.as_str(), slave_id) {
                proof {
                    assert(self.slaves()[i as int].slave_id == slave_id@);
                    lemma_slave_index(self.slaves(), i as int);
                }
                return Some(i);
            }
            i = i + 1;
        }
        None
    }

    /// Register a slave (master only), starting from sequence 0 with no lag
    /// and contact time now; a registered id is replaced.
    pub fn register_slave(&mut self, slave_id: String) -> (r: Result<(), String>)
        requires
            old(self).wf(),
        ensures
            final(self).wf(),
            final(self).config_spec() == old(self).config_spec(),
            final(self).log_spec() == old(self).log_spec(),
            final(self).next_seq_spec() == old(self).next_seq_spec(),
            old(self).config_spec().role != NodeRole::Master ==> (r matches Err(e) && e@ == "Only master can register slaves"@)
                && final(self).slaves() == old(self).slaves(),
            old(self).config_spec().role == NodeRole::Master ==> r is Ok && ({
                let s = final(self).slaves();
                &&& has_slave(s, slave_id@)
                &&& s[slave_index(s, slave_id@)].last_ack_seq == 0
                &&& s[slave_index(s, slave_id@)].lag_ms == 0
                &&& forall|id: Seq<char>| id != slave_id@ ==> (has_slave(s, id) == has_slave(old(self).slaves(), id))
                &&& forall|id: Seq<char>| id != slave_id@ && has_slave(old(self).slaves(), id)
                    ==> s[slave_index(s, id)] == old(self).slaves()[slave_index(old(self).slaves(), id)]
                &&& s.len() == old(self).slaves().len() + (if has_slave(old(self).slaves(), slave_id@) { 0int } else { 1int })
            }),
    {
        if self.config.role != NodeRole::Master {
            return Err(String::from_str("Only master can register slaves"));
        }
        let ghost before = self.slaves();
        let now = current_timestamp();
        let state = SlaveState { slave_id, last_ack_seq: 0, last_contact: now, lag_ms: 0 };
        let ghost sv = state@;
        match self.find_slave(state.slave_id.as_str()) {
            Some(i) => {
                self.slave_states.set(i, state);
                proof {
                    let after = self.slaves();
                    assert(after =~= before.update(i as int, sv));
                    assert forall|a: int, b: int| 0 <= a < after.len() && 0 <= b < after.len()
                        && after[a].slave_id == after[b].slave_id implies a == b by {
                        assert(after[a].slave_id == before[a].slave_id);
                        assert(after[b].slave_id == before[b].slave_id);
                    }
                    lemma_slave_index(after, i as int);
                    assert forall|id: Seq<char>| id != sv.slave_id implies has_slave(after, id) == has_slave(before, id) by {
                        if has_slave(before, id) {
                            let k = slave_index(before, id);
                            assert(after[k].slave_id == id);
                        }
                        if has_slave(after, id) {
                            let k = slave_index(after, id);
                            assert(before[k].slave_id == id);
                        }
                    }
                    assert forall|id: Seq<char>| id != sv.slave_id && has_slave(before, id)
                        implies after[slave_index(after, id)] == before[slave_index(before, id)] by {
                        let k = slave_index(before, id);
                        lemma_slave_index(before, k);
                        assert(after[k] == before[k]);
                        lemma_slave_index(after, k);
                    }
                }
            },
            None => {
                self.slave_states.push(state);
                proof {
                    let after = self.slaves();
                    assert(after =~= before.push(sv));
                    assert forall|a: int, b: int| 0 <= a < after.len() && 0 <= b < after.len()
                        && after[a].slave_id == after[b].slave_id implies a == b by {
                        if a < before.len() && b < before.len() {
                            assert(after[a] == before[a] && after[b] == before[b]);
                        } else if a < before.len() {
                            assert(before[a].slave_id == sv.slave_id);
                        } else if b < before.len() {
                            assert(before[b].slave_id == sv.slave_id);
                        }
                    }
                    lemma_slave_index(after, before.len() as int);
                    assert forall|id: Seq<char>| id != sv.slave_id implies has_slave(after, id) == has_slave(before, id) by {
                        if has_slave(before, id) {
                            let k = slave_index(before, id);
                            assert(after[k].slave_id == id);
                        }
                        if has_slave(after, id) {
                            let k = slave_index(after, id);
                            if k < before.len() {
                                assert(before[k].slave_id == id);
                            }
                        }
                    }
                    assert forall|id: Seq<char>| id != sv.slave_id && has_slave(before, id)
                        implies after[slave_index(after, id)] == before[slave_index(before, id)] by {
                        let k = slave_index(before, id);
                        lemma_slave_index(before, k);
                        assert(after[k] == before[k]);
                        lemma_slave_index(after, k);
                    }
                }
            },
        }
        Ok(())
    }

    /// Record a slave's acknowledgement (master only): its last acknowledged
    /// sequence becomes `ack_seq`, its contact time now, and its lag ten
    /// milliseconds per entry it is behind. An unknown slave changes nothing.
    pub fn update_slave_ack(&mut self, slave_id: &str, ack_seq: ReplicationSeq) -> (r: Result<(), String>)
        requires
            old(self).wf(),
        ensures
            final(self).wf(),
            final(self).config_spec() == old(self).config_spec(),
            final(self).log_spec() == old(self).log_spec(),
            final(self).next_seq_spec() == old(self).next_seq_spec(),
            old(self).config_spec().role != NodeRole::Master ==> (r matches Err(e) && e@ == "Only master can update slave ack"@)
                && final(self).slaves() == old(self).slaves(),
            old(self).config_spec().role == NodeRole::Master && !has_slave(old(self).slaves(), slave_id@)
                ==> r is Ok && final(self).slaves() == old(self).slaves(),
            old(self).config_spec().role == NodeRole::Master && has_slave(old(self).slaves(), slave_id@)
                ==> r is Ok && ({
                let k = slave_index(old(self).slaves(), slave_id@);
                let s = final(self).slaves();
                &&& s.len() == old(self).slaves().len()
                &&& s[k].slave_id == slave_id@
                &&& s[k].last_ack_seq == ack_seq
                &&& s[k].lag_ms == lag_for(old(self).next_seq_spec(), ack_seq)
                &&& forall|j: int| 0 <= j < s.len() && j != k ==> s[j] == old(self).slaves()[j]
            }),
    {
        if self.config.role != NodeRole::Master {
            return Err(String::from_str("Only master can update slave ack"));
        }
        let ghost before = self.slaves();
        match self.find_slave(slave_id) {
            Some(i) => {
                let now = current_timestamp();
                let behind: u64 = if self.next_seq >= ack_seq { self.next_seq - ack_seq } else { 0 };
                let lag: u64 = if behind > u64::MAX / 10 { u64::MAX } else { behind * 10 };
                let state = SlaveState {
                    slave_id: copy_text(&self.slave_states[i].slave_id),
                    last_ack_seq: ack_seq,
                    last_contact: now,
                    lag_ms: lag,
                };
                let ghost sv = state@;
                self.slave_states.set(i, state);
                proof {
                    let after = self.slaves();
                    assert(after =~= before.update(i as int, sv));
                    assert forall|a: int, b: int| 0 <= a < after.len() && 0 <= b < after.len()
                        && after[a].slave_id == after[b].slave_id implies a == b by {
                        assert(after[a].slave_id == before[a].slave_id);
                        assert(after[b].slave_id == before[b].slave_id);
                    }
                }
            },
            None => {},
        }
        Ok(())
    }

    /// Copies of all slave states.
    pub fn get_slave_states(&self) -> (r: Vec<SlaveState>)
        ensures
            slave_views(r@) == self.slaves(),
    {
        let mut out: Vec<SlaveState> = Vec::new();
        let mut i: usize = 0;
        while i < self.slave_states.len()
            invariant
                i <= self.slave_states@.len(),
                slave_views(out@) == self.slaves().subrange(0, i as int),
            decreases self.slave_states.len() - i,
        {
            let c = self.slave_states[i].duplicate();
            let ghost before = out@;
            out.push(c);
            proof {
                assert(slave_views(out@) =~= slave_views(before).push(c@));
                assert(slave_views(out@) =~= self.slaves().subrange(0, i + 1));
            }
            i = i + 1;
        }
        assert(self.slaves().subrange(0, self.slave_states@.len() as int) =~= self.slaves());
        out
    }

    /// The next sequence number.
    pub fn current_seq(&self) -> (r: ReplicationSeq)
        ensures
            r == self.next_seq_spec(),
    {
        self.next_seq
    }

    /// The number of log entries.
    pub fn log_size(&self) -> (r: usize)
        ensures
            r == self.log_spec().len(),
    {
        self.log.len()
    }

    /// Drop the log entries up to and including sequence `up_to_seq`, as
    /// `trimmed` states (safe once every slave has acknowledged them).
    pub fn trim_log(&mut self, up_to_seq: ReplicationSeq)
        requires
            old(self).wf(),
        ensures
            final(self).wf(),
            final(self).log_spec() == trimmed(old(self).log_spec(), up_to_seq),
            final(self).config_spec() == old(self).config_spec(),
            final(self).next_seq_spec() == old(self).next_seq_spec(),
            final(self).slaves() == old(self).slaves(),
    {
        let ghost s = self.log_spec();
        let mut k: usize = 0;
        assert(s.subrange(0, s.len() as int) =~= s);
        while k < self.log.len() && self.log[k].seq() <= up_to_seq
            invariant
                s == self.log_spec(),
                s.len() == self.log@.len(),
                k <= self.log@.len(),
                trimmed(s, up_to_seq) == trimmed(s.subrange(k as int, s.len() as int), up_to_seq),
            decreases self.log.len() - k,
        {
            proof {
                let t = s.subrange(k as int, s.len() as int);
                assert(t.drop_first() =~= s.subrange(k + 1, s.len() as int));
            }
            k = k + 1;
        }
        proof {
            let t = s.subrange(k as int, s.len() as int);
            if t.len() > 0 {
                assert(t[0] == s[k as int]);
            }
        }
        let mut kept: Vec<ReplicationEntry> = Vec::new();
        let mut i: usize = k;
        while i < self.log.len()
            invariant
                s == self.log_spec(),
                s.len() == self.log@.len(),
                k <= i <= self.log@.len(),
                entry_views(kept@) == s.subrange(k as int, i as int),
            decreases self.log.len() - i,
        {
            let e = self.log[i].duplicate();
            let ghost before = kept@;
            kept.push(e);
            proof {
                assert(entry_views(kept@) =~= entry_views(before).push(e@));
                assert(entry_views(kept@) =~= s.subrange(k as int, i + 1));
            }
            i = i + 1;
        }
        let ghost old_log = self.log@;
        self.log = kept;
        proof {
            assert(self.log_spec() =~= s.subrange(k as int, s.len() as int));
            assert forall|a: int| 0 <= a < self.log@.len() implies self.log@[a]@ == old_log[a + k]@ by {
                assert(self.log_spec()[a] == s[a + k]);
            }
            assert forall|a: int, b: int| 0 <= a < b < self.log@.len() implies entry_seq(self.log@[a]@) < entry_seq(self.log@[b]@) by {
                assert(self.log@[a]@ == old_log[a + k]@);
                assert(self.log@[b]@ == old_log[b + k]@);
            }
            assert forall|a: int| 0 <= a < self.log@.len() implies entry_seq(#[trigger] self.log@[a]@) < self.next_seq by {
                assert(self.log@[a]@ == old_log[a + k]@);
            }
        }
    }

    /// The smallest sequence number acknowledged by a slave, 0 with no slave.
    pub fn get_min_slave_seq(&self) -> (r: ReplicationSeq)
        ensures
            self.slaves().len() == 0 ==> r == 0,
            self.slaves().len() > 0 ==> (exists|i: int| 0 <= i < self.slaves().len() && self.slaves()[i].last_ack_seq == r)
                && forall|i: int| 0 <= i < self.slaves().len() ==> r <= #[trigger] self.slaves()[i].last_ack_seq,
    {
        if self.slave_states.len() == 0 {
            return 0;
        }
        let mut best = self.slave_states[0].last_ack_seq;
        let mut i: usize = 1;
        assert(self.slaves()[0].last_ack_seq == best);
        while i < self.slave_states.len()
            invariant
                1 <= i <= self.slave_states@.len(),
                exists|j: int| 0 <= j < i && self.slaves()[j].last_ack_seq == best,
                forall|j: int| 0 <= j < i ==> best <= #[trigger] self.slaves()[j].last_ack_seq,
            decreases self.slave_states.len() - i,
        {
            assert(self.slaves()[i as int].last_ack_seq == self.slave_states[i as int].last_ack_seq);
            if self.slave_states[i].last_ack_seq < best {
                best = self.slave_states[i].last_ack_seq;
            }
            i = i + 1;
        }
        best
    }

    /// The largest lag among the slaves, 0 with no slave.
    fn max_slave_lag(&self) -> (r: u64)
        ensures
            self.slaves().len() == 0 ==> r == 0,
            self.slaves().len() > 0 ==> (exists|i: int| 0 <= i < self.slaves().len() && self.slaves()[i].lag_ms == r)
                && forall|i: int| 0 <= i < self.slaves().len() ==> #[trigger] self.slaves()[i].lag_ms <= r,
    {
        if self.slave_states.len() == 0 {
            return 0;
        }
        let mut best = self.slave_states[0].lag_ms;
        let mut i: usize = 1;
        assert(self.slaves()[0].lag_ms == best);
        while i < self.slave_states.len()
            invariant
                1 <= i <= self.slave_states@.len(),
                exists|j: int| 0 <= j < i && self.slaves()[j].lag_ms == best,
                forall|j: int| 0 <= j < i ==> #[trigger] self.slaves()[j].lag_ms <= best,
            decreases self.slave_states.len() - i,
        {
            assert(self.slaves()[i as int].lag_ms == self.slave_states[i as int].lag_ms);
            if self.slave_states[i].lag_ms > best {
                best = self.slave_states[i].lag_ms;
            }
            i = i + 1;
        }
        best
    }

    /// Replication statistics.
    pub fn stats(&self) -> (r: ReplicationStats)
        ensures
            r.node_id@ == self.config_spec().node_id@,
            r.role == self.config_spec().role,
            r.current_seq == self.next_seq_spec(),
            r.log_size == self.log_spec().len(),
            r.slave_count == self.slaves().len(),
            self.slaves().len() == 0 ==> r.max_slave_lag_ms == 0 && r.min_slave_seq == 0,
            self.slaves().len() > 0 ==> (exists|i: int| 0 <= i < self.slaves().len() && self.slaves()[i].lag_ms == r.max_slave_lag_ms)
                && (forall|i: int| 0 <= i < self.slaves().len() ==> #[trigger] self.slaves()[i].lag_ms <= r.max_slave_lag_ms)
                && (exists|i: int| 0 <= i < self.slaves().len() && self.slaves()[i].last_ack_seq == r.min_slave_seq)
                && (forall|i: int| 0 <= i < self.slaves().len() ==> r.min_slave_seq <= #[trigger] self.slaves()[i].last_ack_seq),
    {
        ReplicationStats {
            node_id: copy_text(&self.config.node_id),
            role: self.config.role,
            current_seq: self.current_seq(),
            log_size: self.log_size(),
            slave_count: self.slave_states.len(),
            max_slave_lag_ms: self.max_slave_lag(),
            min_slave_seq: self.get_min_slave_seq(),
        }
    }
}

proof fn lemma_slave_index(s: Seq<SlaveView>, i: int)
    requires
        slave_ids_unique(s),
        0 <= i < s.len(),
    ensures
        has_slave(s, s[i].slave_id),
        slave_index(s, s[i].slave_id) == i,
{
    let j = slave_index(s, s[i].slave_id);
    assert(s[j].slave_id == s[i].slave_id);
}

/// The entries kept from a prefix are a prefix of the entries kept overall.
proof fn lemma_filter_prefix(s: Seq<EntryView>, p: spec_fn(EntryView) -> bool, i: int)
    requires
        0 <= i <= s.len(),
    ensures
        s.subrange(0, i).filter(p).len() <= s.filter(p).len(),
        s.subrange(0, i).filter(p) == s.filter(p).take(s.subrange(0, i).filter(p).len() as int),
    decreases s.len() - i,
{
    if i < s.len() {
        lemma_filter_prefix(s, p, i + 1);
        let a = s.subrange(0, i);
        let b = s.subrange(0, i + 1);
        assert(b.drop_last() =~= a);
        a.lemma_filter_push(s[i], p);
        assert(b =~= a.push(s[i]));
        let fb = b.filter(p);
        let fa = a.filter(p);
        if p(s[i]) {
            assert(fa =~= fb.take(fa.len() as int));
        } else {
            assert(fa == fb);
        }
        assert(fa =~= s.filter(p).take(fa.len() as int));
    } else {
        assert(s.subrange(0, i) =~= s);
        assert(s.filter(p).take(s.filter(p).len() as int) =~= s.filter(p));
    }
}

/// Replication statistics.
#[derive(Debug, Clone)]
pub struct ReplicationStats {
    pub node_id: String,
    pub role: NodeRole,
    pub current_seq: ReplicationSeq,
    pub log_size: usize,
    pub slave_count: usize,
    pub max_slave_lag_ms: u64,
    pub min_slave_seq: ReplicationSeq,
}

/// Trimming keeps the log's order and drops exactly the acknowledged head:
/// what remains is a suffix of the log whose first entry, if any, is newer
/// than `up_to`.
pub proof fn law_trim_keeps_newer_suffix(log: Seq<EntryView>, up_to: u64)
    ensures
        trimmed(log, up_to).len() <= log.len(),
        trimmed(log, up_to) == log.subrange(log.len() - trimmed(log, up_to).len(), log.len() as int),
        trimmed(log, up_to).len() > 0 ==> entry_seq(trimmed(log, up_to)[0]) > up_to,
    decreases log.len(),
{
    if log.len() > 0 && entry_seq(log[0]) <= up_to {
        law_trim_keeps_newer_suffix(log.drop_first(), up_to);
        let t = trimmed(log.drop_first(), up_to);
        assert(t =~= log.subrange(log.len() - t.len(), log.len() as int));
    } else {
        assert(log.subrange(0, log.len() as int) =~= log);
    }
}

} // verus!
