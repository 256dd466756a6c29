//! Write-ahead log: the entries, their framing in the log file, and what
//! recovery makes of them.
//!
//! A log file is a header followed by frames; a frame is the length of an
//! entry's bytes (4 bytes, little-endian) followed by those bytes. Reading
//! stops where fewer than 4 bytes are left; a frame cut short is an error.
//! Encoding entries to bytes, and the file itself, are the caller's part.

use vstd::prelude::*;
use vstd::string::StringExecFns;
use std::collections::HashSet;
use crate::transaction::{TransactionId, IsolationLevel};
use crate::types::Properties;
use crate::clock::current_timestamp;

verus! {

broadcast use vstd::std_specs::hash::group_hash_axioms;

/// WAL file magic number.
pub const WAL_MAGIC: u32 = 0xDEED_0001;

/// WAL format version.
pub const WAL_VERSION: u32 = 1;

/// The size of the header at the start of a log file.
pub const WAL_HEADER_LEN: usize = 16;

/// Write-ahead log entry types.
#[derive(Debug, Clone)]
pub enum WALEntry {
    /// Transaction begin
    BeginTransaction { txn_id: TransactionId, isolation_level: IsolationLevel, timestamp: u64 },
    /// Insert entity
    InsertEntity { txn_id: TransactionId, entity_id: u64, entity_type: String, properties: Properties },
    /// Update entity
    UpdateEntity {
        txn_id: TransactionId,
        entity_id: u64,
        old_properties: Properties,
        new_properties: Properties,
    },
    /// Delete entity
    DeleteEntity { txn_id: TransactionId, entity_id: u64, entity_type: String, properties: Properties },
    /// Create edge
    CreateEdge {
        txn_id: TransactionId,
        edge_id: u64,
        source_id: u64,
        target_id: u64,
        edge_type: String,
        properties: Properties,
    },
    /// Delete edge
    DeleteEdge { txn_id: TransactionId, edge_id: u64 },
    /// Transaction commit
    Commit { txn_id: TransactionId, timestamp: u64 },
    /// Transaction rollback
    Rollback { txn_id: TransactionId, timestamp: u64 },
    /// Checkpoint marker
    Checkpoint { txn_id: TransactionId, timestamp: u64 },
}

/// The transaction an entry belongs to.
pub open spec fn txn_of(e: WALEntry) -> TransactionId {
    match e {
        WALEntry::BeginTransaction { txn_id, .. } => txn_id,
        WALEntry::InsertEntity { txn_id, .. } => txn_id,
        WALEntry::UpdateEntity { txn_id, .. } => txn_id,
        WALEntry::DeleteEntity { txn_id, .. } => txn_id,
        WALEntry::CreateEdge { txn_id, .. } => txn_id,
        WALEntry::DeleteEdge { txn_id, .. } => txn_id,
        WALEntry::Commit { txn_id, .. } => txn_id,
        WALEntry::Rollback { txn_id, .. } => txn_id,
        WALEntry::Checkpoint { txn_id, .. } => txn_id,
    }
}

impl WALEntry {
    /// The transaction of the entry.
    pub fn txn_id(&self) -> (r: TransactionId)
        ensures
            r == txn_of(*self),
    {
        match self {
            WALEntry::BeginTransaction { txn_id, .. } => *txn_id,
            WALEntry::InsertEntity { txn_id, .. } => *txn_id,
            WALEntry::UpdateEntity { txn_id, .. } => *txn_id,
            WALEntry::DeleteEntity { txn_id, .. } => *txn_id,
            WALEntry::CreateEdge { txn_id, .. } => *txn_id,
            WALEntry::DeleteEdge { txn_id, .. } => *txn_id,
            WALEntry::Commit { txn_id, .. } => *txn_id,
            WALEntry::Rollback { txn_id, .. } => *txn_id,
            WALEntry::Checkpoint { txn_id, .. } => *txn_id,
        }
    }

    /// Whether this is a commit entry.
    pub fn is_commit(&self) -> (r: bool)
        ensures
            r == self is Commit,
    {
        match self {
            WALEntry::Commit { .. } => true,
            _ => false,
        }
    }

    /// Whether this is a rollback entry.
    pub fn is_rollback(&self) -> (r: bool)
        ensures
            r == self is Rollback,
    {
        match self {
            WALEntry::Rollback { .. } => true,
            _ => false,
        }
    }
}

/// WAL file header.
#[derive(Debug, Clone, Copy)]
pub struct WALHeader {
    pub magic: u32,
    pub version: u32,
    pub created_at: u64,
}

impl WALHeader {
    /// A header of this format, stamped with the current time (seconds).
    pub fn new() -> (r: Self)
        ensures
            r.magic == WAL_MAGIC,
            r.version == WAL_VERSION,
    {
        WALHeader { magic: WAL_MAGIC, version: WAL_VERSION, created_at: current_timestamp() }
    }

    /// The header is of this format.
    pub fn is_valid(&self) -> (r: bool)
        ensures
            r == (self.magic == WAL_MAGIC && self.version == WAL_VERSION),
    {
        self.magic == WAL_MAGIC && self.version == WAL_VERSION
    }
}

// ---------------------------------------------------------------------
// Framing
// ---------------------------------------------------------------------

/// The 4 little-endian bytes of `n`.
pub open spec fn le32(n: u32) -> Seq<u8> {
    seq![(n & 0xff) as u8, ((n >> 8u32) & 0xff) as u8, ((n >> 16u32) & 0xff) as u8, ((n >> 24u32) & 0xff) as u8]
}

/// The number whose little-endian bytes are `b0`..`b3`.
pub open spec fn from_le32(b0: u8, b1: u8, b2: u8, b3: u8) -> u32 {
    (b0 as u32) | ((b1 as u32) << 8u32) | ((b2 as u32) << 16u32) | ((b3 as u32) << 24u32)
}

/// A frame: the length (cut to 32 bits) of the entry's bytes, then the bytes.
pub open spec fn frame_of(b: Seq<u8>) -> Seq<u8> {
    le32(b.len() as u32) + b
}

/// The entries' bytes of the frames in `d` from position `i` on; reading
/// stops where fewer than 4 bytes are left, and fails (`None`) on a frame
/// cut short.
pub open spec fn frames_from(d: Seq<u8>, i: int) -> Option<Seq<Seq<u8>>>
    decreases d.len() - i,
{
    if i < 0 || d.len() - i < 4 {
        Some(Seq::empty())
    } else {
        let n = from_le32(d[i], d[i + 1], d[i + 2], d[i + 3]) as int;
        if d.len() - (i + 4) < n {
            None
        } else {
            match frames_from(d, i + 4 + n) {
                Some(rest) => Some(seq![d.subrange(i + 4, i + 4 + n)] + rest),
                None => None,
            }
        }
    }
}

/// The 4 little-endian bytes of `n` (`u32::to_le_bytes`).
fn le_bytes(n: u32) -> (r: [u8; 4])
    ensures
        r@ == le32(n),
{
    let r = [(n & 0xff) as u8, ((n >> 8u32) & 0xff) as u8, ((n >> 16u32) & 0xff) as u8, ((n >> 24u32) & 0xff) as u8];
    assert(r@ =~= le32(n));
    r
}

/// Frame an entry's bytes for the log.
pub fn frame_entry(entry_bytes: &Vec<u8>) -> (r: Vec<u8>)
    ensures
        r@ == frame_of(entry_bytes@),
{
    let len = entry_bytes.len() as u32;
    let prefix = le_bytes(len);
    let mut out: Vec<u8> = Vec::new();
    let mut k: usize = 0;
    while k < 4
        invariant
            k <= 4,
            out@ == prefix@.subrange(0, k as int),
        decreases 4 - k,
    {
        out.push(prefix[k]);
        assert(out@ =~= prefix@.subrange(0, k + 1));
        k = k + 1;
    }
    let mut i: usize = 0;
    while i < entry_bytes.len()
        invariant
            i <= entry_bytes.len(),
            out@ == prefix@ + entry_bytes@.subrange(0, i as int),
        decreases entry_bytes.len() - i,
    {
        out.push(entry_bytes[i]);
        assert(out@ =~= prefix@ + entry_bytes@.subrange(0, i + 1));
        i = i + 1;
    }
    assert(entry_bytes@.subrange(0, entry_bytes.len() as int) =~= entry_bytes@);
    out
}

/// The entries' bytes of the frames in `data` from `start` on (after the
/// header), as `frames_from` states them; a frame cut short is the error
/// `failed to fill whole buffer`.
pub fn read_frames(data: &Vec<u8>, start: usize) -> (r: Result<Vec<Vec<u8>>, String>)
    ensures
        match frames_from(data@, start as int) {
            Some(fs) => r matches Ok(v) && v@.len() == fs.len() && forall|k: int|
                0 <= k < fs.len() ==> #[trigger] v@[k]@ == fs[k],
            None => r is Err,
        },
{
    let mut out: Vec<Vec<u8>> = Vec::new();
    let mut i: usize = start;
    loop
        invariant
            frames_from(data@, start as int) == match frames_from(data@, i as int) {
                Some(rest) => Some(Seq::new(out@.len(), |k: int| out@[k]@) + rest),
                None => None::<Seq<Seq<u8>>>,
            },
        decreases data.len() - i,
    {
        if i > data.len() || data.len() - i < 4 {
            assert(Seq::new(out@.len(), |k: int| out@[k]@) + Seq::<Seq<u8>>::empty() =~= Seq::new(
                out@.len(),
                |k: int| out@[k]@,
            ));
            return Ok(out);
        }
        let n = from_le_bytes(data[i], data[i + 1], data[i + 2], data[i + 3]);
        let body = i + 4;
        if data.len() - body < n as usize {
            return Err(String::from_str("failed to fill whole buffer"));
        }
        let end = body + n as usize;
        let mut bytes: Vec<u8> = Vec::new();
        let mut j: usize = body;
        while j < end
            invariant
                body <= j <= end <= data.len(),
                bytes@ == data@.subrange(body as int, j as int),
            decreases end - j,
        {
            bytes.push(data[j]);
            assert(bytes@ =~= data@.subrange(body as int, j + 1));
            j = j + 1;
        }
        let ghost prev = Seq::new(out@.len(), |k: int| out@[k]@);
        out.push(bytes);
        assert(Seq::new(out@.len(), |k: int| out@[k]@) =~= prev.push(data@.subrange(body as int, end as int)));
        proof {
            match frames_from(data@, end as int) {
                Some(rest) => {
                    assert(prev + (seq![data@.subrange(body as int, end as int)] + rest) =~= prev.push(
                        data@.subrange(body as int, end as int),
                    ) + rest);
                },
                None => {},
            }
        }
        i = end;
    }
}

/// The number whose little-endian bytes are `b0`..`b3`
/// (`u32::from_le_bytes`).
fn from_le_bytes(b0: u8, b1: u8, b2: u8, b3: u8) -> (r: u32)
    ensures
        r == from_le32(b0, b1, b2, b3),
{
    (b0 as u32) | ((b1 as u32) << 8u32) | ((b2 as u32) << 16u32) | ((b3 as u32) << 24u32)
}

// ---------------------------------------------------------------------
// Recovery
// ---------------------------------------------------------------------

/// What replaying entries shows: the transactions begun and not yet
/// committed or rolled back, and those committed and those rolled back,
/// in log order.
pub struct Replay {
    pub active: Set<TransactionId>,
    pub committed: Seq<TransactionId>,
    pub aborted: Seq<TransactionId>,
}

/// Replaying entries: a begin makes its transaction active, a commit or a
/// rollback ends it and records it; other entries change nothing.
pub open spec fn replay(es: Seq<WALEntry>) -> Replay
    decreases es.len(),
{
    if es.len() == 0 {
        Replay { active: Set::empty(), committed: Seq::empty(), aborted: Seq::empty() }
    } else {
        let r = replay(es.drop_last());
        match es.last() {
            WALEntry::BeginTransaction { txn_id, .. } => Replay { active: r.active.insert(txn_id), ..r },
            WALEntry::Commit { txn_id, .. } => Replay {
                active: r.active.remove(txn_id),
                committed: r.committed.push(txn_id),
                ..r
            },
            WALEntry::Rollback { txn_id, .. } => Replay {
                active: r.active.remove(txn_id),
                aborted: r.aborted.push(txn_id),
                ..r
            },
            _ => r,
        }
    }
}

/// Result of WAL recovery.
pub struct RecoveryResult {
    /// All WAL entries
    pub entries: Vec<WALEntry>,
    /// Transactions that need to be committed
    pub committed_txns: Vec<TransactionId>,
    /// Transactions that need to be aborted
    pub aborted_txns: Vec<TransactionId>,
    /// Transactions still active (need to abort on recovery)
    pub active_txns: HashSet<TransactionId>,
}

/// Replay the entries read from the log.
pub fn recover_entries(entries: Vec<WALEntry>) -> (r: RecoveryResult)
    ensures
        r.entries@ == entries@,
        r.active_txns@ == replay(entries@).active,
        r.committed_txns@ == replay(entries@).committed,
        r.aborted_txns@ == replay(entries@).aborted,
{
    let mut result = RecoveryResult {
        entries: Vec::new(),
        committed_txns: Vec::new(),
        aborted_txns: Vec::new(),
        active_txns: HashSet::new(),
    };
    let ghost all = entries@;
    let mut i: usize = 0;
    while i < entries.len()
        invariant
            all == entries@,
            i <= entries.len(),
            result.active_txns@ == replay(all.take(i as int)).active,
            result.committed_txns@ == replay(all.take(i as int)).committed,
            result.aborted_txns@ == replay(all.take(i as int)).aborted,
        decreases entries.len() - i,
    {
        assert(all.take(i + 1).drop_last() =~= all.take(i as int));
        assert(all.take(i + 1).last() == all[i as int]);
        match &entries[i] {
            WALEntry::BeginTransaction { txn_id, .. } => {
                result.active_txns.insert(*txn_id);
            },
            WALEntry::Commit { txn_id, .. } => {
                result.active_txns.remove(txn_id);
                result.committed_txns.push(*txn_id);
            },
            WALEntry::Rollback { txn_id, .. } => {
                result.active_txns.remove(txn_id);
                result.aborted_txns.push(*txn_id);
            },
            _ => {},
        }
        i = i + 1;
    }
    assert(all.take(entries.len() as int) =~= all);
    result.entries = entries;
    result
}

// ---------------------------------------------------------------------
// Laws
// ---------------------------------------------------------------------

/// The frames of byte strings, one after the other.
#[verifier::opaque]
pub open spec fn frames_of(bs: Seq<Seq<u8>>) -> Seq<u8>
    decreases bs.len(),
{
    if bs.len() == 0 {
        Seq::empty()
    } else {
        frame_of(bs[0]) + frames_of(bs.drop_first())
    }
}

/// Little-endian bytes read back give the number.
proof fn lemma_le32_roundtrip(n: u32)
    ensures
        from_le32(le32(n)[0], le32(n)[1], le32(n)[2], le32(n)[3]) == n,
{
    assert(from_le32(
        (n & 0xff) as u8,
        ((n >> 8u32) & 0xff) as u8,
        ((n >> 16u32) & 0xff) as u8,
        ((n >> 24u32) & 0xff) as u8,
    ) == n) by (bit_vector);
}

/// The first frame of a log, read back.
proof fn lemma_first_frame(h: Seq<u8>, b0: Seq<u8>, tail: Seq<u8>)
    requires
        b0.len() <= u32::MAX,
    ensures
        ({
            let d = h + frame_of(b0) + tail;
            let i = h.len() as int;
            &&& d.len() - i >= 4
            &&& from_le32(d[i], d[i + 1], d[i + 2], d[i + 3]) as int == b0.len()
            &&& d.subrange(i + 4, i + 4 + b0.len()) == b0
        }),
{
    let d = h + frame_of(b0) + tail;
    let i = h.len() as int;
    let n = b0.len() as u32;
    lemma_le32_roundtrip(n);
    let p = le32(n);
    assert(d[i] == p[0]);
    assert(d[i + 1] == p[1]);
    assert(d[i + 2] == p[2]);
    assert(d[i + 3] == p[3]);
    assert(d.subrange(i + 4, i + 4 + b0.len()) =~= b0);
}

/// What a read gives back of a write: after any header, the frames of
/// byte strings (each shorter than 4 GiB) read back as exactly those byte
/// strings, in order.
#[verifier::rlimit(30)]
pub proof fn law_frames_read_back(h: Seq<u8>, bs: Seq<Seq<u8>>)
    requires
        forall|k: int| 0 <= k < bs.len() ==> #[trigger] bs[k].len() <= u32::MAX,
    ensures
        frames_from(h + frames_of(bs), h.len() as int) == Some(bs),
    decreases bs.len(),
{
    let d = h + frames_of(bs);
    let i = h.len() as int;
    if bs.len() == 0 {
        assert(frames_of(bs) == Seq::<u8>::empty()) by {
            reveal(frames_of);
        }
        assert(d =~= h);
        assert(bs =~= Seq::<Seq<u8>>::empty());
    } else {
        let b0 = bs[0];
        let rest = bs.drop_first();
        let h2 = h + frame_of(b0);
        assert(frames_of(bs) == frame_of(b0) + frames_of(rest)) by {
            reveal(frames_of);
        }
        assert(d =~= h2 + frames_of(rest));
        assert forall|k: int| 0 <= k < rest.len() implies #[trigger] rest[k].len() <= u32::MAX by {
            assert(rest[k] == bs[k + 1]);
        }
        law_frames_read_back(h2, rest);
        lemma_first_frame(h, b0, frames_of(rest));
        assert(h + frame_of(b0) + frames_of(rest) == d);
        assert(h2.len() == i + 4 + b0.len());
        assert(seq![b0] + rest =~= bs);
    }
}

} // verus!
