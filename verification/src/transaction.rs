//! Transaction management: allocation of transaction identifiers, the active
//! and committed transaction tables, read/write tracking and commit/rollback.

use vstd::prelude::*;
use crate::clock::current_millis;
use crate::text::{decimal, u64_to_string, concat3};

verus! {

/// Unique transaction identifier.
pub type TransactionId = u64;

/// Transaction state.
#[derive(Debug, Clone, Copy, PartialEq, Eq, Structural)]
pub enum TransactionState {
    /// Transaction is currently active
    Active,
    /// Transaction is preparing to commit (validation phase)
    Preparing,
    /// Transaction has been committed
    Committed,
    /// Transaction has been rolled back
    Aborted,
}

/// Isolation level for a transaction.
#[derive(Debug, Clone, Copy, PartialEq, Eq, Structural)]
pub enum IsolationLevel {
    /// Dirty reads allowed (lowest isolation)
    ReadUncommitted,
    /// No dirty reads
    ReadCommitted,
    /// No dirty reads, no non-repeatable reads
    RepeatableRead,
    /// Full serializability
    Serializable,
}

impl Default for IsolationLevel {
    fn default() -> (r: Self)
        ensures
            r == IsolationLevel::RepeatableRead,
    {
        IsolationLevel::RepeatableRead
    }
}

/// Transaction metadata and state.
#[derive(Debug)]
pub struct Transaction {
    /// Unique transaction ID
    pub id: TransactionId,
    /// Current state
    pub state: TransactionState,
    /// When the transaction started (milliseconds since epoch)
    pub start_time: u64,
    /// Isolation level
    pub isolation_level: IsolationLevel,
    /// Read set: (entity_id, version) pairs read by this transaction
    pub read_set: Vec<(u64, u64)>,
    /// Write set: entity ids modified by this transaction
    pub write_set: Vec<u64>,
}

/// The abstract value of a [`Transaction`].
pub struct TransactionView {
    pub id: TransactionId,
    pub state: TransactionState,
    pub start_time: u64,
    pub isolation_level: IsolationLevel,
    pub read_set: Seq<(u64, u64)>,
    pub write_set: Seq<u64>,
}

impl View for Transaction {
    type V = TransactionView;

    open spec fn view(&self) -> TransactionView {
        TransactionView {
            id: self.id,
            state: self.state,
            start_time: self.start_time,
            isolation_level: self.isolation_level,
            read_set: self.read_set@,
            write_set: self.write_set@,
        }
    }
}

/// The write set after recording a write of `e`: each entity occurs once.
pub open spec fn write_set_after(ws: Seq<u64>, e: u64) -> Seq<u64> {
    if ws.contains(e) {
        ws
    } else {
        ws.push(e)
    }
}

impl Transaction {
    /// Create a new, active transaction with empty read and write sets,
    /// started at millisecond `now_ms`.
    pub fn new_at(id: TransactionId, isolation_level: IsolationLevel, now_ms: u64) -> (r: Self)
        ensures
            r.id == id,
            r.state == TransactionState::Active,
            r.isolation_level == isolation_level,
            r.read_set@ == Seq::<(u64, u64)>::empty(),
            r.write_set@ == Seq::<u64>::empty(),
            r.start_time == now_ms,
    {
        Transaction {
            id,
            state: TransactionState::Active,
            start_time: now_ms,
            isolation_level,
            read_set: Vec::new(),
            write_set: Vec::new(),
        }
    }

    /// Create a new, active transaction with empty read and write sets.
    /// The start time is read from the clock.
    pub fn new(id: TransactionId, isolation_level: IsolationLevel) -> (r: Self)
        ensures
            r.id == id,
            r.state == TransactionState::Active,
            r.isolation_level == isolation_level,
            r.read_set@ == Seq::<(u64, u64)>::empty(),
            r.write_set@ == Seq::<u64>::empty(),
    {
        Transaction::new_at(id, isolation_level, current_millis())
    }

    /// Record that an entity at a version was read.
    pub fn track_read(&mut self, entity_id: u64, version: u64)
        ensures
            final(self)@ == (TransactionView {
                read_set: old(self)@.read_set.push((entity_id, version)),
                ..old(self)@
            }),
    {
        self.read_set.push((entity_id, version));
    }

    /// Record that an entity was written; an entity is recorded once.
    pub fn track_write(&mut self, entity_id: u64)
        ensures
            final(self)@ == (TransactionView {
                write_set: write_set_after(old(self)@.write_set, entity_id),
                ..old(self)@
            }),
    {
        let mut found = false;
        let mut i: usize = 0;
        while i < self.write_set.len()
            invariant
                i <= self.write_set.len(),
                found <==> exists|j: int| 0 <= j < i && self.write_set@[j] == entity_id,
            decreases self.write_set.len() - i,
        {
            if self.write_set[i] == entity_id {
                found = true;
            }
            i = i + 1;
        }
        if !found {
            self.write_set.push(entity_id);
        } else {
            proof {
                let j = choose|j: int| 0 <= j < i && self.write_set@[j] == entity_id;
                assert(self.write_set@.contains(entity_id));
            }
        }
    }

    /// Whether the transaction is active.
    pub fn is_active(&self) -> (r: bool)
        ensures
            r == (self.state == TransactionState::Active),
    {
        self.state == TransactionState::Active
    }

    /// Whether the transaction is committed.
    pub fn is_committed(&self) -> (r: bool)
        ensures
            r == (self.state == TransactionState::Committed),
    {
        self.state == TransactionState::Committed
    }

    /// Whether the transaction is aborted.
    pub fn is_aborted(&self) -> (r: bool)
        ensures
            r == (self.state == TransactionState::Aborted),
    {
        self.state == TransactionState::Aborted
    }

    /// A copy of the transaction with the same abstract value.
    pub fn duplicate(&self) -> (r: Self)
        ensures
            r@ == self@,
    {
        let mut read_set: Vec<(u64, u64)> = Vec::new();
        let mut i: usize = 0;
        while i < self.read_set.len()
            invariant
                i <= self.read_set.len(),
                read_set@ == self.read_set@.subrange(0, i as int),
            decreases self.read_set.len() - i,
        {
            read_set.push(self.read_set[i]);
            i = i + 1;
        }
        let mut write_set: Vec<u64> = Vec::new();
        let mut k: usize = 0;
        while k < self.write_set.len()
            invariant
                k <= self.write_set.len(),
                write_set@ == self.write_set@.subrange(0, k as int),
            decreases self.write_set.len() - k,
        {
            write_set.push(self.write_set[k]);
            k = k + 1;
        }
        assert(read_set@ =~= self.read_set@);
        assert(write_set@ =~= self.write_set@);
        Transaction {
            id: self.id,
            state: self.state,
            start_time: self.start_time,
            isolation_level: self.isolation_level,
            read_set,
            write_set,
        }
    }
}

/// Whether the transactions of `s` carry pairwise distinct ids.
pub open spec fn ids_unique(s: Seq<TransactionView>) -> bool {
    forall|i: int, j: int| 0 <= i < s.len() && 0 <= j < s.len() && s[i].id == s[j].id ==> i == j
}

/// Whether some transaction of `s` has id `id`.
pub open spec fn has_id(s: Seq<TransactionView>, id: u64) -> bool {
    exists|i: int| 0 <= i < s.len() && s[i].id == id
}

/// The table of `s`, keyed by transaction id.
pub open spec fn txn_table(s: Seq<TransactionView>) -> Map<u64, TransactionView> {
    Map::new(
        |id: u64| has_id(s, id),
        |id: u64| s[choose|i: int| 0 <= i < s.len() && s[i].id == id],
    )
}

/// The views of a vector of transactions.
pub open spec fn views(v: Seq<Transaction>) -> Seq<TransactionView> {
    v.map_values(|t: Transaction| t@)
}

proof fn lemma_table_push(s: Seq<TransactionView>, t: TransactionView)
    requires
        ids_unique(s),
        !has_id(s, t.id),
    ensures
        ids_unique(s.push(t)),
        txn_table(s.push(t)) == txn_table(s).insert(t.id, t),
{
    let s2 = s.push(t);
    assert forall|i: int, j: int| 0 <= i < s2.len() && 0 <= j < s2.len() && s2[i].id == s2[j].id implies i == j by {
        if i < s.len() && j < s.len() {
        } else if i == s.len() && j < s.len() {
            assert(s[j].id == t.id);
        } else if j == s.len() && i < s.len() {
            assert(s[i].id == t.id);
        }
    }
    assert forall|id: u64| has_id(s2, id) <==> (has_id(s, id) || id == t.id) by {
        if has_id(s, id) {
            let i = choose|i: int| 0 <= i < s.len() && s[i].id == id;
            assert(s2[i].id == id);
        }
        if id == t.id {
            assert(s2[s.len() as int].id == id);
        }
    }
    assert forall|id: u64| #[trigger] has_id(s2, id) implies txn_table(s2)[id] == txn_table(s).insert(t.id, t)[id] by {
        let i = choose|i: int| 0 <= i < s2.len() && s2[i].id == id;
        if id == t.id {
            assert(i == s.len());
        } else {
            let k = choose|k: int| 0 <= k < s.len() && s[k].id == id;
            assert(s2[k].id == id);
            assert(i == k);
        }
    }
    assert(txn_table(s2) =~= txn_table(s).insert(t.id, t));
}

proof fn lemma_table_remove(s: Seq<TransactionView>, k: int)
    requires
        ids_unique(s),
        0 <= k < s.len(),
    ensures
        ids_unique(s.remove(k)),
        txn_table(s.remove(k)) == txn_table(s).remove(s[k].id),
        txn_table(s).contains_key(s[k].id),
        txn_table(s)[s[k].id] == s[k],
{
    let s2 = s.remove(k);
    assert forall|i: int, j: int| 0 <= i < s2.len() && 0 <= j < s2.len() && s2[i].id == s2[j].id implies i == j by {
        let ii = if i < k { i } else { i + 1 };
        let jj = if j < k { j } else { j + 1 };
        assert(s2[i] == s[ii]);
        assert(s2[j] == s[jj]);
    }
    assert(has_id(s, s[k].id));
    assert forall|id: u64| has_id(s2, id) <==> (has_id(s, id) && id != s[k].id) by {
        if has_id(s2, id) {
            let i = choose|i: int| 0 <= i < s2.len() && s2[i].id == id;
            let ii = if i < k { i } else { i + 1 };
            assert(s[ii].id == id);
        }
        if has_id(s, id) && id != s[k].id {
            let i = choose|i: int| 0 <= i < s.len() && s[i].id == id;
            assert(i != k);
            let i2 = if i < k { i } else { i - 1 };
            assert(s2[i2].id == id);
        }
    }
    assert forall|id: u64| #[trigger] has_id(s2, id) implies txn_table(s2)[id] == txn_table(s)[id] by {
        let i = choose|i: int| 0 <= i < s2.len() && s2[i].id == id;
        let ii = if i < k { i } else { i + 1 };
        let j = choose|j: int| 0 <= j < s.len() && s[j].id == id;
        assert(s[ii].id == id);
        assert(j == ii);
    }
    assert(txn_table(s2) =~= txn_table(s).remove(s[k].id));
    let j = choose|j: int| 0 <= j < s.len() && s[j].id == s[k].id;
    assert(j == k);
}

proof fn lemma_table_update(s: Seq<TransactionView>, k: int, t: TransactionView)
    requires
        ids_unique(s),
        0 <= k < s.len(),
        t.id == s[k].id,
    ensures
        ids_unique(s.update(k, t)),
        txn_table(s.update(k, t)) == txn_table(s).insert(t.id, t),
{
    let s2 = s.update(k, t);
    assert forall|id: u64| has_id(s2, id) <==> has_id(s, id) by {
        if has_id(s2, id) {
            let i = choose|i: int| 0 <= i < s2.len() && s2[i].id == id;
            assert(s[i].id == id);
        }
        if has_id(s, id) {
            let i = choose|i: int| 0 <= i < s.len() && s[i].id == id;
            assert(s2[i].id == id);
        }
    }
    assert forall|id: u64| #[trigger] has_id(s2, id) implies txn_table(s2)[id] == txn_table(s).insert(t.id, t)[id] by {
        let i = choose|i: int| 0 <= i < s2.len() && s2[i].id == id;
        if id == t.id {
            assert(i == k);
        }
    }
    assert(txn_table(s2) =~= txn_table(s).insert(t.id, t));
}

/// The message of the error for an unknown transaction.
pub open spec fn not_found_message(id: u64) -> Seq<char> {
    "Transaction "@ + decimal(id as nat) + " not found"@
}

fn not_found_error(id: u64) -> (s: String)
    ensures
        s@ == not_found_message(id),
{
    let n = u64_to_string(id);
    concat3("Transaction ", n.as_str(), " not found")
}

/// The smallest key of a finite, nonempty set of ids.
pub open spec fn is_min_key(m: Set<u64>, v: u64) -> bool {
    m.contains(v) && forall|k: u64| m.contains(k) ==> v <= k
}

/// Transaction manager: coordinates all transactions.
///
/// The active and the committed transactions are vectors with distinct ids
/// (see `wf`), in the order of `begin` and of `commit`, rather than maps keyed
/// by id: `cleanup_old_transactions` removes committed transactions by a test
/// on their ids, for which vstd specifies no `HashMap` operation (`retain`),
/// and `get_active_txn_ids` lists the ids in a stated order.
pub struct TransactionManager {
    /// Next transaction ID to allocate
    next_txn_id: u64,
    /// Active transactions
    active_transactions: Vec<Transaction>,
    /// Committed transactions (recent history kept for versioning)
    committed_transactions: Vec<Transaction>,
}

impl TransactionManager {
    /// The well-formedness of the manager: ids are unique in each table and
    /// every active transaction is in state `Active`.
    pub closed spec fn wf(&self) -> bool {
        &&& ids_unique(views(self.active_transactions@))
        &&& ids_unique(views(self.committed_transactions@))
        &&& forall|i: int| 0 <= i < self.active_transactions@.len()
            ==> #[trigger] self.active_transactions@[i].state == TransactionState::Active
    }

    /// The id that the next `begin` hands out.
    pub closed spec fn next_id(&self) -> u64 {
        self.next_txn_id
    }

    /// The active transactions, by id.
    pub closed spec fn active(&self) -> Map<u64, TransactionView> {
        txn_table(views(self.active_transactions@))
    }

    /// The committed transactions, by id.
    pub closed spec fn committed(&self) -> Map<u64, TransactionView> {
        txn_table(views(self.committed_transactions@))
    }

    /// Create a new transaction manager, with no transactions; ids start at 1.
    pub fn new() -> (r: Self)
        ensures
            r.wf(),
            r.next_id() == 1,
            r.active() == Map::<u64, TransactionView>::empty(),
            r.committed() == Map::<u64, TransactionView>::empty(),
    {
        let r = TransactionManager {
            next_txn_id: 1,
            active_transactions: Vec::new(),
            committed_transactions: Vec::new(),
        };
        assert(r.active() =~= Map::<u64, TransactionView>::empty());
        assert(r.committed() =~= Map::<u64, TransactionView>::empty());
        r
    }

    fn find_active(&self, id: u64) -> (r: Option<usize>)
        requires
            self.wf(),
        ensures
            match r {
                Some(i) => i < self.active_transactions@.len() && self.active_transactions@[i as int].id == id,
                None => !has_id(views(self.active_transactions@), id),
            },
    {
        let mut i: usize = 0;
        while i < self.active_transactions.len()
            invariant
                i <= self.active_transactions@.len(),
                forall|j: int| 0 <= j < i ==> self.active_transactions@[j].id != id,
            decreases self.active_transactions.len() - i,
        {
            if self.active_transactions[i].id == id {
                return Some(i);
            }
            i = i + 1;
        }
        proof {
            let s = views(self.active_transactions@);
            if has_id(s, id) {
                let j = choose|j: int| 0 <= j < s.len() && s[j].id == id;
                assert(self.active_transactions@[j].id == id);
            }
        }
        None
    }

    fn find_committed(&self, id: u64) -> (r: Option<usize>)
        requires
            self.wf(),
        ensures
            match r {
                Some(i) => i < self.committed_transactions@.len() && self.committed_transactions@[i as int].id == id,
                None => !has_id(views(self.committed_transactions@), id),
            },
    {
        let mut i: usize = 0;
        while i < self.committed_transactions.len()
            invariant
                i <= self.committed_transactions@.len(),
                forall|j: int| 0 <= j < i ==> self.committed_transactions@[j].id != id,
            decreases self.committed_transactions.len() - i,
        {
            if self.committed_transactions[i].id == id {
                return Some(i);
            }
            i = i + 1;
        }
        proof {
            let s = views(self.committed_transactions@);
            if has_id(s, id) {
                let j = choose|j: int| 0 <= j < s.len() && s[j].id == id;
                assert(self.committed_transactions@[j].id == id);
            }
        }
        None
    }

    /// Begin a new transaction. Ids are handed out in increasing order from 1
    /// (wrapping around after `u64::MAX`); an active transaction that already
    /// holds the id is replaced.
    pub fn begin(&mut self, isolation_level: IsolationLevel) -> (r: Result<TransactionId, String>)
        requires
            old(self).wf(),
        ensures
            final(self).wf(),
            r == Ok::<TransactionId, String>(old(self).next_id()),
            final(self).next_id() == old(self).next_id().wrapping_add(1),
            final(self).active().contains_key(old(self).next_id()),
            final(self).active() == old(self).active().insert(
                old(self).next_id(),
                final(self).active()[old(self).next_id()],
            ),
            final(self).active()[old(self).next_id()].id == old(self).next_id(),
            final(self).active()[old(self).next_id()].state == TransactionState::Active,
            final(self).active()[old(self).next_id()].isolation_level == isolation_level,
            final(self).active()[old(self).next_id()].read_set == Seq::<(u64, u64)>::empty(),
            final(self).active()[old(self).next_id()].write_set == Seq::<u64>::empty(),
            final(self).committed() == old(self).committed(),
    {
        let txn_id = self.next_txn_id;
        self.next_txn_id = txn_id.wrapping_add(1);
        let transaction = Transaction::new(txn_id, isolation_level);
        let ghost old_views = views(self.active_transactions@);
        match self.find_active(txn_id) {
            Some(i) => {
                proof { lemma_table_update(old_views, i as int, transaction@); }
                self.active_transactions.set(i, transaction);
                proof {
                    assert(views(self.active_transactions@) =~= old_views.update(i as int, transaction@));
                }
            },
            None => {
                proof { lemma_table_push(old_views, transaction@); }
                self.active_transactions.push(transaction);
                proof {
                    assert(views(self.active_transactions@) =~= old_views.push(transaction@));
                }
            },
        }
        Ok(txn_id)
    }

    /// Commit an active transaction: it leaves the active table and enters
    /// the committed table in state `Committed`.
    pub fn commit(&mut self, txn_id: TransactionId) -> (r: Result<(), String>)
        requires
            old(self).wf(),
        ensures
            final(self).wf(),
            old(self).active().contains_key(txn_id) ==> {
                &&& r is Ok
                &&& final(self).active() == old(self).active().remove(txn_id)
                &&& final(self).committed() == old(self).committed().insert(
                    txn_id,
                    TransactionView { state: TransactionState::Committed, ..old(self).active()[txn_id] },
                )
            },
            !old(self).active().contains_key(txn_id) ==> {
                &&& r matches Err(e) && e@ == not_found_message(txn_id)
                &&& final(self).active() == old(self).active()
                &&& final(self).committed() == old(self).committed()
            },
            final(self).next_id() == old(self).next_id(),
    {
        let ghost old_views = views(self.active_transactions@);
        let idx = match self.find_active(txn_id) {
            Some(i) => i,
            None => {
                return Err(not_found_error(txn_id));
            },
        };
        proof { lemma_table_remove(old_views, idx as int); }
        let mut transaction = self.active_transactions.remove(idx);
        proof {
            assert(views(self.active_transactions@) =~= old_views.remove(idx as int));
        }
        if !transaction.is_active() {
            // The invariant keeps every active transaction in state Active.
            proof { assert(old(self).active_transactions@[idx as int].state == TransactionState::Active); }
            let n = u64_to_string(txn_id);
            return Err(concat3("Transaction ", n.as_str(), " is not active"));
        }
        self.validate_transaction(&transaction)?;
        transaction.state = TransactionState::Committed;
        let ghost old_committed = views(self.committed_transactions@);
        match self.find_committed(txn_id) {
            Some(j) => {
                proof { lemma_table_update(old_committed, j as int, transaction@); }
                self.committed_transactions.set(j, transaction);
                proof {
                    assert(views(self.committed_transactions@) =~= old_committed.update(j as int, transaction@));
                }
            },
            None => {
                proof { lemma_table_push(old_committed, transaction@); }
                self.committed_transactions.push(transaction);
                proof {
                    assert(views(self.committed_transactions@) =~= old_committed.push(transaction@));
                }
            },
        }
        Ok(())
    }

    /// Roll back (abort) an active transaction; it leaves the active table
    /// and is not kept.
    pub fn rollback(&mut self, txn_id: TransactionId) -> (r: Result<(), String>)
        requires
            old(self).wf(),
        ensures
            final(self).wf(),
            old(self).active().contains_key(txn_id) ==> {
                &&& r is Ok
                &&& final(self).active() == old(self).active().remove(txn_id)
            },
            !old(self).active().contains_key(txn_id) ==> {
                &&& r matches Err(e) && e@ == not_found_message(txn_id)
                &&& final(self).active() == old(self).active()
            },
            final(self).committed() == old(self).committed(),
            final(self).next_id() == old(self).next_id(),
    {
        let ghost old_views = views(self.active_transactions@);
        let idx = match self.find_active(txn_id) {
            Some(i) => i,
            None => {
                return Err(not_found_error(txn_id));
            },
        };
        proof { lemma_table_remove(old_views, idx as int); }
        let mut transaction = self.active_transactions.remove(idx);
        proof {
            assert(views(self.active_transactions@) =~= old_views.remove(idx as int));
        }
        transaction.state = TransactionState::Aborted;
        Ok(())
    }

    /// Look a transaction up, first among the active ones, then among the
    /// committed ones.
    pub fn get_transaction(&self, txn_id: TransactionId) -> (r: Result<Transaction, String>)
        requires
            self.wf(),
        ensures
            self.active().contains_key(txn_id) ==> (r matches Ok(t) && t@ == self.active()[txn_id]),
            !self.active().contains_key(txn_id) && self.committed().contains_key(txn_id)
                ==> (r matches Ok(t) && t@ == self.committed()[txn_id]),
            !self.active().contains_key(txn_id) && !self.committed().contains_key(txn_id)
                ==> (r matches Err(e) && e@ == not_found_message(txn_id)),
    {
        if let Some(i) = self.find_active(txn_id) {
            proof { lemma_table_remove(views(self.active_transactions@), i as int); }
            return Ok(self.active_transactions[i].duplicate());
        }
        if let Some(j) = self.find_committed(txn_id) {
            proof { lemma_table_remove(views(self.committed_transactions@), j as int); }
            return Ok(self.committed_transactions[j].duplicate());
        }
        Err(not_found_error(txn_id))
    }

    /// Record a read by an active transaction.
    pub fn track_read(&mut self, txn_id: TransactionId, entity_id: u64, version: u64) -> (r: Result<(), String>)
        requires
            old(self).wf(),
        ensures
            final(self).wf(),
            old(self).active().contains_key(txn_id) ==> {
                &&& r is Ok
                &&& final(self).active() == old(self).active().insert(
                    txn_id,
                    TransactionView {
                        read_set: old(self).active()[txn_id].read_set.push((entity_id, version)),
                        ..old(self).active()[txn_id]
                    },
                )
            },
            !old(self).active().contains_key(txn_id) ==> {
                &&& r matches Err(e) && e@ == not_found_message(txn_id)
                &&& final(self).active() == old(self).active()
            },
            final(self).committed() == old(self).committed(),
            final(self).next_id() == old(self).next_id(),
    {
        let ghost old_views = views(self.active_transactions@);
        let idx = match self.find_active(txn_id) {
            Some(i) => i,
            None => {
                return Err(not_found_error(txn_id));
            },
        };
        proof { lemma_table_remove(old_views, idx as int); }
        let mut t = self.active_transactions[idx].duplicate();
        t.track_read(entity_id, version);
        proof { lemma_table_update(old_views, idx as int, t@); }
        self.active_transactions.set(idx, t);
        proof {
            assert(views(self.active_transactions@) =~= old_views.update(idx as int, t@));
        }
        Ok(())
    }

    /// Record a write by an active transaction.
    pub fn track_write(&mut self, txn_id: TransactionId, entity_id: u64) -> (r: Result<(), String>)
        requires
            old(self).wf(),
        ensures
            final(self).wf(),
            old(self).active().contains_key(txn_id) ==> {
                &&& r is Ok
                &&& final(self).active() == old(self).active().insert(
                    txn_id,
                    TransactionView {
                        write_set: write_set_after(old(self).active()[txn_id].write_set, entity_id),
                        ..old(self).active()[txn_id]
                    },
                )
            },
            !old(self).active().contains_key(txn_id) ==> {
                &&& r matches Err(e) && e@ == not_found_message(txn_id)
                &&& final(self).active() == old(self).active()
            },
            final(self).committed() == old(self).committed(),
            final(self).next_id() == old(self).next_id(),
    {
        let ghost old_views = views(self.active_transactions@);
        let idx = match self.find_active(txn_id) {
            Some(i) => i,
            None => {
                return Err(not_found_error(txn_id));
            },
        };
        proof { lemma_table_remove(old_views, idx as int); }
        let mut t = self.active_transactions[idx].duplicate();
        t.track_write(entity_id);
        proof { lemma_table_update(old_views, idx as int, t@); }
        self.active_transactions.set(idx, t);
        proof {
            assert(views(self.active_transactions@) =~= old_views.update(idx as int, t@));
        }
        Ok(())
    }

    /// The smallest active transaction id, or `u64::MAX` when none is active.
    pub fn get_min_active_txn(&self) -> (r: TransactionId)
        requires
            self.wf(),
        ensures
            self.active().is_empty() ==> r == u64::MAX,
            !self.active().is_empty() ==> is_min_key(self.active().dom(), r),
    {
        let mut best: Option<u64> = None;
        let mut i: usize = 0;
        let ghost s = views(self.active_transactions@);
        while i < self.active_transactions.len()
            invariant
                s == views(self.active_transactions@),
                i <= self.active_transactions@.len(),
                best is None <==> i == 0,
                best matches Some(b) ==> (exists|j: int| 0 <= j < i && s[j].id == b)
                    && forall|j: int| 0 <= j < i ==> b <= #[trigger] s[j].id,
            decreases self.active_transactions.len() - i,
        {
            let id = self.active_transactions[i].id;
            assert(s[i as int].id == id);
            best = match best {
                None => Some(id),
                Some(b) => if id < b { Some(id) } else { Some(b) },
            };
            i = i + 1;
        }
        let ghost m = self.active();
        match best {
            None => {
                assert(m.dom() =~= Set::<u64>::empty());
                u64::MAX
            },
            Some(b) => {
                proof {
                    let j = choose|j: int| 0 <= j < s.len() && s[j].id == b;
                    assert(has_id(s, b));
                    assert(m.contains_key(b));
                    assert forall|k: u64| m.dom().contains(k) implies b <= k by {
                        let jj = choose|jj: int| 0 <= jj < s.len() && s[jj].id == k;
                        assert(b <= s[jj].id);
                    }
                    assert(m.dom().contains(b));
                }
                b
            },
        }
    }

    /// The ids of all active transactions, each once.
    pub fn get_active_txn_ids(&self) -> (r: Vec<TransactionId>)
        requires
            self.wf(),
        ensures
            r@.to_set() == self.active().dom(),
            r@.no_duplicates(),
    {
        let ghost s = views(self.active_transactions@);
        let mut ids: Vec<u64> = Vec::new();
        let mut i: usize = 0;
        while i < self.active_transactions.len()
            invariant
                s == views(self.active_transactions@),
                ids_unique(s),
                i <= s.len(),
                ids@.len() == i,
                forall|j: int| 0 <= j < i ==> ids@[j] == s[j].id,
            decreases self.active_transactions.len() - i,
        {
            ids.push(self.active_transactions[i].id);
            i = i + 1;
        }
        proof {
            assert forall|k: u64| ids@.to_set().contains(k) <==> self.active().dom().contains(k) by {
                if ids@.to_set().contains(k) {
                    let j = choose|j: int| 0 <= j < ids@.len() && ids@[j] == k;
                    assert(s[j].id == k);
                }
                if has_id(s, k) {
                    let j = choose|j: int| 0 <= j < s.len() && s[j].id == k;
                    assert(ids@[j] == k);
                }
            }
            assert(ids@.to_set() =~= self.active().dom());
        }
        ids
    }

    /// Validate a transaction before commit. The conflict checks of every
    /// isolation level accept every transaction.
    fn validate_transaction(&self, transaction: &Transaction) -> (r: Result<(), String>)
        ensures
            r is Ok,
    {
        match transaction.isolation_level {
            IsolationLevel::ReadUncommitted => Ok(()),
            IsolationLevel::ReadCommitted => Ok(()),
            IsolationLevel::RepeatableRead => self.check_repeatable_read_conflicts(transaction),
            IsolationLevel::Serializable => self.check_serializable_conflicts(transaction),
        }
    }

    /// Conflict check for repeatable read: optimistic, accepts every transaction.
    fn check_repeatable_read_conflicts(&self, _transaction: &Transaction) -> (r: Result<(), String>)
        ensures
            r is Ok,
    {
        Ok(())
    }

    /// Conflict check for serializable isolation: optimistic, accepts every transaction.
    fn check_serializable_conflicts(&self, _transaction: &Transaction) -> (r: Result<(), String>)
        ensures
            r is Ok,
    {
        Ok(())
    }

    /// Drop committed transactions whose id is below `min_txn_to_keep`.
    pub fn cleanup_old_transactions(&mut self, min_txn_to_keep: TransactionId)
        requires
            old(self).wf(),
        ensures
            final(self).wf(),
            final(self).committed() == old(self).committed().restrict(
                old(self).committed().dom().filter(|id: u64| id >= min_txn_to_keep),
            ),
            final(self).active() == old(self).active(),
            final(self).next_id() == old(self).next_id(),
    {
        let ghost s = views(self.committed_transactions@);
        let mut kept: Vec<Transaction> = Vec::new();
        let mut i: usize = 0;
        let mut old_list: Vec<Transaction> = Vec::new();
        std::mem::swap(&mut old_list, &mut self.committed_transactions);
        assert(views(old_list@) == s);
        while i < old_list.len()
            invariant
                s == views(old_list@),
                ids_unique(s),
                i <= old_list@.len(),
                ids_unique(views(kept@)),
                forall|id: u64| has_id(views(kept@), id) <==> (exists|j: int| 0 <= j < i && s[j].id == id && id >= min_txn_to_keep),
                forall|j: int| 0 <= j < kept@.len() ==> has_id(s.subrange(0, i as int), #[trigger] kept@[j].id)
                    && kept@[j]@ == s[choose|jj: int| 0 <= jj < s.len() && s[jj].id == kept@[j].id],
            decreases old_list.len() - i,
        {
            if old_list[i].id >= min_txn_to_keep {
                let t = old_list[i].duplicate();
                let ghost kv = views(kept@);
                proof {
                    assert(!has_id(kv, t.id)) by {
                        if has_id(kv, t.id) {
                            let j = choose|j: int| 0 <= j < i && s[j].id == t.id && t.id >= min_txn_to_keep;
                            assert(s[i as int].id == t.id);
                        }
                    }
                    lemma_table_push(kv, t@);
                }
                kept.push(t);
                proof {
                    assert(views(kept@) =~= kv.push(t@));
                    let jj = choose|jj: int| 0 <= jj < s.len() && s[jj].id == t.id;
                    assert(s[i as int].id == t.id);
                    assert(jj == i);
                    assert forall|j: int| 0 <= j < kept@.len() implies has_id(s.subrange(0, i + 1), #[trigger] kept@[j].id) by {
                        if j < kept@.len() - 1 {
                            let w = choose|w: int| 0 <= w < i && s.subrange(0, i as int)[w].id == kept@[j].id;
                            assert(s.subrange(0, i + 1)[w].id == kept@[j].id);
                        } else {
                            assert(s.subrange(0, i + 1)[i as int].id == kept@[j].id);
                        }
                    }
                    assert forall|id: u64| has_id(views(kept@), id) <==> (exists|j: int| 0 <= j < i + 1 && s[j].id == id && id >= min_txn_to_keep) by {
                        if has_id(views(kept@), id) && id != t.id {
                            assert(has_id(kv, id)) by {
                                let w = choose|w: int| 0 <= w < views(kept@).len() && views(kept@)[w].id == id;
                                assert(w < kv.len());
                                assert(kv[w].id == id);
                            }
                        }
                        if exists|j: int| 0 <= j < i + 1 && s[j].id == id && id >= min_txn_to_keep {
                            if id != t.id {
                                let w = choose|j: int| 0 <= j < i + 1 && s[j].id == id && id >= min_txn_to_keep;
                                assert(w != i);
                                assert(has_id(kv, id));
                                let w2 = choose|w2: int| 0 <= w2 < kv.len() && kv[w2].id == id;
                                assert(views(kept@)[w2].id == id);
                            } else {
                                assert(views(kept@)[kv.len() as int].id == id);
                            }
                        }
                    }
                }
            } else {
                proof {
                    assert forall|j: int| 0 <= j < kept@.len() implies has_id(s.subrange(0, i + 1), #[trigger] kept@[j].id) by {
                        let w = choose|w: int| 0 <= w < i && s.subrange(0, i as int)[w].id == kept@[j].id;
                        assert(s.subrange(0, i + 1)[w].id == kept@[j].id);
                    }
                    assert forall|id: u64| has_id(views(kept@), id) <==> (exists|j: int| 0 <= j < i + 1 && s[j].id == id && id >= min_txn_to_keep) by {
                        if exists|j: int| 0 <= j < i + 1 && s[j].id == id && id >= min_txn_to_keep {
                            let w = choose|j: int| 0 <= j < i + 1 && s[j].id == id && id >= min_txn_to_keep;
                            assert(w != i);
                        }
                    }
                }
            }
            i = i + 1;
        }
        self.committed_transactions = kept;
        proof {
            let kv = views(kept@);
            let m_old = txn_table(s);
            let target = m_old.restrict(m_old.dom().filter(|id: u64| id >= min_txn_to_keep));
            assert forall|id: u64| #[trigger] txn_table(kv).contains_key(id) <==> target.contains_key(id) by {
                if has_id(s, id) && id >= min_txn_to_keep {
                    let w = choose|j: int| 0 <= j < s.len() && s[j].id == id;
                    assert(exists|j: int| 0 <= j < i && s[j].id == id && id >= min_txn_to_keep);
                }
                if has_id(kv, id) {
                    let w = choose|j: int| 0 <= j < i && s[j].id == id && id >= min_txn_to_keep;
                    assert(has_id(s, id));
                }
            }
            assert forall|id: u64| #[trigger] txn_table(kv).contains_key(id) implies txn_table(kv)[id] == target[id] by {
                let w = choose|w: int| 0 <= w < kv.len() && kv[w].id == id;
                assert(kept@[w].id == id);
            }
            assert(txn_table(kv) =~= target);
        }
    }
}

impl Default for TransactionManager {
    fn default() -> (r: Self)
        ensures
            r.wf(),
            r.next_id() == 1,
            r.active() == Map::<u64, TransactionView>::empty(),
            r.committed() == Map::<u64, TransactionView>::empty(),
    {
        Self::new()
    }
}


/// A commit is final: after committing an active transaction it is no longer
/// active (so a second commit or a rollback is refused as not found), and a
/// lookup finds it committed with the reads and writes it tracked.
pub proof fn law_commit_moves_to_committed(
    active: Map<u64, TransactionView>,
    committed: Map<u64, TransactionView>,
    id: u64,
)
    requires
        active.contains_key(id),
    ensures
        ({
            let a2 = active.remove(id);
            let c2 = committed.insert(id, TransactionView { state: TransactionState::Committed, ..active[id] });
            &&& !a2.contains_key(id)
            &&& c2.contains_key(id)
            &&& c2[id].state == TransactionState::Committed
            &&& c2[id].read_set == active[id].read_set
            &&& c2[id].write_set == active[id].write_set
        }),
{
}

/// A rollback forgets: after rolling back an active transaction that was
/// never committed, it is neither active nor committed, so a lookup fails.
pub proof fn law_rollback_forgets(
    active: Map<u64, TransactionView>,
    committed: Map<u64, TransactionView>,
    id: u64,
)
    requires
        active.contains_key(id),
        !committed.contains_key(id),
    ensures
        !active.remove(id).contains_key(id),
        !committed.contains_key(id),
{
}

} // verus!
