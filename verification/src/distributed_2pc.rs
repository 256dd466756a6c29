//! Two-phase commit for distributed transactions: the coordinator collects
//! votes and acknowledgements, the participants prepare and apply.

use vstd::prelude::*;
use crate::clock::current_millis;
use crate::distributed_topology::NodeId;
use crate::text::copy_bytes;
use crate::table::{Table, keys_unique, count_where, map_count_where, lemma_count_where, lemma_entry_in_view};

verus! {

/// Transaction ID of a distributed transaction.
pub type TransactionId = u128;

/// 2PC transaction state.
#[derive(Debug, Clone, Copy, PartialEq, Eq, Structural)]
pub enum TwoPhaseCommitState {
    /// Initial state
    Init,
    /// Preparing (waiting for votes)
    Preparing,
    /// All voted yes, ready to commit
    Prepared,
    /// Committing
    Committing,
    /// Committed successfully
    Committed,
    /// Aborting
    Aborting,
    /// Aborted
    Aborted,
}

/// Participant vote.
#[derive(Debug, Clone, Copy, PartialEq, Eq, Structural)]
pub enum Vote {
    /// Ready to commit
    Yes,
    /// Cannot commit, must abort
    No,
}

/// 2PC message types.
#[derive(Debug, Clone)]
pub enum TwoPhaseCommitMessage {
    /// Coordinator -> participants: prepare to commit
    Prepare { txn_id: TransactionId, operations: Vec<u8> },
    /// Participant -> coordinator: vote response
    VoteResponse { txn_id: TransactionId, participant_id: NodeId, vote: Vote },
    /// Coordinator -> participants: commit the transaction
    Commit { txn_id: TransactionId },
    /// Coordinator -> participants: abort the transaction
    Abort { txn_id: TransactionId },
    /// Participant -> coordinator: acknowledge commit/abort
    Ack { txn_id: TransactionId, participant_id: NodeId, success: bool },
}

/// Distributed transaction.
#[derive(Debug)]
pub struct DistributedTransaction {
    pub txn_id: TransactionId,
    pub coordinator: NodeId,
    pub participants: Vec<NodeId>,
    pub state: TwoPhaseCommitState,
    pub operations: Vec<u8>,
    /// Creation time, milliseconds since the Unix epoch
    pub created_at: u64,
}

/// The abstract value of a distributed transaction.
pub struct DistributedTransactionView {
    pub txn_id: TransactionId,
    pub coordinator: NodeId,
    pub participants: Seq<NodeId>,
    pub state: TwoPhaseCommitState,
    pub operations: Seq<u8>,
    pub created_at: u64,
}

impl View for DistributedTransaction {
    type V = DistributedTransactionView;

    open spec fn view(&self) -> DistributedTransactionView {
        DistributedTransactionView {
            txn_id: self.txn_id,
            coordinator: self.coordinator,
            participants: self.participants@,
            state: self.state,
            operations: self.operations@,
            created_at: self.created_at,
        }
    }
}

fn copy_ids(v: &Vec<NodeId>) -> (r: Vec<NodeId>)
    ensures
        r@ == v@,
{
    let mut r: Vec<NodeId> = Vec::new();
    let mut i: usize = 0;
    while i < v.len()
        invariant
            i <= v.len(),
            r@ == v@.subrange(0, i as int),
        decreases v.len() - i,
    {
        r.push(v[i]);
        i = i + 1;
    }
    assert(r@ =~= v@);
    r
}

impl DistributedTransaction {
    /// A copy with the same abstract value.
    pub fn duplicate(&self) -> (r: Self)
        ensures
            r@ == self@,
    {
        DistributedTransaction {
            txn_id: self.txn_id,
            coordinator: self.coordinator,
            participants: copy_ids(&self.participants),
            state: self.state,
            operations: copy_bytes(&self.operations),
            created_at: self.created_at,
        }
    }

    /// The same transaction in another state.
    fn with_state(&self, state: TwoPhaseCommitState) -> (r: Self)
        ensures
            r@ == (DistributedTransactionView { state, ..self@ }),
    {
        let mut t = self.duplicate();
        t.state = state;
        t
    }
}

/// Participant state for a transaction.
#[derive(Debug, Clone, Copy)]
pub struct ParticipantState {
    pub participant_id: NodeId,
    pub vote: Option<Vote>,
    pub acked: bool,
}

/// `i` is the first position of participant `p`.
pub open spec fn first_of(s: Seq<ParticipantState>, p: NodeId, i: int) -> bool {
    &&& 0 <= i < s.len()
    &&& s[i].participant_id == p
    &&& forall|j: int| 0 <= j < i ==> s[j].participant_id != p
}

/// The participant states after participant `p` votes `v` (its first entry
/// records the vote; an unknown participant changes nothing).
pub open spec fn record_vote(s: Seq<ParticipantState>, p: NodeId, v: Vote) -> Seq<ParticipantState> {
    if exists|i: int| first_of(s, p, i) {
        let i = choose|i: int| first_of(s, p, i);
        s.update(i, ParticipantState { vote: Some(v), ..s[i] })
    } else {
        s
    }
}

/// The participant states after participant `p` acknowledges.
pub open spec fn record_ack(s: Seq<ParticipantState>, p: NodeId) -> Seq<ParticipantState> {
    if exists|i: int| first_of(s, p, i) {
        let i = choose|i: int| first_of(s, p, i);
        s.update(i, ParticipantState { acked: true, ..s[i] })
    } else {
        s
    }
}

/// Every participant voted.
pub open spec fn all_voted(s: Seq<ParticipantState>) -> bool {
    forall|i: int| 0 <= i < s.len() ==> (#[trigger] s[i]).vote is Some
}

/// Every participant voted yes.
pub open spec fn all_yes(s: Seq<ParticipantState>) -> bool {
    forall|i: int| 0 <= i < s.len() ==> (#[trigger] s[i]).vote == Some(Vote::Yes)
}

/// Every participant acknowledged.
pub open spec fn all_acked(s: Seq<ParticipantState>) -> bool {
    forall|i: int| 0 <= i < s.len() ==> (#[trigger] s[i]).acked
}

/// Whether a state is final (committed or aborted).
pub open spec fn is_final(s: TwoPhaseCommitState) -> bool {
    s == TwoPhaseCommitState::Committed || s == TwoPhaseCommitState::Aborted
}

fn find_participant(s: &Vec<ParticipantState>, p: NodeId) -> (r: Option<usize>)
    ensures
        match r {
            Some(i) => first_of(s@, p, i as int),
            None => !exists|i: int| first_of(s@, p, i),
        },
{
    let mut i: usize = 0;
    while i < s.len()
        invariant
            i <= s.len(),
            forall|j: int| 0 <= j < i ==> s@[j].participant_id != p,
        decreases s.len() - i,
    {
        if s[i].participant_id == p {
            return Some(i);
        }
        i = i + 1;
    }
    proof {
        if exists|i: int| first_of(s@, p, i) {
            let w = choose|i: int| first_of(s@, p, i);
            assert(s@[w].participant_id == p);
        }
    }
    None
}

proof fn lemma_first_unique(s: Seq<ParticipantState>, p: NodeId, i: int)
    requires
        first_of(s, p, i),
    ensures
        (choose|j: int| first_of(s, p, j)) == i,
{
    let j = choose|j: int| first_of(s, p, j);
    if j < i {
        assert(s[j].participant_id == p);
    } else if j > i {
        assert(s[i].participant_id == p);
    }
}

/// The states of a transaction's participants, none voted or acked.
pub open spec fn fresh_states(participants: Seq<NodeId>) -> Seq<ParticipantState> {
    Seq::new(participants.len(), |i: int| ParticipantState { participant_id: participants[i], vote: None, acked: false })
}

/// Coordinator for 2PC.
pub struct TwoPhaseCommitCoordinator {
    /// This node's ID
    node_id: NodeId,
    /// The id the next transaction gets
    next_txn_id: TransactionId,
    /// Transactions coordinated by this node
    transactions: Table<TransactionId, DistributedTransaction>,
    /// Participant states for each transaction
    participant_states: Table<TransactionId, Vec<ParticipantState>>,
    /// Transaction timeout in seconds
    timeout_secs: u64,
}

impl TwoPhaseCommitCoordinator {
    pub closed spec fn wf(&self) -> bool {
        &&& self.transactions.wf()
        &&& self.participant_states.wf()
        &&& self.transactions.view().dom() == self.participant_states.view().dom()
    }

    pub closed spec fn node_id_spec(&self) -> NodeId { self.node_id }
    pub closed spec fn next_id(&self) -> TransactionId { self.next_txn_id }
    pub closed spec fn timeout_spec(&self) -> u64 { self.timeout_secs }

    /// The coordinated transactions, by id.
    pub closed spec fn txns(&self) -> Map<TransactionId, DistributedTransactionView> {
        self.transactions.view().map_values(|t: DistributedTransaction| t@)
    }

    /// The participant states of each transaction.
    pub closed spec fn states(&self) -> Map<TransactionId, Seq<ParticipantState>> {
        self.participant_states.view().map_values(|v: Vec<ParticipantState>| v@)
    }

    /// A coordinator with no transactions; ids start at 1.
    pub fn new(node_id: NodeId, timeout_secs: u64) -> (r: Self)
        ensures
            r.wf(),
            r.node_id_spec() == node_id,
            r.next_id() == 1,
            r.timeout_spec() == timeout_secs,
            r.txns() == Map::<TransactionId, DistributedTransactionView>::empty(),
            r.states() == Map::<TransactionId, Seq<ParticipantState>>::empty(),
    {
        let r = Self {
            node_id,
            next_txn_id: 1,
            transactions: Table::new(),
            participant_states: Table::new(),
            timeout_secs,
        };
        assert(r.txns() =~= Map::<TransactionId, DistributedTransactionView>::empty());
        assert(r.states() =~= Map::<TransactionId, Seq<ParticipantState>>::empty());
        r
    }

    /// Begin a distributed transaction in state `Init`, with no votes and no
    /// acknowledgements yet.
    pub fn begin_transaction(&mut self, participants: Vec<NodeId>, operations: Vec<u8>) -> (r: TransactionId)
        requires
            old(self).wf(),
        ensures
            final(self).wf(),
            r == old(self).next_id(),
            final(self).next_id() == old(self).next_id().wrapping_add(1),
            final(self).txns().contains_key(r),
            final(self).txns() == old(self).txns().insert(r, final(self).txns()[r]),
            final(self).txns()[r].txn_id == r,
            final(self).txns()[r].coordinator == old(self).node_id_spec(),
            final(self).txns()[r].participants == participants@,
            final(self).txns()[r].operations == operations@,
            final(self).txns()[r].state == TwoPhaseCommitState::Init,
            final(self).states() == old(self).states().insert(r, fresh_states(participants@)),
            final(self).node_id_spec() == old(self).node_id_spec(),
            final(self).timeout_spec() == old(self).timeout_spec(),
    {
        let txn_id = self.next_txn_id;
        self.next_txn_id = txn_id.wrapping_add(1);
        let mut states: Vec<ParticipantState> = Vec::new();
        let mut i: usize = 0;
        while i < participants.len()
            invariant
                i <= participants.len(),
                states@ == fresh_states(participants@).subrange(0, i as int),
            decreases participants.len() - i,
        {
            states.push(ParticipantState { participant_id: participants[i], vote: None, acked: false });
            proof {
                assert(states@ =~= fresh_states(participants@).subrange(0, i + 1));
            }
            i = i + 1;
        }
        proof {
            assert(states@ =~= fresh_states(participants@));
        }
        let txn = DistributedTransaction {
            txn_id,
            coordinator: self.node_id,
            participants,
            state: TwoPhaseCommitState::Init,
            operations,
            created_at: current_millis(),
        };
        self.transactions.insert(txn_id, txn);
        self.participant_states.insert(txn_id, states);
        proof {
            assert(self.txns() =~= old(self).txns().insert(txn_id, self.txns()[txn_id]));
            assert(self.states() =~= old(self).states().insert(txn_id, fresh_states(participants@)));
        }
        txn_id
    }

    /// Move a transaction to another state.
    fn set_state(&mut self, txn_id: TransactionId, state: TwoPhaseCommitState) -> (r: Result<(), String>)
        requires
            old(self).wf(),
        ensures
            final(self).wf(),
            old(self).txns().contains_key(txn_id) ==> r is Ok && final(self).txns() == old(self).txns().insert(
                txn_id, DistributedTransactionView { state, ..old(self).txns()[txn_id] }),
            !old(self).txns().contains_key(txn_id) ==> (r matches Err(e) && e@ == "Transaction not found"@)
                && final(self).txns() == old(self).txns(),
            final(self).states() == old(self).states(),
            final(self).next_id() == old(self).next_id(),
            final(self).node_id_spec() == old(self).node_id_spec(),
            final(self).timeout_spec() == old(self).timeout_spec(),
    {
        match self.transactions.find(&txn_id) {
            Some(i) => {
                let t = self.transactions.value_at(i).with_state(state);
                self.transactions.set_value_at(i, t);
                proof {
                    assert(self.txns() =~= old(self).txns().insert(
                        txn_id, DistributedTransactionView { state, ..old(self).txns()[txn_id] }));
                    assert(self.transactions.view().dom() =~= self.participant_states.view().dom());
                }
                Ok(())
            },
            None => Err(String::from_str("Transaction not found")),
        }
    }

    /// Phase 1: the transaction starts preparing.
    pub fn send_prepare(&mut self, txn_id: TransactionId) -> (r: Result<(), String>)
        requires
            old(self).wf(),
        ensures
            final(self).wf(),
            old(self).txns().contains_key(txn_id) ==> r is Ok && final(self).txns() == old(self).txns().insert(
                txn_id, DistributedTransactionView { state: TwoPhaseCommitState::Preparing, ..old(self).txns()[txn_id] }),
            !old(self).txns().contains_key(txn_id) ==> (r matches Err(e) && e@ == "Transaction not found"@)
                && final(self).txns() == old(self).txns(),
            final(self).states() == old(self).states(),
            final(self).next_id() == old(self).next_id(),
            final(self).node_id_spec() == old(self).node_id_spec(),
            final(self).timeout_spec() == old(self).timeout_spec(),
    {
        self.set_state(txn_id, TwoPhaseCommitState::Preparing)
    }

    /// Phase 2: the transaction starts committing.
    pub fn send_commit(&mut self, txn_id: TransactionId) -> (r: Result<(), String>)
        requires
            old(self).wf(),
        ensures
            final(self).wf(),
            old(self).txns().contains_key(txn_id) ==> r is Ok && final(self).txns() == old(self).txns().insert(
                txn_id, DistributedTransactionView { state: TwoPhaseCommitState::Committing, ..old(self).txns()[txn_id] }),
            !old(self).txns().contains_key(txn_id) ==> (r matches Err(e) && e@ == "Transaction not found"@)
                && final(self).txns() == old(self).txns(),
            final(self).states() == old(self).states(),
            final(self).next_id() == old(self).next_id(),
            final(self).node_id_spec() == old(self).node_id_spec(),
            final(self).timeout_spec() == old(self).timeout_spec(),
    {
        self.set_state(txn_id, TwoPhaseCommitState::Committing)
    }

    /// Phase 2: the transaction starts aborting.
    pub fn send_abort(&mut self, txn_id: TransactionId) -> (r: Result<(), String>)
        requires
            old(self).wf(),
        ensures
            final(self).wf(),
            old(self).txns().contains_key(txn_id) ==> r is Ok && final(self).txns() == old(self).txns().insert(
                txn_id, DistributedTransactionView { state: TwoPhaseCommitState::Aborting, ..old(self).txns()[txn_id] }),
            !old(self).txns().contains_key(txn_id) ==> (r matches Err(e) && e@ == "Transaction not found"@)
                && final(self).txns() == old(self).txns(),
            final(self).states() == old(self).states(),
            final(self).next_id() == old(self).next_id(),
            final(self).node_id_spec() == old(self).node_id_spec(),
            final(self).timeout_spec() == old(self).timeout_spec(),
    {
        self.set_state(txn_id, TwoPhaseCommitState::Aborting)
    }

    /// Record a participant's vote. Once every participant has voted, the
    /// transaction commits if all voted yes and aborts otherwise.
    pub fn handle_vote(&mut self, txn_id: TransactionId, participant_id: NodeId, vote: Vote) -> (r: Result<(), String>)
        requires
            old(self).wf(),
        ensures
            final(self).wf(),
            !old(self).states().contains_key(txn_id) ==> (r matches Err(e) && e@ == "Transaction not found"@)
                && final(self).txns() == old(self).txns() && final(self).states() == old(self).states(),
            old(self).states().contains_key(txn_id) ==> {
                let s = record_vote(old(self).states()[txn_id], participant_id, vote);
                &&& r is Ok
                &&& final(self).states() == old(self).states().insert(txn_id, s)
                &&& !all_voted(s) ==> final(self).txns() == old(self).txns()
                &&& all_voted(s) && all_yes(s) ==> final(self).txns() == old(self).txns().insert(txn_id,
                    DistributedTransactionView { state: TwoPhaseCommitState::Committing, ..old(self).txns()[txn_id] })
                &&& all_voted(s) && !all_yes(s) ==> final(self).txns() == old(self).txns().insert(txn_id,
                    DistributedTransactionView { state: TwoPhaseCommitState::Aborting, ..old(self).txns()[txn_id] })
            },
            final(self).next_id() == old(self).next_id(),
            final(self).node_id_spec() == old(self).node_id_spec(),
            final(self).timeout_spec() == old(self).timeout_spec(),
    {
        let idx = match self.participant_states.find(&txn_id) {
            Some(i) => i,
            None => {
                return Err(String::from_str("Transaction not found"));
            },
        };
        let mut participants = copy_states(self.participant_states.value_at(idx));
        let ghost s0 = participants@;
        if let Some(k) = find_participant(&participants, participant_id) {
            let p = participants[k];
            participants.set(k, ParticipantState { participant_id: p.participant_id, vote: Some(vote), acked: p.acked });
            proof { lemma_first_unique(s0, participant_id, k as int); }
        }
        let ghost s = participants@;
        assert(s == record_vote(s0, participant_id, vote));
        let mut all_voted_now = true;
        let mut all_yes_now = true;
        let mut i: usize = 0;
        while i < participants.len()
            invariant
                i <= participants.len(),
                all_voted_now == forall|j: int| 0 <= j < i ==> (#[trigger] participants@[j]).vote is Some,
                all_yes_now == forall|j: int| 0 <= j < i ==> (#[trigger] participants@[j]).vote == Some(Vote::Yes),
            decreases participants.len() - i,
        {
            match participants[i].vote {
                Some(Vote::Yes) => {},
                Some(Vote::No) => { all_yes_now = false; },
                None => { all_voted_now = false; all_yes_now = false; },
            }
            i = i + 1;
        }
        self.participant_states.set_value_at(idx, participants);
        proof {
            assert(self.states() =~= old(self).states().insert(txn_id, s));
            assert(self.transactions.view().dom() =~= self.participant_states.view().dom());
        }
        if all_voted_now {
            if all_yes_now {
                self.send_commit(txn_id)?;
            } else {
                self.send_abort(txn_id)?;
            }
        }
        Ok(())
    }

    /// Record a participant's acknowledgement. Once every participant has
    /// acknowledged, the transaction ends as the votes decided: committed
    /// when every participant voted yes, aborted otherwise, so that all
    /// participants commit or all abort. The acknowledgement's `success`
    /// flag does not change the outcome.
    pub fn handle_ack(&mut self, txn_id: TransactionId, participant_id: NodeId, success: bool) -> (r: Result<(), String>)
        requires
            old(self).wf(),
        ensures
            final(self).wf(),
            !old(self).states().contains_key(txn_id) ==> (r matches Err(e) && e@ == "Transaction not found"@)
                && final(self).txns() == old(self).txns() && final(self).states() == old(self).states(),
            old(self).states().contains_key(txn_id) ==> {
                let s = record_ack(old(self).states()[txn_id], participant_id);
                &&& r is Ok
                &&& final(self).states() == old(self).states().insert(txn_id, s)
                &&& !all_acked(s) ==> final(self).txns() == old(self).txns()
                &&& all_acked(s) ==> final(self).txns() == old(self).txns().insert(txn_id,
                    DistributedTransactionView {
                        state: if all_yes(s) { TwoPhaseCommitState::Committed } else { TwoPhaseCommitState::Aborted },
                        ..old(self).txns()[txn_id]
                    })
            },
            final(self).next_id() == old(self).next_id(),
            final(self).node_id_spec() == old(self).node_id_spec(),
            final(self).timeout_spec() == old(self).timeout_spec(),
    {
        let idx = match self.participant_states.find(&txn_id) {
            Some(i) => i,
            None => {
                return Err(String::from_str("Transaction not found"));
            },
        };
        let mut participants = copy_states(self.participant_states.value_at(idx));
        let ghost s0 = participants@;
        if let Some(k) = find_participant(&participants, participant_id) {
            let p = participants[k];
            participants.set(k, ParticipantState { participant_id: p.participant_id, vote: p.vote, acked: true });
            proof { lemma_first_unique(s0, participant_id, k as int); }
        }
        let ghost s = participants@;
        assert(s == record_ack(s0, participant_id));
        let mut all_acked_now = true;
        let mut all_yes_now = true;
        let mut i: usize = 0;
        while i < participants.len()
            invariant
                i <= participants.len(),
                all_acked_now == forall|j: int| 0 <= j < i ==> (#[trigger] participants@[j]).acked,
                all_yes_now == forall|j: int| 0 <= j < i ==> (#[trigger] participants@[j]).vote == Some(Vote::Yes),
            decreases participants.len() - i,
        {
            if !participants[i].acked {
                all_acked_now = false;
            }
            match participants[i].vote {
                Some(Vote::Yes) => {},
                _ => { all_yes_now = false; },
            }
            i = i + 1;
        }
        self.participant_states.set_value_at(idx, participants);
        proof {
            assert(self.states() =~= old(self).states().insert(txn_id, s));
            assert(self.transactions.view().dom() =~= self.participant_states.view().dom());
        }
        if all_acked_now {
            let state = if all_yes_now { TwoPhaseCommitState::Committed } else { TwoPhaseCommitState::Aborted };
            let _ = self.set_state(txn_id, state);
        }
        Ok(())
    }

    /// The transactions, not yet committed or aborted, created more than the
    /// timeout before `now_millis`, each once.
    pub fn check_timeouts_at(&self, now_millis: u64) -> (r: Vec<TransactionId>)
        requires
            self.wf(),
        ensures
            r@.no_duplicates(),
            r@.to_set() == self.txns().dom().filter(|id: TransactionId|
                now_millis as int - self.txns()[id].created_at as int > self.timeout_spec() as int * 1000
                && !is_final(self.txns()[id].state)),
    {
        let limit: u128 = (self.timeout_secs as u128) * 1000;
        let mut timed_out: Vec<TransactionId> = Vec::new();
        let len = self.transactions.len();
        proof { self.transactions.lemma_wf(); }
        let ghost s = self.transactions.entries();
        let ghost f = self.txns().dom().filter(|id: TransactionId|
            now_millis as int - self.txns()[id].created_at as int > self.timeout_spec() as int * 1000
            && !is_final(self.txns()[id].state));
        let mut i: usize = 0;
        while i < len
            invariant
                self.wf(),
                s == self.transactions.entries(),
                keys_unique(s),
                len == s.len(),
                limit == self.timeout_secs as u128 * 1000,
                f == self.txns().dom().filter(|id: TransactionId|
                    now_millis as int - self.txns()[id].created_at as int > self.timeout_spec() as int * 1000
                    && !is_final(self.txns()[id].state)),
                i <= len,
                forall|j: int| 0 <= j < timed_out@.len() ==> f.contains(#[trigger] timed_out@[j]),
                forall|w: int| 0 <= w < i && f.contains(s[w].0) ==> timed_out@.contains(#[trigger] s[w].0),
                timed_out@.no_duplicates(),
                forall|j: int, w: int| 0 <= j < timed_out@.len() && i <= w < len ==> #[trigger] s[w].0 != #[trigger] timed_out@[j],
            decreases len - i,
        {
            let t = self.transactions.value_at(i);
            let k = self.transactions.key_at(i);
            proof { lemma_entry_in_view(s, i as int); }
            let elapsed_over = now_millis >= t.created_at && ((now_millis - t.created_at) as u128) > limit;
            let ghost old_out = timed_out@;
            if elapsed_over && t.state != TwoPhaseCommitState::Committed && t.state != TwoPhaseCommitState::Aborted {
                timed_out.push(k);
                proof {
                    assert forall|j: int| 0 <= j < timed_out@.len() implies f.contains(#[trigger] timed_out@[j]) by {
                        if j < old_out.len() {
                            assert(timed_out@[j] == old_out[j]);
                        }
                    }
                    assert forall|w: int| 0 <= w < i + 1 && f.contains(s[w].0) implies timed_out@.contains(#[trigger] s[w].0) by {
                        if w < i {
                            let j = choose|j: int| 0 <= j < old_out.len() && old_out[j] == s[w].0;
                            assert(timed_out@[j] == s[w].0);
                        } else {
                            assert(timed_out@[timed_out@.len() - 1] == s[w].0);
                        }
                    }
                    assert forall|x: int, y: int| 0 <= x < timed_out@.len() && 0 <= y < timed_out@.len() && x != y implies timed_out@[x] != timed_out@[y] by {
                        if x < old_out.len() && y < old_out.len() {
                            assert(old_out[x] != old_out[y]);
                        } else if x < old_out.len() {
                            assert(s[i as int].0 != old_out[x]);
                        } else if y < old_out.len() {
                            assert(s[i as int].0 != old_out[y]);
                        }
                    }
                    assert forall|j: int, w: int| 0 <= j < timed_out@.len() && i + 1 <= w < len implies #[trigger] s[w].0 != #[trigger] timed_out@[j] by {
                        if j < old_out.len() {
                            assert(timed_out@[j] == old_out[j]);
                        } else {
                            assert(s[w].0 != s[i as int].0);
                        }
                    }
                }
            } else {
                proof {
                    assert(!f.contains(k));
                }
            }
            i = i + 1;
        }
        proof {
            assert forall|x: TransactionId| timed_out@.to_set().contains(x) <==> f.contains(x) by {
                if timed_out@.to_set().contains(x) {
                    let j = choose|j: int| 0 <= j < timed_out@.len() && timed_out@[j] == x;
                    assert(f.contains(timed_out@[j]));
                }
                if f.contains(x) {
                    let w = choose|w: int| 0 <= w < s.len() && s[w].0 == x;
                    lemma_entry_in_view(s, w);
                    assert(timed_out@.contains(s[w].0));
                }
            }
            assert(timed_out@.to_set() =~= f);
        }
        timed_out
    }

    /// The transactions, not yet committed or aborted, created more than the
    /// timeout before `now_millis`.
    pub open spec fn timed_out_at(&self, now_millis: u64) -> Set<TransactionId> {
        self.txns().dom().filter(|id: TransactionId|
            now_millis as int - self.txns()[id].created_at as int > self.timeout_spec() as int * 1000
            && !is_final(self.txns()[id].state))
    }

    /// The timed-out transactions, measured against the clock: exactly
    /// those timed out at the instant the clock was read.
    pub fn check_timeouts(&self) -> (r: Vec<TransactionId>)
        requires
            self.wf(),
        ensures
            r@.no_duplicates(),
            exists|now_millis: u64| r@.to_set() == #[trigger] self.timed_out_at(now_millis),
            forall|j: int| 0 <= j < r@.len() ==> self.txns().contains_key(#[trigger] r@[j])
                && !is_final(self.txns()[r@[j]].state),
    {
        let now = current_millis();
        let r = self.check_timeouts_at(now);
        assert(r@.to_set() =~= self.timed_out_at(now));
        proof {
            assert forall|j: int| 0 <= j < r@.len() implies self.txns().contains_key(#[trigger] r@[j])
                && !is_final(self.txns()[r@[j]].state) by {
                assert(r@.to_set().contains(r@[j]));
            }
        }
        r
    }

    /// A copy of a transaction.
    pub fn get_transaction(&self, txn_id: TransactionId) -> (r: Option<DistributedTransaction>)
        requires
            self.wf(),
        ensures
            self.txns().contains_key(txn_id) ==> (r matches Some(t) && t@ == self.txns()[txn_id]),
            !self.txns().contains_key(txn_id) ==> r is None,
    {
        match self.transactions.get(&txn_id) {
            Some(t) => Some(t.duplicate()),
            None => None,
        }
    }

    /// Counts of transactions by outcome.
    pub fn get_statistics(&self) -> (r: TwoPhaseCommitStats)
        requires
            self.wf(),
        ensures
            r.total_transactions == self.txns().dom().len(),
            r.committed_transactions == self.txns().dom().filter(|id: TransactionId| self.txns()[id].state == TwoPhaseCommitState::Committed).len(),
            r.aborted_transactions == self.txns().dom().filter(|id: TransactionId| self.txns()[id].state == TwoPhaseCommitState::Aborted).len(),
            r.in_progress_transactions == self.txns().dom().filter(|id: TransactionId| !is_final(self.txns()[id].state)).len(),
    {
        let len = self.transactions.len();
        proof { self.transactions.lemma_wf(); }
        let ghost s = self.transactions.entries();
        let ghost pc = |t: DistributedTransaction| t.state == TwoPhaseCommitState::Committed;
        let ghost pa = |t: DistributedTransaction| t.state == TwoPhaseCommitState::Aborted;
        let ghost pi = |t: DistributedTransaction| !is_final(t.state);
        let mut committed: usize = 0;
        let mut aborted: usize = 0;
        let mut in_progress: usize = 0;
        let mut i: usize = 0;
        while i < len
            invariant
                self.wf(),
                s == self.transactions.entries(),
                len == s.len(),
                i <= len,
                pc == (|t: DistributedTransaction| t.state == TwoPhaseCommitState::Committed),
                pa == (|t: DistributedTransaction| t.state == TwoPhaseCommitState::Aborted),
                pi == (|t: DistributedTransaction| !is_final(t.state)),
                committed <= i && aborted <= i && in_progress <= i,
                committed == count_where(s.subrange(0, i as int), pc),
                aborted == count_where(s.subrange(0, i as int), pa),
                in_progress == count_where(s.subrange(0, i as int), pi),
            decreases len - i,
        {
            let t = self.transactions.value_at(i);
            proof {
                let u = s.subrange(0, i + 1);
                assert(u.drop_last() =~= s.subrange(0, i as int));
                assert(u.last() == s[i as int]);
            }
            if t.state == TwoPhaseCommitState::Committed {
                committed = committed + 1;
            }
            if t.state == TwoPhaseCommitState::Aborted {
                aborted = aborted + 1;
            }
            if t.state != TwoPhaseCommitState::Committed && t.state != TwoPhaseCommitState::Aborted {
                in_progress = in_progress + 1;
            }
            i = i + 1;
        }
        proof {
            assert(s.subrange(0, len as int) =~= s);
            lemma_count_where(s, pc);
            lemma_count_where(s, pa);
            lemma_count_where(s, pi);
            let m = self.transactions.view();
            let v = self.txns();
            assert(v.dom() =~= m.dom());
            assert(m.dom().filter(|k: TransactionId| pc(m[k])) =~= v.dom().filter(|id: TransactionId| v[id].state == TwoPhaseCommitState::Committed));
            assert(m.dom().filter(|k: TransactionId| pa(m[k])) =~= v.dom().filter(|id: TransactionId| v[id].state == TwoPhaseCommitState::Aborted));
            assert(m.dom().filter(|k: TransactionId| pi(m[k])) =~= v.dom().filter(|id: TransactionId| !is_final(v[id].state)));
        }
        TwoPhaseCommitStats {
            total_transactions: len,
            committed_transactions: committed,
            aborted_transactions: aborted,
            in_progress_transactions: in_progress,
        }
    }
}

fn copy_states(v: &Vec<ParticipantState>) -> (r: Vec<ParticipantState>)
    ensures
        r@ == v@,
{
    let mut r: Vec<ParticipantState> = Vec::new();
    let mut i: usize = 0;
    while i < v.len()
        invariant
            i <= v.len(),
            r@ == v@.subrange(0, i as int),
        decreases v.len() - i,
    {
        r.push(v[i]);
        i = i + 1;
    }
    assert(r@ =~= v@);
    r
}

/// Participant in 2PC.
pub struct TwoPhaseCommitParticipant {
    /// This node's ID
    node_id: NodeId,
    /// Transactions we participate in
    transactions: Table<TransactionId, DistributedTransaction>,
}

impl TwoPhaseCommitParticipant {
    pub closed spec fn wf(&self) -> bool {
        self.transactions.wf()
    }

    pub closed spec fn node_id_spec(&self) -> NodeId { self.node_id }

    /// The transactions we participate in, by id.
    pub closed spec fn txns(&self) -> Map<TransactionId, DistributedTransactionView> {
        self.transactions.view().map_values(|t: DistributedTransaction| t@)
    }

    /// A participant with no transactions.
    pub fn new(node_id: NodeId) -> (r: Self)
        ensures
            r.wf(),
            r.node_id_spec() == node_id,
            r.txns() == Map::<TransactionId, DistributedTransactionView>::empty(),
    {
        let r = Self { node_id, transactions: Table::new() };
        assert(r.txns() =~= Map::<TransactionId, DistributedTransactionView>::empty());
        r
    }

    /// Handle PREPARE: record the transaction as prepared and vote yes.
    pub fn handle_prepare(&mut self, txn_id: TransactionId, operations: Vec<u8>) -> (r: Vote)
        requires
            old(self).wf(),
        ensures
            final(self).wf(),
            r == Vote::Yes,
            final(self).txns().contains_key(txn_id),
            final(self).txns() == old(self).txns().insert(txn_id, final(self).txns()[txn_id]),
            final(self).txns()[txn_id].state == TwoPhaseCommitState::Prepared,
            final(self).txns()[txn_id].operations == operations@,
            final(self).txns()[txn_id].participants == Seq::<NodeId>::empty(),
            final(self).txns()[txn_id].coordinator == 0,
            final(self).node_id_spec() == old(self).node_id_spec(),
    {
        let can_commit = self.try_prepare(txn_id, operations);
        if can_commit {
            Vote::Yes
        } else {
            Vote::No
        }
    }

    /// Record the transaction as prepared; preparing always succeeds.
    fn try_prepare(&mut self, txn_id: TransactionId, operations: Vec<u8>) -> (r: bool)
        requires
            old(self).wf(),
        ensures
            final(self).wf(),
            r,
            final(self).txns().contains_key(txn_id),
            final(self).txns() == old(self).txns().insert(txn_id, final(self).txns()[txn_id]),
            final(self).txns()[txn_id].state == TwoPhaseCommitState::Prepared,
            final(self).txns()[txn_id].operations == operations@,
            final(self).txns()[txn_id].participants == Seq::<NodeId>::empty(),
            final(self).txns()[txn_id].coordinator == 0,
            final(self).node_id_spec() == old(self).node_id_spec(),
    {
        let txn = DistributedTransaction {
            txn_id,
            coordinator: 0,
            participants: Vec::new(),
            state: TwoPhaseCommitState::Prepared,
            operations,
            created_at: current_millis(),
        };
        self.transactions.insert(txn_id, txn);
        proof {
            assert(self.txns() =~= old(self).txns().insert(txn_id, self.txns()[txn_id]));
        }
        true
    }

    fn finish(&mut self, txn_id: TransactionId, state: TwoPhaseCommitState) -> (r: bool)
        requires
            old(self).wf(),
        ensures
            final(self).wf(),
            r == old(self).txns().contains_key(txn_id),
            r ==> final(self).txns() == old(self).txns().insert(txn_id,
                DistributedTransactionView { state, ..old(self).txns()[txn_id] }),
            !r ==> final(self).txns() == old(self).txns(),
            final(self).node_id_spec() == old(self).node_id_spec(),
    {
        match self.transactions.find(&txn_id) {
            Some(i) => {
                let t = self.transactions.value_at(i).with_state(state);
                self.transactions.set_value_at(i, t);
                proof {
                    assert(self.txns() =~= old(self).txns().insert(txn_id,
                        DistributedTransactionView { state, ..old(self).txns()[txn_id] }));
                }
                true
            },
            None => false,
        }
    }

    /// Handle COMMIT: a known transaction becomes committed.
    pub fn handle_commit(&mut self, txn_id: TransactionId) -> (r: bool)
        requires
            old(self).wf(),
        ensures
            final(self).wf(),
            r == old(self).txns().contains_key(txn_id),
            r ==> final(self).txns() == old(self).txns().insert(txn_id,
                DistributedTransactionView { state: TwoPhaseCommitState::Committed, ..old(self).txns()[txn_id] }),
            !r ==> final(self).txns() == old(self).txns(),
            final(self).node_id_spec() == old(self).node_id_spec(),
    {
        self.finish(txn_id, TwoPhaseCommitState::Committed)
    }

    /// Handle ABORT: a known transaction becomes aborted.
    pub fn handle_abort(&mut self, txn_id: TransactionId) -> (r: bool)
        requires
            old(self).wf(),
        ensures
            final(self).wf(),
            r == old(self).txns().contains_key(txn_id),
            r ==> final(self).txns() == old(self).txns().insert(txn_id,
                DistributedTransactionView { state: TwoPhaseCommitState::Aborted, ..old(self).txns()[txn_id] }),
            !r ==> final(self).txns() == old(self).txns(),
            final(self).node_id_spec() == old(self).node_id_spec(),
    {
        self.finish(txn_id, TwoPhaseCommitState::Aborted)
    }
}

/// 2PC statistics.
#[derive(Debug, Clone, Copy)]
pub struct TwoPhaseCommitStats {
    pub total_transactions: usize,
    pub committed_transactions: usize,
    pub aborted_transactions: usize,
    pub in_progress_transactions: usize,
}


proof fn lemma_first_exists(s: Seq<ParticipantState>, p: NodeId)
    requires
        exists|i: int| 0 <= i < s.len() && s[i].participant_id == p,
    ensures
        exists|i: int| first_of(s, p, i),
    decreases s.len(),
{
    let t = s.drop_last();
    if exists|i: int| 0 <= i < t.len() && t[i].participant_id == p {
        lemma_first_exists(t, p);
        let k = choose|i: int| first_of(t, p, i);
        assert forall|j: int| 0 <= j < k implies s[j].participant_id != p by {
            assert(s[j] == t[j]);
        }
        assert(first_of(s, p, k));
    } else {
        let k = s.len() - 1;
        assert forall|j: int| 0 <= j < k implies s[j].participant_id != p by {
            assert(s[j] == t[j]);
        }
        assert(first_of(s, p, k));
    }
}

/// One "no" vetoes the commit: after a participant of the transaction votes
/// no, not every vote is yes, so `handle_vote` can only abort it.
pub proof fn law_single_no_vetoes(s: Seq<ParticipantState>, p: NodeId)
    requires
        exists|i: int| 0 <= i < s.len() && s[i].participant_id == p,
    ensures
        !all_yes(record_vote(s, p, Vote::No)),
{
    lemma_first_exists(s, p);
    let k = choose|i: int| first_of(s, p, i);
    let r = record_vote(s, p, Vote::No);
    assert(r[k].vote == Some(Vote::No));
}

/// Unanimity commits: when every other participant has voted yes, the
/// last participant's yes leaves every participant voted and every vote
/// yes, so `handle_vote` moves the transaction to `Committing`.
pub proof fn law_unanimous_yes_commits(s: Seq<ParticipantState>, p: NodeId)
    requires
        exists|i: int| 0 <= i < s.len() && s[i].participant_id == p,
        forall|i: int| 0 <= i < s.len() && s[i].participant_id != p ==> s[i].vote == Some(Vote::Yes),
        forall|i: int, j: int| 0 <= i < s.len() && 0 <= j < s.len() && s[i].participant_id == s[j].participant_id ==> i == j,
    ensures
        all_voted(record_vote(s, p, Vote::Yes)),
        all_yes(record_vote(s, p, Vote::Yes)),
{
    lemma_first_exists(s, p);
    let k = choose|i: int| first_of(s, p, i);
    let r = record_vote(s, p, Vote::Yes);
    assert forall|i: int| 0 <= i < r.len() implies (#[trigger] r[i]).vote == Some(Vote::Yes) by {
        if i != k {
            assert(s[i].participant_id != p);
        }
    }
}

/// Acknowledgements leave the votes as they were, so the outcome that
/// `handle_ack` finally records (committed exactly when every vote was
/// yes) is the one the votes decided in `handle_vote`: all participants
/// commit or all abort.
pub proof fn law_acks_keep_the_vote_outcome(s: Seq<ParticipantState>, p: NodeId)
    ensures
        all_voted(record_ack(s, p)) == all_voted(s),
        all_yes(record_ack(s, p)) == all_yes(s),
{
    let r = record_ack(s, p);
    assert forall|i: int| 0 <= i < s.len() implies (#[trigger] r[i]).vote == s[i].vote by {}
    if all_voted(r) {
        assert forall|i: int| 0 <= i < s.len() implies (#[trigger] s[i]).vote is Some by {
            assert(r[i].vote == s[i].vote);
        }
    }
    if all_yes(r) {
        assert forall|i: int| 0 <= i < s.len() implies (#[trigger] s[i]).vote == Some(Vote::Yes) by {
            assert(r[i].vote == s[i].vote);
        }
    }
}

} // verus!
