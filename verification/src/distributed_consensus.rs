//! Raft consensus: a node's state machine for leader election, log
//! replication and commitment. Each handler is stated as a step function on
//! the node's abstract state; sending the messages and running the timers
//! is the caller's part.

use vstd::prelude::*;
use vstd::string::StringExecFns;
use crate::clock::current_millis;
use crate::distributed_topology::NodeId;
use crate::table::{Table, count_where, map_count_where, lemma_count_where};
use crate::text::copy_bytes;

verus! {

/// Raft term number (monotonically increasing).
pub type Term = u64;

/// Log entry index.
pub type LogIndex = u64;

/// Raft node state.
#[derive(Debug, Clone, Copy, PartialEq, Eq, Structural)]
pub enum RaftState {
    Follower,
    Candidate,
    Leader,
}

/// Raft log entry.
#[derive(Debug, Clone)]
pub struct LogEntry {
    pub term: Term,
    pub index: LogIndex,
    /// Serialized command
    pub command: Vec<u8>,
}

/// The value of a log entry.
pub struct LogEntryView {
    pub term: Term,
    pub index: LogIndex,
    pub command: Seq<u8>,
}

impl View for LogEntry {
    type V = LogEntryView;

    open spec fn view(&self) -> LogEntryView {
        LogEntryView { term: self.term, index: self.index, command: self.command@ }
    }
}

impl LogEntry {
    /// A copy of the entry.
    pub fn duplicate(&self) -> (r: Self)
        ensures
            r@ == self@,
    {
        LogEntry { term: self.term, index: self.index, command: copy_bytes(&self.command) }
    }
}

/// The views of a sequence of log entries.
pub open spec fn entry_views(v: Seq<LogEntry>) -> Seq<LogEntryView> {
    v.map_values(|e: LogEntry| e@)
}

/// Raft message types.
#[derive(Debug, Clone)]
pub enum RaftMessage {
    /// Request vote from other nodes
    RequestVote { term: Term, candidate_id: NodeId, last_log_index: LogIndex, last_log_term: Term },
    /// Response to vote request
    VoteResponse { term: Term, vote_granted: bool },
    /// Leader sends log entries (also used as heartbeat)
    AppendEntries {
        term: Term,
        leader_id: NodeId,
        prev_log_index: LogIndex,
        prev_log_term: Term,
        entries: Vec<LogEntry>,
        leader_commit: LogIndex,
    },
    /// Response to append entries
    AppendEntriesResponse { term: Term, success: bool, match_index: LogIndex },
}

/// Raft configuration.
#[derive(Debug, Clone, Copy)]
pub struct RaftConfig {
    /// Election timeout range (ms), randomized between min and max
    pub election_timeout_min_ms: u64,
    pub election_timeout_max_ms: u64,
    /// Heartbeat interval (ms)
    pub heartbeat_interval_ms: u64,
    /// How long to wait for responses before retrying
    pub rpc_timeout_ms: u64,
}

impl Default for RaftConfig {
    fn default() -> (r: Self)
        ensures
            r.election_timeout_min_ms == 150,
            r.election_timeout_max_ms == 300,
            r.heartbeat_interval_ms == 50,
            r.rpc_timeout_ms == 100,
    {
        RaftConfig {
            election_timeout_min_ms: 150,
            election_timeout_max_ms: 300,
            heartbeat_interval_ms: 50,
            rpc_timeout_ms: 100,
        }
    }
}

/// The abstract state of a Raft node.
#[verifier::ext_equal]
pub struct RaftView {
    pub node_id: NodeId,
    pub state: RaftState,
    pub term: Term,
    pub voted_for: Option<NodeId>,
    pub log: Seq<LogEntryView>,
    pub commit_index: LogIndex,
    pub last_applied: LogIndex,
    pub next_index: Map<NodeId, LogIndex>,
    pub match_index: Map<NodeId, LogIndex>,
    pub leader: Option<NodeId>,
    pub nodes: Seq<NodeId>,
    /// When the leader was last heard from (milliseconds since the epoch)
    pub last_heartbeat: u64,
}

// ---------------------------------------------------------------------
// The steps
// ---------------------------------------------------------------------

/// The term of the last log entry, 0 for an empty log.
pub open spec fn log_last_term(log: Seq<LogEntryView>) -> Term {
    if log.len() > 0 {
        log.last().term
    } else {
        0
    }
}

/// A message of a newer term makes the node a follower of that term that
/// has not voted yet.
pub open spec fn observe_term(v: RaftView, term: Term) -> RaftView {
    if term > v.term {
        RaftView { term, voted_for: None, state: RaftState::Follower, ..v }
    } else {
        v
    }
}

/// Whether a candidate's log (its last index and term) is at least as up
/// to date as `log`.
pub open spec fn log_up_to_date(log: Seq<LogEntryView>, last_log_index: LogIndex, last_log_term: Term) -> bool {
    last_log_term > log_last_term(log) || (last_log_term == log_last_term(log) && last_log_index >= log.len())
}

/// Handling a vote request: the state after it and whether the vote is
/// granted. The vote goes to a candidate of the current term whose log is
/// up to date, if the node has not voted for another in this term.
pub open spec fn request_vote_step(v: RaftView, term: Term, candidate: NodeId, last_log_index: LogIndex, last_log_term: Term) -> (RaftView, bool) {
    let v1 = observe_term(v, term);
    let can_vote = term == v1.term && (v1.voted_for is None || v1.voted_for == Some(candidate));
    if can_vote && log_up_to_date(v1.log, last_log_index, last_log_term) {
        (RaftView { voted_for: Some(candidate), ..v1 }, true)
    } else {
        (v1, false)
    }
}

/// Handling a vote response: a candidate that hears of a newer term
/// becomes a follower of it.
pub open spec fn vote_response_step(v: RaftView, term: Term) -> RaftView {
    if v.state != RaftState::Candidate {
        v
    } else if term > v.term {
        RaftView { term, state: RaftState::Follower, ..v }
    } else {
        v
    }
}

/// Handling entries from a leader, received at `now`: the state after it
/// and whether they were accepted. A stale term is refused; otherwise the
/// sender is the leader, its entries are appended and the commit index
/// follows the leader's, up to the log's end.
pub open spec fn append_entries_step(
    v: RaftView,
    term: Term,
    leader_id: NodeId,
    entries: Seq<LogEntryView>,
    leader_commit: LogIndex,
    now: u64,
) -> (RaftView, bool) {
    let v1 = observe_term(v, term);
    if term < v1.term {
        (v1, false)
    } else {
        let v2 = RaftView { leader: Some(leader_id), last_heartbeat: now, log: v1.log + entries, ..v1 };
        if leader_commit > v2.commit_index {
            let len = v2.log.len() as u64;
            (RaftView { commit_index: if leader_commit < len { leader_commit } else { len }, ..v2 }, true)
        } else {
            (v2, true)
        }
    }
}

/// The majority of the cluster's nodes.
pub open spec fn majority_of(nodes: Seq<NodeId>) -> nat {
    nodes.len() / 2 + 1
}

/// Whether index `n` is on a majority: this node plus the followers whose
/// match index reaches `n`.
pub open spec fn committable(v: RaftView, n: LogIndex) -> bool {
    1 + map_count_where(v.match_index, |x: LogIndex| x >= n) >= majority_of(v.nodes)
}

/// The highest committable index in `(commit_index, n]`.
pub open spec fn highest_committable(v: RaftView, n: int) -> Option<LogIndex>
    decreases n,
{
    if n <= v.commit_index || n <= 0 {
        None
    } else if committable(v, n as LogIndex) {
        Some(n as LogIndex)
    } else {
        highest_committable(v, n - 1)
    }
}

/// The commit index moves to the highest index of the log on a majority.
pub open spec fn advance_commit(v: RaftView) -> RaftView {
    match highest_committable(v, v.log.len() as int) {
        Some(n) => RaftView { commit_index: n, ..v },
        None => v,
    }
}

/// Handling a follower's answer to entries: a leader that hears of a newer
/// term becomes a follower; on success it records the follower's progress
/// and advances its commit index.
pub open spec fn append_response_step(v: RaftView, sender: NodeId, term: Term, success: bool, match_index: LogIndex) -> RaftView {
    if v.state != RaftState::Leader {
        v
    } else if term > v.term {
        RaftView { term, state: RaftState::Follower, ..v }
    } else if success {
        advance_commit(RaftView {
            match_index: v.match_index.insert(sender, match_index),
            next_index: v.next_index.insert(sender, (match_index + 1) as u64),
            ..v
        })
    } else {
        v
    }
}

/// The nodes of the cluster other than this one.
pub open spec fn is_other(v: RaftView, k: NodeId) -> bool {
    v.nodes.contains(k) && k != v.node_id
}

/// Becoming leader: every other node is to be sent from the end of the log
/// on and has nothing replicated yet.
pub open spec fn become_leader_step(v: RaftView) -> RaftView {
    RaftView {
        state: RaftState::Leader,
        leader: Some(v.node_id),
        next_index: v.next_index.union_prefer_right(Map::new(|k: NodeId| is_other(v, k), |k: NodeId| (v.log.len() + 1) as u64)),
        match_index: v.match_index.union_prefer_right(Map::new(|k: NodeId| is_other(v, k), |k: NodeId| 0u64)),
        ..v
    }
}

/// Starting an election: the node becomes a candidate of the next term and
/// votes for itself; with its vote alone a majority, it leads.
pub open spec fn start_election_step(v: RaftView) -> RaftView {
    let v1 = RaftView {
        state: RaftState::Candidate,
        term: (v.term + 1) as u64,
        voted_for: Some(v.node_id),
        ..v
    };
    if 1 >= majority_of(v1.nodes) {
        become_leader_step(v1)
    } else {
        v1
    }
}

/// Appending a command as a leader: a new entry of the current term at the
/// next index.
pub open spec fn append_entry_step(v: RaftView, command: Seq<u8>) -> RaftView {
    RaftView {
        log: v.log.push(LogEntryView { term: v.term, index: (v.log.len() + 1) as u64, command }),
        ..v
    }
}

// ---------------------------------------------------------------------
// The node
// ---------------------------------------------------------------------

/// Raft consensus state machine of one node.
pub struct RaftNode {
    config: RaftConfig,
    node_id: NodeId,
    state: RaftState,
    current_term: Term,
    voted_for: Option<NodeId>,
    log: Vec<LogEntry>,
    commit_index: LogIndex,
    last_applied: LogIndex,
    next_index: Table<NodeId, LogIndex>,
    match_index: Table<NodeId, LogIndex>,
    current_leader: Option<NodeId>,
    cluster_nodes: Vec<NodeId>,
    last_heartbeat: u64,
}

impl View for RaftNode {
    type V = RaftView;

    closed spec fn view(&self) -> RaftView {
        RaftView {
            node_id: self.node_id,
            state: self.state,
            term: self.current_term,
            voted_for: self.voted_for,
            log: entry_views(self.log@),
            commit_index: self.commit_index,
            last_applied: self.last_applied,
            next_index: self.next_index.view(),
            match_index: self.match_index.view(),
            leader: self.current_leader,
            nodes: self.cluster_nodes@,
            last_heartbeat: self.last_heartbeat,
        }
    }
}

proof fn lemma_entry_views_push(v: Seq<LogEntry>, e: LogEntry)
    ensures
        entry_views(v.push(e)) == entry_views(v).push(e@),
{
    assert(entry_views(v.push(e)) =~= entry_views(v).push(e@));
}


fn contains_node(nodes: &Vec<NodeId>, id: NodeId) -> (r: bool)
    ensures
        r == nodes@.contains(id),
{
    let mut i: usize = 0;
    while i < nodes.len()
        invariant
            i <= nodes@.len(),
            forall|j: int| 0 <= j < i ==> nodes@[j] != id,
        decreases nodes.len() - i,
    {
        if nodes[i] == id {
            return true;
        }
        i = i + 1;
    }
    false
}

/// Sets `val` for every node of `nodes` other than `me`.
fn init_indices(t: &mut Table<NodeId, LogIndex>, nodes: &Vec<NodeId>, me: NodeId, val: LogIndex)
    requires
        old(t).wf(),
    ensures
        final(t).wf(),
        final(t).view() == old(t).view().union_prefer_right(Map::new(
            |k: NodeId| nodes@.contains(k) && k != me,
            |k: NodeId| val,
        )),
{
    let mut i: usize = 0;
    while i < nodes.len()
        invariant
            t.wf(),
            i <= nodes@.len(),
            t.view() == old(t).view().union_prefer_right(Map::new(
                |k: NodeId| nodes@.subrange(0, i as int).contains(k) && k != me,
                |k: NodeId| val,
            )),
        decreases nodes.len() - i,
    {
        let node_id = nodes[i];
        if node_id != me {
            t.insert(node_id, val);
        }
        proof {
            let sub = nodes@.subrange(0, i + 1);
            let pre = nodes@.subrange(0, i as int);
            assert forall|k: NodeId| sub.contains(k) <==> (pre.contains(k) || k == node_id) by {
                if sub.contains(k) {
                    let j = choose|j: int| 0 <= j < sub.len() && sub[j] == k;
                    if j < i {
                        assert(pre[j] == k);
                    }
                }
                if pre.contains(k) {
                    let j = choose|j: int| 0 <= j < pre.len() && pre[j] == k;
                    assert(sub[j] == k);
                }
                if k == node_id {
                    assert(sub[i as int] == k);
                }
            }
            assert(t.view() =~= old(t).view().union_prefer_right(Map::new(
                |k: NodeId| sub.contains(k) && k != me,
                |k: NodeId| val,
            )));
        }
        i = i + 1;
    }
    assert(nodes@.subrange(0, nodes@.len() as int) =~= nodes@);
}

/// Appends copies of `entries` to `log`.
fn extend_log(log: &mut Vec<LogEntry>, entries: &Vec<LogEntry>)
    ensures
        entry_views(final(log)@) == entry_views(old(log)@) + entry_views(entries@),
        final(log)@.len() == old(log)@.len() + entries@.len(),
{
    let mut i: usize = 0;
    while i < entries.len()
        invariant
            i <= entries@.len(),
            entry_views(log@) == entry_views(old(log)@) + entry_views(entries@).subrange(0, i as int),
            log@.len() == old(log)@.len() + i,
        decreases entries.len() - i,
    {
        let e = entries[i].duplicate();
        proof { lemma_entry_views_push(log@, e); }
        log.push(e);
        proof {
            assert(entry_views(log@) =~= entry_views(old(log)@) + entry_views(entries@).subrange(0, i + 1));
        }
        i = i + 1;
    }
    assert(entry_views(entries@).subrange(0, entries@.len() as int) =~= entry_views(entries@));
}

/// The number of followers whose match index reaches `n`.
fn count_at_least(t: &Table<NodeId, LogIndex>, n: LogIndex) -> (r: usize)
    requires
        t.wf(),
    ensures
        r == map_count_where(t.view(), |x: LogIndex| x >= n),
{
    let mut count: usize = 0;
    let mut j: usize = 0;
    proof { t.lemma_wf(); }
    while j < t.len()
        invariant
            t.wf(),
            j <= t.entries().len(),
            count == count_where(t.entries().subrange(0, j as int), |x: LogIndex| x >= n),
            count <= j,
        decreases t.entries().len() - j,
    {
        let ghost sub = t.entries().subrange(0, j + 1);
        proof {
            assert(sub.drop_last() =~= t.entries().subrange(0, j as int));
        }
        if *t.value_at(j) >= n {
            count = count + 1;
        }
        j = j + 1;
    }
    proof {
        assert(t.entries().subrange(0, t.entries().len() as int) =~= t.entries());
        t.lemma_wf();
        lemma_count_where(t.entries(), |x: LogIndex| x >= n);
    }
    count
}

impl RaftNode {
    /// The configuration.
    pub closed spec fn config_spec(&self) -> RaftConfig {
        self.config
    }

    /// The tables are well formed, cluster nodes are distinct, the commit
    /// index lies within the log, and the log's length fits a log index.
    pub closed spec fn wf(&self) -> bool {
        &&& self.next_index.wf()
        &&& self.match_index.wf()
        &&& self.cluster_nodes@.no_duplicates()
        &&& self.commit_index <= self.log@.len()
        &&& self.log@.len() < u64::MAX
    }

    /// A follower of term 0 with an empty log, no vote, no leader and no
    /// other node; it last heard of a leader at `now`.
    pub fn new_at(node_id: NodeId, config: RaftConfig, now: u64) -> (r: Self)
        ensures
            r.wf(),
            r.config_spec() == config,
            r@.node_id == node_id,
            r@.state == RaftState::Follower,
            r@.term == 0,
            r@.voted_for is None,
            r@.log == Seq::<LogEntryView>::empty(),
            r@.commit_index == 0,
            r@.last_applied == 0,
            r@.next_index == Map::<NodeId, LogIndex>::empty(),
            r@.match_index == Map::<NodeId, LogIndex>::empty(),
            r@.leader is None,
            r@.nodes == Seq::<NodeId>::empty(),
            r@.last_heartbeat == now,
    {
        let r = RaftNode {
            config,
            node_id,
            state: RaftState::Follower,
            current_term: 0,
            voted_for: None,
            log: Vec::new(),
            commit_index: 0,
            last_applied: 0,
            next_index: Table::new(),
            match_index: Table::new(),
            current_leader: None,
            cluster_nodes: Vec::new(),
            last_heartbeat: now,
        };
        assert(r@.log =~= Seq::<LogEntryView>::empty());
        r
    }

    /// A new follower, having last heard of a leader now.
    pub fn new(node_id: NodeId, config: RaftConfig) -> (r: Self)
        ensures
            r.wf(),
            r.config_spec() == config,
            r@.node_id == node_id,
            r@.state == RaftState::Follower,
            r@.term == 0,
            r@.voted_for is None,
            r@.log == Seq::<LogEntryView>::empty(),
            r@.commit_index == 0,
            r@.leader is None,
            r@.nodes == Seq::<NodeId>::empty(),
    {
        Self::new_at(node_id, config, current_millis())
    }

    /// Add a node to the cluster, once.
    pub fn add_cluster_node(&mut self, node_id: NodeId)
        requires
            old(self).wf(),
        ensures
            final(self).wf(),
            final(self).config_spec() == old(self).config_spec(),
            old(self)@.nodes.contains(node_id) ==> final(self)@ == old(self)@,
            !old(self)@.nodes.contains(node_id) ==> final(self)@ == (RaftView { nodes: old(self)@.nodes.push(node_id), ..old(self)@ }),
    {
        if contains_node(&self.cluster_nodes, node_id) {
            return;
        }
        self.cluster_nodes.push(node_id);
        proof {
            assert(self@ =~= (RaftView { nodes: old(self)@.nodes.push(node_id), ..old(self)@ }));
        }
    }

    /// The cluster's nodes, in the order they were added.
    pub fn get_cluster_nodes(&self) -> (r: Vec<NodeId>)
        ensures
            r@ == self@.nodes,
    {
        self.cluster_nodes.clone()
    }

    /// The current state.
    pub fn get_state(&self) -> (r: RaftState)
        ensures
            r == self@.state,
    {
        self.state
    }

    /// The current term.
    pub fn get_current_term(&self) -> (r: Term)
        ensures
            r == self@.term,
    {
        self.current_term
    }

    /// The current leader, if known.
    pub fn get_current_leader(&self) -> (r: Option<NodeId>)
        ensures
            r == self@.leader,
    {
        self.current_leader
    }

    /// When the leader was last heard from.
    pub fn get_last_heartbeat(&self) -> (r: u64)
        ensures
            r == self@.last_heartbeat,
    {
        self.last_heartbeat
    }

    /// A random election timeout, at least the configured minimum and
    /// below the configured maximum (milliseconds).
    pub fn election_timeout_ms(&self) -> (r: u64)
        requires
            self.config_spec().election_timeout_min_ms < self.config_spec().election_timeout_max_ms,
        ensures
            self.config_spec().election_timeout_min_ms <= r < self.config_spec().election_timeout_max_ms,
    {
        let span = self.config.election_timeout_max_ms - self.config.election_timeout_min_ms;
        random_u64() % span + self.config.election_timeout_min_ms
    }

    /// Whether, at time `now` (milliseconds), an election is due after
    /// waiting `timeout_ms`: the node is not the leader and has heard from
    /// none for longer than that (a clock behind the last heartbeat counts
    /// as no time passed).
    pub fn election_due(&self, now: u64, timeout_ms: u64) -> (r: bool)
        ensures
            r == (self@.state != RaftState::Leader && now >= self@.last_heartbeat && now - self@.last_heartbeat
                > timeout_ms),
    {
        if self.state == RaftState::Leader {
            return false;
        }
        now.saturating_sub(self.last_heartbeat) > timeout_ms
    }

    /// Whether this node is the leader.
    pub fn is_leader(&self) -> (r: bool)
        ensures
            r == (self@.state == RaftState::Leader),
    {
        self.state == RaftState::Leader
    }

    /// Start an election, as `start_election_step` states.
    pub fn start_election(&mut self)
        requires
            old(self).wf(),
            old(self)@.term < u64::MAX,
        ensures
            final(self).wf(),
            final(self).config_spec() == old(self).config_spec(),
            final(self)@ == start_election_step(old(self)@),
    {
        self.state = RaftState::Candidate;
        self.current_term = self.current_term + 1;
        self.voted_for = Some(self.node_id);
        let votes_received: usize = 1;
        let quorum = (self.cluster_nodes.len() / 2) + 1;
        if votes_received >= quorum {
            self.become_leader();
        }
    }

    /// Become the leader, as `become_leader_step` states.
    pub fn become_leader(&mut self)
        requires
            old(self).wf(),
        ensures
            final(self).wf(),
            final(self).config_spec() == old(self).config_spec(),
            final(self)@ == become_leader_step(old(self)@),
    {
        let ghost v = self@;
        self.state = RaftState::Leader;
        self.current_leader = Some(self.node_id);
        let log_len = self.log.len() as u64;
        init_indices(&mut self.next_index, &self.cluster_nodes, self.node_id, log_len + 1);
        init_indices(&mut self.match_index, &self.cluster_nodes, self.node_id, 0);
        proof {
            let w = become_leader_step(v);
            assert(log_len == v.log.len());
            assert(self@.next_index =~= w.next_index);
            assert(self@.match_index =~= w.match_index);
            assert(self@.log =~= w.log);
            assert(self@ == w);
        }
    }

    /// Append a command to the log as leader, as `append_entry_step`
    /// states; its index is returned. A follower or candidate is refused.
    pub fn append_entry(&mut self, command: Vec<u8>) -> (r: Result<LogIndex, String>)
        requires
            old(self).wf(),
            old(self)@.log.len() + 1 < u64::MAX,
        ensures
            final(self).wf(),
            final(self).config_spec() == old(self).config_spec(),
            old(self)@.state != RaftState::Leader ==> (r matches Err(e) && e@ == "Not the leader"@)
                && final(self)@ == old(self)@,
            old(self)@.state == RaftState::Leader ==> r == Ok::<LogIndex, String>((old(self)@.log.len() + 1) as u64)
                && final(self)@ == append_entry_step(old(self)@, command@),
    {
        if !self.is_leader() {
            return Err(String::from_str("Not the leader"));
        }
        let index = self.log.len() as u64 + 1;
        let term = self.current_term;
        let entry = LogEntry { term, index, command };
        proof { lemma_entry_views_push(self.log@, entry); }
        self.log.push(entry);
        proof {
            assert(self@ =~= append_entry_step(old(self)@, entry@.command));
        }
        Ok(index)
    }

    /// Handle a vote request, as `request_vote_step` states; the answer
    /// carries the node's term and whether the vote was granted.
    pub fn handle_request_vote(&mut self, term: Term, candidate_id: NodeId, last_log_index: LogIndex, last_log_term: Term) -> (r: Option<RaftMessage>)
        requires
            old(self).wf(),
        ensures
            final(self).wf(),
            final(self).config_spec() == old(self).config_spec(),
            final(self)@ == request_vote_step(old(self)@, term, candidate_id, last_log_index, last_log_term).0,
            r == Some(RaftMessage::VoteResponse {
                term: final(self)@.term,
                vote_granted: request_vote_step(old(self)@, term, candidate_id, last_log_index, last_log_term).1,
            }),
    {
        if term > self.current_term {
            self.current_term = term;
            self.voted_for = None;
            self.state = RaftState::Follower;
        }
        let term_value = self.current_term;
        let can_vote = term == term_value && (self.voted_for.is_none() || self.voted_for == Some(candidate_id));
        if can_vote {
            let our_last_term = if self.log.len() > 0 { self.log[self.log.len() - 1].term } else { 0 };
            let our_last_index = self.log.len() as u64;
            let log_ok = (last_log_term > our_last_term) || (last_log_term == our_last_term && last_log_index >= our_last_index);
            if log_ok {
                self.voted_for = Some(candidate_id);
                return Some(RaftMessage::VoteResponse { term: term_value, vote_granted: true });
            }
        }
        Some(RaftMessage::VoteResponse { term: term_value, vote_granted: false })
    }

    /// Handle a vote response, as `vote_response_step` states.
    pub fn handle_vote_response(&mut self, sender: NodeId, term: Term, vote_granted: bool)
        requires
            old(self).wf(),
        ensures
            final(self).wf(),
            final(self).config_spec() == old(self).config_spec(),
            final(self)@ == vote_response_step(old(self)@, term),
    {
        if self.state != RaftState::Candidate {
            return;
        }
        if term > self.current_term {
            self.current_term = term;
            self.state = RaftState::Follower;
        }
    }

    /// Handle entries from a leader at `now`, as `append_entries_step`
    /// states; the answer carries the node's term, whether they were taken
    /// and, if so, the log's new length.
    pub fn handle_append_entries_at(
        &mut self,
        term: Term,
        leader_id: NodeId,
        prev_log_index: LogIndex,
        prev_log_term: Term,
        entries: Vec<LogEntry>,
        leader_commit: LogIndex,
        now: u64,
    ) -> (r: Option<RaftMessage>)
        requires
            old(self).wf(),
            old(self)@.log.len() + entries@.len() < u64::MAX,
        ensures
            final(self).wf(),
            final(self).config_spec() == old(self).config_spec(),
            final(self)@ == append_entries_step(old(self)@, term, leader_id, entry_views(entries@), leader_commit, now).0,
            r == Some(RaftMessage::AppendEntriesResponse {
                term: final(self)@.term,
                success: append_entries_step(old(self)@, term, leader_id, entry_views(entries@), leader_commit, now).1,
                match_index: if append_entries_step(old(self)@, term, leader_id, entry_views(entries@), leader_commit, now).1 {
                    final(self)@.log.len() as u64
                } else {
                    0
                },
            }),
    {
        if term > self.current_term {
            self.current_term = term;
            self.voted_for = None;
            self.state = RaftState::Follower;
        }
        let term_value = self.current_term;
        if term < term_value {
            return Some(RaftMessage::AppendEntriesResponse { term: term_value, success: false, match_index: 0 });
        }
        self.current_leader = Some(leader_id);
        self.last_heartbeat = now;
        extend_log(&mut self.log, &entries);
        if leader_commit > self.commit_index {
            let log_len = self.log.len() as u64;
            self.commit_index = if leader_commit < log_len { leader_commit } else { log_len };
        }
        let match_index = self.log.len() as u64;
        Some(RaftMessage::AppendEntriesResponse { term: term_value, success: true, match_index })
    }

    /// Handle entries from a leader, received now.
    pub fn handle_append_entries(
        &mut self,
        term: Term,
        leader_id: NodeId,
        prev_log_index: LogIndex,
        prev_log_term: Term,
        entries: Vec<LogEntry>,
        leader_commit: LogIndex,
    ) -> (r: Option<RaftMessage>)
        requires
            old(self).wf(),
            old(self)@.log.len() + entries@.len() < u64::MAX,
        ensures
            final(self).wf(),
            final(self).config_spec() == old(self).config_spec(),
            final(self)@ == append_entries_step(old(self)@, term, leader_id, entry_views(entries@), leader_commit,
                final(self)@.last_heartbeat).0
                || final(self)@ == append_entries_step(old(self)@, term, leader_id, entry_views(entries@), leader_commit,
                old(self)@.last_heartbeat).0,
    {
        let now = current_millis();
        self.handle_append_entries_at(term, leader_id, prev_log_index, prev_log_term, entries, leader_commit, now)
    }

    /// Move the commit index to the highest log index on a majority, as
    /// `advance_commit` states.
    fn advance_commit_index(&mut self)
        requires
            old(self).wf(),
        ensures
            final(self).wf(),
            final(self).config_spec() == old(self).config_spec(),
            final(self)@ == advance_commit(old(self)@),
    {
        match self.committable_index() {
            Some(n) => {
                self.commit_index = n;
            },
            None => {},
        }
    }

    /// The highest log index past the commit index that is on a majority.
    fn committable_index(&self) -> (r: Option<LogIndex>)
        requires
            self.wf(),
        ensures
            r == highest_committable(self@, self@.log.len() as int),
            r matches Some(n) ==> n <= self@.log.len(),
    {
        let quorum = (self.cluster_nodes.len() / 2) + 1;
        let log_len = self.log.len() as u64;
        let mut n = log_len;
        while n > self.commit_index
            invariant
                self.wf(),
                quorum == majority_of(self@.nodes),
                self.commit_index <= n <= log_len,
                log_len == self@.log.len(),
                highest_committable(self@, self@.log.len() as int) == highest_committable(self@, n as int),
            decreases n,
        {
            let count = count_at_least(&self.match_index, n);
            if count >= quorum - 1 {
                return Some(n);
            }
            n = n - 1;
        }
        None
    }

    /// Handle a follower's answer to entries, as `append_response_step`
    /// states.
    pub fn handle_append_entries_response(&mut self, sender: NodeId, term: Term, success: bool, match_index: LogIndex)
        requires
            old(self).wf(),
            match_index < u64::MAX,
        ensures
            final(self).wf(),
            final(self).config_spec() == old(self).config_spec(),
            final(self)@ == append_response_step(old(self)@, sender, term, success, match_index),
    {
        if !self.is_leader() {
            return;
        }
        if term > self.current_term {
            self.current_term = term;
            self.state = RaftState::Follower;
            return;
        }
        if success {
            self.match_index.insert(sender, match_index);
            self.next_index.insert(sender, match_index + 1);
            self.advance_commit_index();
        }
    }

    /// Handle a message from `sender`, dispatching on its kind; vote
    /// requests and entries are answered.
    pub fn handle_message(&mut self, sender: NodeId, message: RaftMessage) -> (r: Option<RaftMessage>)
        requires
            old(self).wf(),
            message matches RaftMessage::AppendEntries { entries, .. } ==> old(self)@.log.len() + entries@.len() < u64::MAX,
            message matches RaftMessage::AppendEntriesResponse { match_index, .. } ==> match_index < u64::MAX,
        ensures
            final(self).wf(),
            final(self).config_spec() == old(self).config_spec(),
            message matches RaftMessage::RequestVote { term, candidate_id, last_log_index, last_log_term } ==>
                final(self)@ == request_vote_step(old(self)@, term, candidate_id, last_log_index, last_log_term).0
                && r == Some(RaftMessage::VoteResponse {
                    term: final(self)@.term,
                    vote_granted: request_vote_step(old(self)@, term, candidate_id, last_log_index, last_log_term).1,
                }),
            message matches RaftMessage::VoteResponse { term, .. } ==> final(self)@ == vote_response_step(old(self)@, term) && r is None,
            message matches RaftMessage::AppendEntries { term, leader_id, entries, leader_commit, .. } ==> (
                final(self)@ == append_entries_step(old(self)@, term, leader_id, entry_views(entries@), leader_commit,
                    final(self)@.last_heartbeat).0
                || final(self)@ == append_entries_step(old(self)@, term, leader_id, entry_views(entries@), leader_commit,
                    old(self)@.last_heartbeat).0),
            message matches RaftMessage::AppendEntriesResponse { term, success, match_index } ==>
                final(self)@ == append_response_step(old(self)@, sender, term, success, match_index) && r is None,
    {
        match message {
            RaftMessage::RequestVote { term, candidate_id, last_log_index, last_log_term } => {
                self.handle_request_vote(term, candidate_id, last_log_index, last_log_term)
            },
            RaftMessage::VoteResponse { term, vote_granted } => {
                self.handle_vote_response(sender, term, vote_granted);
                None
            },
            RaftMessage::AppendEntries { term, leader_id, prev_log_index, prev_log_term, entries, leader_commit } => {
                self.handle_append_entries(term, leader_id, prev_log_index, prev_log_term, entries, leader_commit)
            },
            RaftMessage::AppendEntriesResponse { term, success, match_index } => {
                self.handle_append_entries_response(sender, term, success, match_index);
                None
            },
        }
    }

    /// The heartbeat a leader sends to each follower: empty entries of its
    /// term, with its commit index.
    pub fn heartbeat_message(&self) -> (r: RaftMessage)
        ensures
            r matches RaftMessage::AppendEntries { term, leader_id, prev_log_index, prev_log_term, entries, leader_commit }
                && term == self@.term && leader_id == self@.node_id && prev_log_index == 0 && prev_log_term == 0
                && entries@.len() == 0 && leader_commit == self@.commit_index,
    {
        RaftMessage::AppendEntries {
            term: self.current_term,
            leader_id: self.node_id,
            prev_log_index: 0,
            prev_log_term: 0,
            entries: Vec::new(),
            leader_commit: self.commit_index,
        }
    }

    /// Statistics.
    pub fn get_statistics(&self) -> (r: RaftStats)
        ensures
            r.node_id == self@.node_id,
            r.state == self@.state,
            r.current_term == self@.term,
            r.current_leader == self@.leader,
            r.log_length == self@.log.len(),
            r.commit_index == self@.commit_index,
            r.last_applied == self@.last_applied,
    {
        RaftStats {
            node_id: self.node_id,
            state: self.state,
            current_term: self.current_term,
            current_leader: self.current_leader,
            log_length: self.log.len(),
            commit_index: self.commit_index,
            last_applied: self.last_applied,
        }
    }
}

/// Raft statistics.
#[derive(Debug, Clone, Copy)]
pub struct RaftStats {
    pub node_id: NodeId,
    pub state: RaftState,
    pub current_term: Term,
    pub current_leader: Option<NodeId>,
    pub log_length: usize,
    pub commit_index: LogIndex,
    pub last_applied: LogIndex,
}


proof fn lemma_highest_committable_range(v: RaftView, n: int)
    requires
        n <= u64::MAX,
    ensures
        highest_committable(v, n) matches Some(k) ==> v.commit_index < k <= n && committable(v, k),
    decreases n,
{
    if !(n <= v.commit_index || n <= 0) && !committable(v, n as LogIndex) {
        lemma_highest_committable_range(v, n - 1);
    }
}

/// Terms never go back: no handler lowers a node's term, and an election
/// raises it by one.
pub proof fn law_terms_never_decrease(
    v: RaftView,
    term: Term,
    node: NodeId,
    last_log_index: LogIndex,
    last_log_term: Term,
    entries: Seq<LogEntryView>,
    leader_commit: LogIndex,
    now: u64,
    success: bool,
    match_index: LogIndex,
)
    requires
        v.term < u64::MAX,
    ensures
        request_vote_step(v, term, node, last_log_index, last_log_term).0.term >= v.term,
        vote_response_step(v, term).term >= v.term,
        append_entries_step(v, term, node, entries, leader_commit, now).0.term >= v.term,
        append_response_step(v, node, term, success, match_index).term >= v.term,
        start_election_step(v).term == v.term + 1,
{
}

/// One vote per term: a node that voted in a term keeps that vote while the
/// term lasts, grants no other candidate, and records the vote it grants.
pub proof fn law_one_vote_per_term(v: RaftView, term: Term, candidate: NodeId, last_log_index: LogIndex, last_log_term: Term)
    ensures
        ({
            let (w, granted) = request_vote_step(v, term, candidate, last_log_index, last_log_term);
            &&& (v.voted_for is Some && w.term == v.term) ==> w.voted_for == v.voted_for && (granted ==> v.voted_for == Some(candidate))
            &&& granted ==> w.voted_for == Some(candidate) && w.term == term
        }),
{
}

/// Votes go only to candidates whose log is at least as up to date as the
/// voter's.
pub proof fn law_vote_needs_up_to_date_log(v: RaftView, term: Term, candidate: NodeId, last_log_index: LogIndex, last_log_term: Term)
    ensures
        request_vote_step(v, term, candidate, last_log_index, last_log_term).1 ==> log_up_to_date(v.log, last_log_index, last_log_term),
{
}

/// Commitment only moves forward, stays within the log, and reaches an
/// index only once that index is on a majority of the cluster.
pub proof fn law_commit_safety(
    v: RaftView,
    term: Term,
    node: NodeId,
    entries: Seq<LogEntryView>,
    leader_commit: LogIndex,
    now: u64,
    success: bool,
    match_index: LogIndex,
)
    requires
        v.commit_index <= v.log.len(),
        v.log.len() + entries.len() < u64::MAX,
    ensures
        advance_commit(v).commit_index >= v.commit_index,
        advance_commit(v).commit_index <= v.log.len(),
        advance_commit(v).commit_index != v.commit_index ==> committable(v, advance_commit(v).commit_index),
        ({
            let w = append_entries_step(v, term, node, entries, leader_commit, now).0;
            w.commit_index >= v.commit_index && w.commit_index <= w.log.len()
        }),
        ({
            let w = append_response_step(v, node, term, success, match_index);
            w.commit_index >= v.commit_index && w.commit_index <= w.log.len()
        }),
{
    lemma_highest_committable_range(v, v.log.len() as int);
    let u = RaftView {
        match_index: v.match_index.insert(node, match_index),
        next_index: v.next_index.insert(node, (match_index + 1) as u64),
        ..v
    };
    lemma_highest_committable_range(u, u.log.len() as int);
}

/// A leader's new entry carries its term and the next index.
pub proof fn law_leader_appends_at_next_index(v: RaftView, command: Seq<u8>)
    requires
        v.log.len() < u64::MAX,
    ensures
        append_entry_step(v, command).log.len() == v.log.len() + 1,
        append_entry_step(v, command).log.last().index == v.log.len() + 1,
        append_entry_step(v, command).log.last().term == v.term,
        append_entry_step(v, command).log.drop_last() == v.log,
{
    assert(append_entry_step(v, command).log.drop_last() =~= v.log);
}

/// A random number (`rand::random::<u64>()`); nothing is claimed of it.
#[verifier::external_body]
fn random_u64() -> (r: u64) {
    rand::random::<u64>()
}

} // verus!
