//! The state of one node of the consensus engine, what each event does to
//! it, and the node's part in elections.

use crate::cluster::error::ClusterError;
use crate::cluster::log::{
    batch_well_formed, divergence, gap_free, last_term, log_view, merged, quorum, term_at, terms_bounded,
    terms_sorted, up_to_date, EntryView, LogEntry,
};
use std::collections::HashMap;
use vstd::prelude::*;
use vstd::string::*;

verus! {

broadcast use vstd::std_specs::hash::group_hash_axioms;

/// The role a node plays in the current term.
#[derive(Debug, Clone, Copy, PartialEq, Eq, Structural)]
pub enum RaftState {
    Follower,
    Candidate,
    Leader,
}

/// The per-node state of the consensus engine.
///
/// `peers` are the other voting members; `votes_received` are the nodes
/// (this one included) that granted their vote in the current term.
pub struct RaftNode {
    pub node_id: u128,
    pub state: RaftState,
    pub current_term: u64,
    pub voted_for: Option<u128>,
    pub log: Vec<LogEntry>,
    pub commit_index: u64,
    pub last_applied: u64,
    pub next_index: HashMap<u128, u64>,
    pub match_index: HashMap<u128, u64>,
    pub peers: Vec<u128>,
    pub votes_received: Vec<u128>,
    pub leader_id: Option<u128>,
}

/// The mathematical value of a [`RaftNode`].
pub struct RaftView {
    pub node_id: u128,
    pub state: RaftState,
    pub current_term: u64,
    pub voted_for: Option<u128>,
    pub log: Seq<EntryView>,
    pub commit_index: u64,
    pub last_applied: u64,
    pub next_index: Map<u128, u64>,
    pub match_index: Map<u128, u64>,
    pub peers: Seq<u128>,
    pub votes: Seq<u128>,
    pub leader_id: Option<u128>,
}

impl View for RaftNode {
    type V = RaftView;

    open spec fn view(&self) -> RaftView {
        RaftView {
            node_id: self.node_id,
            state: self.state,
            current_term: self.current_term,
            voted_for: self.voted_for,
            log: log_view(self.log@),
            commit_index: self.commit_index,
            last_applied: self.last_applied,
            next_index: self.next_index@,
            match_index: self.match_index@,
            peers: self.peers@,
            votes: self.votes_received@,
            leader_id: self.leader_id,
        }
    }
}

/// The answer to a vote request.
#[derive(Debug, Clone, Copy, PartialEq, Eq, Structural)]
pub struct VoteReply {
    pub term: u64,
    pub granted: bool,
}

/// The answer to an append request. `match_index` is the last position the
/// follower is known to share with the leader; it is 0 on a refusal.
#[derive(Debug, Clone, Copy, PartialEq, Eq, Structural)]
pub struct AppendReply {
    pub term: u64,
    pub success: bool,
    pub match_index: u64,
}

/// What a candidate asks of every peer.
#[derive(Debug, Clone, Copy, PartialEq, Eq, Structural)]
pub struct VoteRequest {
    pub term: u64,
    pub candidate_id: u128,
    pub last_log_index: u64,
    pub last_log_term: u64,
}

/// What a leader sends to a follower: the entries that follow position
/// `prev_log_index`, whose entry the leader holds with term `prev_log_term`.
/// Without entries it is a heartbeat.
#[derive(Debug)]
pub struct AppendRequest {
    pub term: u64,
    pub leader_id: u128,
    pub prev_log_index: u64,
    pub prev_log_term: u64,
    pub entries: Vec<LogEntry>,
    pub leader_commit: u64,
}

/// The mathematical value of an [`AppendRequest`].
pub struct AppendRequestView {
    pub term: u64,
    pub leader_id: u128,
    pub prev_log_index: u64,
    pub prev_log_term: u64,
    pub entries: Seq<EntryView>,
    pub leader_commit: u64,
}

impl View for AppendRequest {
    type V = AppendRequestView;

    open spec fn view(&self) -> AppendRequestView {
        AppendRequestView {
            term: self.term,
            leader_id: self.leader_id,
            prev_log_index: self.prev_log_index,
            prev_log_term: self.prev_log_term,
            entries: log_view(self.entries@),
            leader_commit: self.leader_commit,
        }
    }
}

/// What a node shows of itself to the outside.
#[derive(Debug, Clone, Copy, PartialEq, Eq, Structural)]
pub struct RaftStatus {
    pub role: RaftState,
    pub term: u64,
    pub commit_index: u64,
    pub leader_id: Option<u128>,
}

/// Whether `peer` is known to hold the entry at `index`.
pub open spec fn holds(match_index: Map<u128, u64>, peer: u128, index: u64) -> bool {
    match_index.contains_key(peer) && match_index[peer] >= index
}

/// How many of `peers` are known to hold the entry at `index`.
pub open spec fn holders(peers: Seq<u128>, match_index: Map<u128, u64>, index: u64) -> nat
    decreases peers.len(),
{
    if peers.len() == 0 {
        0
    } else {
        holders(peers.drop_last(), match_index, index) + if holds(match_index, peers.last(), index) {
            1nat
        } else {
            0nat
        }
    }
}

impl RaftView {
    /// The number of voting members, this node included.
    pub open spec fn cluster_size(self) -> nat {
        self.peers.len() + 1
    }

    /// Whether the votes gathered so far are a strict majority.
    pub open spec fn has_quorum(self) -> bool {
        self.votes.len() >= quorum(self.cluster_size())
    }

    /// The validity of a node's state.
    pub open spec fn wf(self) -> bool {
        &&& gap_free(self.log)
        &&& self.log.len() < u64::MAX
        &&& self.last_applied <= self.commit_index <= self.log.len()
        &&& self.peers.no_duplicates()
        &&& !self.peers.contains(self.node_id)
        &&& self.votes.no_duplicates()
        &&& forall|i: int|
            0 <= i < self.votes.len() ==> (#[trigger] self.votes[i]) == self.node_id || self.peers.contains(
                self.votes[i],
            )
        &&& self.state != RaftState::Follower ==> self.voted_for == Some(self.node_id) && self.votes.contains(
            self.node_id,
        )
        &&& self.state == RaftState::Leader ==> {
            &&& self.leader_id == Some(self.node_id)
            &&& forall|p: u128| #[trigger]
                self.peers.contains(p) ==> {
                    &&& self.next_index.contains_key(p)
                    &&& self.match_index.contains_key(p)
                    &&& 1 <= self.next_index[p] <= self.log.len() + 1
                    &&& self.match_index[p] <= self.log.len()
                }
        }
    }

    /// Whether the node is valid and the terms in its log are in order: they
    /// never decrease, and none is later than the node's own term. A node is
    /// so at its start, and every step of the protocol keeps it so; only an
    /// entry that is put into the log from outside the protocol can end it.
    pub open spec fn in_order(self) -> bool {
        &&& self.wf()
        &&& terms_sorted(self.log)
        &&& terms_bounded(self.log, self.current_term)
    }

    /// A node that has just started: a follower in term 0 with an empty log
    /// and no peers.
    pub open spec fn initial(node_id: u128) -> RaftView {
        RaftView {
            node_id,
            state: RaftState::Follower,
            current_term: 0,
            voted_for: None,
            log: Seq::empty(),
            commit_index: 0,
            last_applied: 0,
            next_index: Map::empty(),
            match_index: Map::empty(),
            peers: Seq::empty(),
            votes: Seq::empty(),
            leader_id: None,
        }
    }

    /// Starting an election: a new term, a vote for oneself.
    pub open spec fn become_candidate(self) -> RaftView {
        RaftView {
            state: RaftState::Candidate,
            current_term: (self.current_term + 1) as u64,
            voted_for: Some(self.node_id),
            votes: seq![self.node_id],
            leader_id: None,
            ..self
        }
    }

    /// Whether the node may take the leadership of its term.
    pub open spec fn may_lead(self) -> bool {
        self.state == RaftState::Candidate && self.has_quorum()
    }

    /// Taking the leadership: every peer is assumed to need the entry after
    /// the leader's last one, and to be known to hold none.
    pub open spec fn become_leader(self) -> RaftView {
        RaftView {
            state: RaftState::Leader,
            leader_id: Some(self.node_id),
            next_index: Map::new(|p: u128| self.peers.contains(p), |p: u128| (self.log.len() + 1) as u64),
            match_index: Map::new(|p: u128| self.peers.contains(p), |p: u128| 0u64),
            ..self
        }
    }

    /// Observing `term`: a later term than the node's own makes it a
    /// follower of that term that has not voted yet.
    pub open spec fn step_down(self, term: u64) -> RaftView {
        if term > self.current_term {
            RaftView {
                state: RaftState::Follower,
                current_term: term,
                voted_for: None,
                votes: Seq::empty(),
                leader_id: None,
                ..self
            }
        } else {
            self
        }
    }

    /// Whether `entry` may be appended: it continues the numbering, and the
    /// log can still grow.
    pub open spec fn accepts(self, entry: EntryView) -> bool {
        &&& self.log.len() + 1 < u64::MAX
        &&& entry.index == self.log.len() + 1
    }

    /// Whether `entry` keeps the terms of the log in order: its term is
    /// between the last entry's and the node's own.
    pub open spec fn continues_terms(self, entry: EntryView) -> bool {
        last_term(self.log) <= entry.term <= self.current_term
    }

    /// The log grown by one entry.
    pub open spec fn append_entry(self, entry: EntryView) -> RaftView {
        RaftView { log: self.log.push(entry), ..self }
    }

    /// The node after it learned from its leader that everything up to
    /// `index` is committed: the commit index never moves back and never
    /// passes the end of the log.
    pub open spec fn learn_commit(self, index: u64) -> RaftView {
        let reach = if index <= self.log.len() {
            index
        } else {
            self.log.len() as u64
        };
        RaftView {
            commit_index: if reach > self.commit_index {
                reach
            } else {
                self.commit_index
            },
            ..self
        }
    }

    /// A vote is granted to a candidate of the node's (possibly just
    /// adopted) term, if the node has not voted for another in that term and
    /// the candidate's log is at least as up to date as its own.
    pub open spec fn grants_vote(self, request: VoteRequest) -> bool {
        let v = self.step_down(request.term);
        &&& request.term == v.current_term
        &&& (v.voted_for is None || v.voted_for == Some(request.candidate_id))
        &&& up_to_date(request.last_log_term, request.last_log_index, self.log)
    }

    /// The node after a vote request, and its answer.
    pub open spec fn handle_request_vote(self, request: VoteRequest) -> (RaftView, VoteReply) {
        let v = self.step_down(request.term);
        if self.grants_vote(request) {
            (
                RaftView { voted_for: Some(request.candidate_id), ..v },
                VoteReply { term: v.current_term, granted: true },
            )
        } else {
            (v, VoteReply { term: v.current_term, granted: false })
        }
    }

    /// Whether an answer from `from` adds a vote: it is a grant for the
    /// candidate's own term, from a peer that has not been counted yet.
    pub open spec fn counts_vote(self, from: u128, reply: VoteReply) -> bool {
        &&& self.state == RaftState::Candidate
        &&& reply.term == self.current_term
        &&& reply.granted
        &&& self.peers.contains(from)
        &&& !self.votes.contains(from)
    }

    /// The node after the answer of `from` to its vote request.
    pub open spec fn handle_vote_reply(self, from: u128, reply: VoteReply) -> RaftView {
        if reply.term > self.current_term {
            self.step_down(reply.term)
        } else if self.counts_vote(from, reply) {
            let v = RaftView { votes: self.votes.push(from), ..self };
            if v.has_quorum() {
                v.become_leader()
            } else {
                v
            }
        } else {
            self
        }
    }

    /// The vote request a candidate sends to every peer.
    pub open spec fn vote_request(self) -> VoteRequest {
        VoteRequest {
            term: self.current_term,
            candidate_id: self.node_id,
            last_log_index: self.log.len() as u64,
            last_log_term: last_term(self.log),
        }
    }

    /// The node with `peer` among its voting members. A leader starts to
    /// track the new peer as it does after an election.
    pub open spec fn add_peer(self, peer: u128) -> RaftView {
        RaftView {
            peers: self.peers.push(peer),
            next_index: self.next_index.insert(peer, (self.log.len() + 1) as u64),
            match_index: self.match_index.insert(peer, 0),
            ..self
        }
    }

    /// The node without `peer` among its voting members, and without its
    /// vote.
    pub open spec fn remove_peer(self, peer: u128) -> RaftView {
        RaftView {
            peers: self.peers.remove(self.peers.index_of(peer)),
            votes: if self.votes.contains(peer) {
                self.votes.remove(self.votes.index_of(peer))
            } else {
                self.votes
            },
            ..self
        }
    }

    /// Whether a message of `term` comes from a leader this node accepts:
    /// the term is not behind its own, and it does not lead that term itself.
    pub open spec fn hears_leader(self, term: u64) -> bool {
        term >= self.current_term && !(term == self.current_term && self.state == RaftState::Leader)
    }

    /// The node as a follower of `leader_id` in `term`.
    pub open spec fn follow(self, term: u64, leader_id: u128) -> RaftView {
        RaftView {
            state: RaftState::Follower,
            votes: Seq::empty(),
            leader_id: Some(leader_id),
            ..self.step_down(term)
        }
    }

    /// Whether the node takes the entries of `request` into its log: the
    /// sender is an accepted leader, the batch is well formed, the log holds
    /// the entry the batch follows, and nothing committed would be cut off.
    pub open spec fn takes_entries(self, request: AppendRequestView) -> bool {
        let a = divergence(self.log, request.prev_log_index as int, request.entries, 0);
        &&& self.hears_leader(request.term)
        &&& batch_well_formed(request.prev_log_index, request.prev_log_term, request.term, request.entries)
        &&& request.prev_log_index <= self.log.len()
        &&& term_at(self.log, request.prev_log_index as int) == request.prev_log_term
        &&& (a < request.entries.len() ==> request.prev_log_index + a >= self.commit_index)
    }

    /// The node after an append request, and its answer.
    pub open spec fn handle_append_entries(self, request: AppendRequestView) -> (RaftView, AppendReply) {
        if !self.hears_leader(request.term) {
            (self, AppendReply { term: self.current_term, success: false, match_index: 0 })
        } else {
            let v = self.follow(request.term, request.leader_id);
            if self.takes_entries(request) {
                let last_new = (request.prev_log_index + request.entries.len()) as u64;
                let w = RaftView { log: merged(self.log, request.prev_log_index as int, request.entries), ..v };
                (
                    w.learn_commit(
                        if request.leader_commit < last_new {
                            request.leader_commit
                        } else {
                            last_new
                        },
                    ),
                    AppendReply { term: request.term, success: true, match_index: last_new },
                )
            } else {
                (v, AppendReply { term: request.term, success: false, match_index: 0 })
            }
        }
    }

    /// How many nodes, this one included, are known to hold `index`.
    pub open spec fn replicas(self, index: u64) -> nat {
        1 + holders(self.peers, self.match_index, index)
    }

    /// Whether the leader may move its commit index to `index`: the entry
    /// there was created in the leader's own term and a strict majority
    /// holds it.
    pub open spec fn committable(self, index: u64) -> bool {
        &&& self.state == RaftState::Leader
        &&& self.commit_index < index <= self.log.len()
        &&& term_at(self.log, index as int) == self.current_term
        &&& self.replicas(index) >= quorum(self.cluster_size())
    }

    /// The node after it was asked to mark everything up to `index` as
    /// committed. A leader does so only where `index` is committable, and
    /// stays as it is otherwise; a node that does not lead takes it as
    /// learned from its leader.
    pub open spec fn commit(self, index: u64) -> RaftView {
        if self.state == RaftState::Leader {
            if self.committable(index) {
                RaftView { commit_index: index, ..self }
            } else {
                self
            }
        } else {
            self.learn_commit(index)
        }
    }

    /// The highest committable position that is at most `upto`, or the
    /// commit index itself if there is none.
    pub open spec fn highest_committable(self, upto: u64) -> u64
        decreases upto,
    {
        if upto <= self.commit_index {
            self.commit_index
        } else if self.committable(upto) {
            upto
        } else {
            self.highest_committable((upto - 1) as u64)
        }
    }

    /// A leader moves its commit index to the highest committable position;
    /// other nodes keep theirs.
    pub open spec fn advance_commit(self) -> RaftView {
        if self.state == RaftState::Leader {
            RaftView { commit_index: self.highest_committable(self.log.len() as u64), ..self }
        } else {
            self
        }
    }

    /// Whether this node leads and `peer` is one of its followers.
    pub open spec fn leads(self, peer: u128) -> bool {
        self.state == RaftState::Leader && self.peers.contains(peer)
    }

    /// What a leader sends to `peer`: at most `max_entries` of the entries
    /// from the peer's next index on.
    pub open spec fn append_request_for(self, peer: u128, max_entries: nat) -> AppendRequestView {
        let prev = (self.next_index[peer] - 1) as u64;
        let end = if prev + max_entries < self.log.len() {
            prev + max_entries
        } else {
            self.log.len() as int
        };
        AppendRequestView {
            term: self.current_term,
            leader_id: self.node_id,
            prev_log_index: prev,
            prev_log_term: term_at(self.log, prev as int),
            entries: self.log.subrange(prev as int, end),
            leader_commit: self.commit_index,
        }
    }

    /// The leader after the answer of `from` to an append request. A
    /// success raises what is known of the follower's log and may move the
    /// commit index; a refusal steps the follower's next index back by one,
    /// never below what it is known to hold.
    pub open spec fn handle_append_reply(self, from: u128, reply: AppendReply) -> RaftView {
        if reply.term > self.current_term {
            self.step_down(reply.term)
        } else if self.leads(from) && reply.term == self.current_term {
            let known = self.match_index[from];
            if reply.success {
                let reported = if reply.match_index <= self.log.len() {
                    reply.match_index
                } else {
                    self.log.len() as u64
                };
                let m = if reported > known {
                    reported
                } else {
                    known
                };
                RaftView {
                    match_index: self.match_index.insert(from, m),
                    next_index: self.next_index.insert(from, (m + 1) as u64),
                    ..self
                }.advance_commit()
            } else {
                let n = self.next_index[from];
                RaftView {
                    next_index: self.next_index.insert(
                        from,
                        if n - 1 > known {
                            (n - 1) as u64
                        } else {
                            (known + 1) as u64
                        },
                    ),
                    ..self
                }
            }
        } else {
            self
        }
    }

    /// Whether the node takes a client's command: it leads, and the log can
    /// still grow.
    pub open spec fn can_propose(self) -> bool {
        self.state == RaftState::Leader && self.log.len() + 1 < u64::MAX
    }

    /// The leader after taking a client's command: the command sits at the
    /// end of the log, in the leader's term.
    pub open spec fn propose(self, command: Seq<u8>) -> RaftView {
        self.append_entry(
            EntryView { term: self.current_term, index: (self.log.len() + 1) as u64, command },
        ).advance_commit()
    }

    /// What the node shows of itself.
    pub open spec fn status(self) -> RaftStatus {
        RaftStatus {
            role: self.state,
            term: self.current_term,
            commit_index: self.commit_index,
            leader_id: self.leader_id,
        }
    }
}

/// The strict majority of a cluster made of this node and `peers` others.
pub fn quorum_of(peers: usize) -> (q: usize)
    ensures
        q == quorum((peers + 1) as nat),
{
    peers / 2 + peers % 2 + 1
}

/// Whether `id` occurs in `ids`.
pub fn contains_id(ids: &Vec<u128>, id: u128) -> (found: bool)
    ensures
        found == ids@.contains(id),
{
    let mut i: usize = 0;
    while i < ids.len()
        invariant
            i <= ids.len(),
            forall|k: int| 0 <= k < i ==> ids@[k] != id,
        decreases ids.len() - i,
    {
        if ids[i] == id {
            return true;
        }
        i = i + 1;
    }
    false
}

/// The position of `id` in `ids`, which holds it exactly once.
pub fn position_of(ids: &Vec<u128>, id: u128) -> (at: usize)
    requires
        ids@.contains(id),
        ids@.no_duplicates(),
    ensures
        at < ids.len(),
        at == ids@.index_of(id),
        ids@[at as int] == id,
{
    let mut i: usize = 0;
    while i < ids.len()
        invariant
            i <= ids.len(),
            ids@.contains(id),
            ids@.no_duplicates(),
            forall|k: int| 0 <= k < i ==> ids@[k] != id,
        decreases ids.len() - i,
    {
        if ids[i] == id {
            proof {
                let k = ids@.index_of(id);
                assert(0 <= k < ids@.len() && ids@[k] == id);
                assert(k == i);
            }
            return i;
        }
        i = i + 1;
    }
    proof {
        let k = choose|k: int| 0 <= k < ids@.len() && ids@[k] == id;
        assert(false);
    }
    0
}

/// Removing one element keeps the others, in order and without repeats.
pub proof fn lemma_remove_keeps_others(ids: Seq<u128>, at: int)
    requires
        0 <= at < ids.len(),
        ids.no_duplicates(),
    ensures
        ids.remove(at).no_duplicates(),
        !ids.remove(at).contains(ids[at]),
        forall|q: u128| q != ids[at] ==> (ids.remove(at).contains(q) <==> ids.contains(q)),
{
    let r = ids.remove(at);
    assert forall|q: u128| q != ids[at] implies (r.contains(q) <==> ids.contains(q)) by {
        if r.contains(q) {
            let k = choose|k: int| 0 <= k < r.len() && r[k] == q;
            if k < at {
                assert(ids[k] == q);
            } else {
                assert(ids[k + 1] == q);
            }
        }
        if ids.contains(q) {
            let k = choose|k: int| 0 <= k < ids.len() && ids[k] == q;
            if k < at {
                assert(r[k] == q);
            } else {
                assert(r[k - 1] == q);
            }
        }
    }
    if r.contains(ids[at]) {
        let k = choose|k: int| 0 <= k < r.len() && r[k] == ids[at];
        if k < at {
            assert(ids[k] == ids[at]);
        } else {
            assert(ids[k + 1] == ids[at]);
        }
    }
}

impl RaftNode {
    /// A follower in term 0 with an empty log and no peers.
    pub fn new(node_id: u128) -> (node: RaftNode)
        ensures
            node@ == RaftView::initial(node_id),
            node@.in_order(),
    {
        let node = RaftNode {
            node_id,
            state: RaftState::Follower,
            current_term: 0,
            voted_for: None,
            log: Vec::new(),
            commit_index: 0,
            last_applied: 0,
            next_index: HashMap::new(),
            match_index: HashMap::new(),
            peers: Vec::new(),
            votes_received: Vec::new(),
            leader_id: None,
        };
        assert(node@.log =~= Seq::empty());
        node
    }

    /// Starts an election for the next term. Fails, changing nothing, only
    /// when the term counter cannot grow any more.
    pub fn become_candidate(&mut self) -> (outcome: Result<(), ClusterError>)
        requires
            old(self)@.wf(),
        ensures
            final(self)@.wf(),
            old(self)@.in_order() ==> final(self)@.in_order(),
            outcome is Ok <==> old(self).current_term < u64::MAX,
            outcome is Ok ==> final(self)@ == old(self)@.become_candidate(),
            outcome matches Err(e) ==> final(self)@ == old(self)@ && e is Consensus,
    {
        if self.current_term == u64::MAX {
            return Err(ClusterError::Consensus(String::from_str("term counter exhausted")));
        }
        self.current_term = self.current_term + 1;
        self.state = RaftState::Candidate;
        self.voted_for = Some(self.node_id);
        let mut votes: Vec<u128> = Vec::new();
        votes.push(self.node_id);
        self.votes_received = votes;
        self.leader_id = None;
        proof {
            assert(self@.votes =~= seq![self.node_id]);
            assert(self@.votes[0] == self.node_id);
        }
        Ok(())
    }

    /// Takes the leadership of the current term. Succeeds exactly for a
    /// candidate that holds the votes of a strict majority; otherwise the
    /// node is left as it was.
    pub fn become_leader(&mut self) -> (outcome: Result<(), ClusterError>)
        requires
            old(self)@.wf(),
        ensures
            final(self)@.wf(),
            old(self)@.in_order() ==> final(self)@.in_order(),
            outcome is Ok <==> old(self)@.may_lead(),
            outcome is Ok ==> final(self)@ == old(self)@.become_leader(),
            outcome matches Err(e) ==> final(self)@ == old(self)@ && e is Consensus,
    {
        if self.state != RaftState::Candidate {
            return Err(ClusterError::Consensus(String::from_str("only a candidate can become leader")));
        }
        if self.votes_received.len() < quorum_of(self.peers.len()) {
            return Err(ClusterError::Consensus(String::from_str("no majority of votes")));
        }
        self.install_leadership();
        Ok(())
    }

    /// Makes the node the leader of its term and resets what it knows of
    /// each peer's log.
    fn install_leadership(&mut self)
        requires
            old(self)@.wf(),
            old(self)@.state == RaftState::Candidate,
        ensures
            final(self)@ == old(self)@.become_leader(),
            final(self)@.wf(),
            old(self)@.in_order() ==> final(self)@.in_order(),
    {
        let next: u64 = self.log.len() as u64 + 1;
        let mut next_index: HashMap<u128, u64> = HashMap::new();
        let mut match_index: HashMap<u128, u64> = HashMap::new();
        let mut i: usize = 0;
        while i < self.peers.len()
            invariant
                i <= self.peers.len(),
                next_index@ == Map::new(|p: u128| self.peers@.take(i as int).contains(p), |p: u128| next),
                match_index@ == Map::new(|p: u128| self.peers@.take(i as int).contains(p), |p: u128| 0u64),
            decreases self.peers.len() - i,
        {
            let p = self.peers[i];
            next_index.insert(p, next);
            match_index.insert(p, 0);
            proof {
                let before = self.peers@.take(i as int);
                let after = self.peers@.take(i + 1);
                assert(after =~= before.push(p));
                assert forall|q: u128| after.contains(q) <==> (before.contains(q) || q == p) by {
                    if before.contains(q) {
                        let k = choose|k: int| 0 <= k < before.len() && before[k] == q;
                        assert(after[k] == q);
                    }
                    if q == p {
                        assert(after[i as int] == p);
                    }
                }
                assert(next_index@ =~= Map::new(|q: u128| after.contains(q), |q: u128| next));
                assert(match_index@ =~= Map::new(|q: u128| after.contains(q), |q: u128| 0u64));
            }
            i = i + 1;
        }
        proof {
            assert(self.peers@.take(i as int) =~= self.peers@);
        }
        self.next_index = next_index;
        self.match_index = match_index;
        self.state = RaftState::Leader;
        self.leader_id = Some(self.node_id);
        proof {
            assert(self@.next_index =~= old(self)@.become_leader().next_index);
        }
    }

    /// Adopts `term` if it is later than the node's own, which makes the
    /// node a follower that has not voted; does nothing otherwise.
    pub fn become_follower(&mut self, term: u64)
        requires
            old(self)@.wf(),
        ensures
            final(self)@ == old(self)@.step_down(term),
            final(self)@.wf(),
            old(self)@.in_order() ==> final(self)@.in_order(),
    {
        if term > self.current_term {
            self.current_term = term;
            self.state = RaftState::Follower;
            self.voted_for = None;
            self.votes_received = Vec::new();
            self.leader_id = None;
            proof {
                assert(self@.votes =~= Seq::empty());
            }
        }
    }

    /// Appends `entry`, whatever its term, if it continues the numbering
    /// of the log: the log grows by that entry and nothing else changes. An
    /// entry that would leave a gap is refused, and so is any entry once the
    /// log cannot grow; the node then stays as it was. The terms of the log
    /// stay in order where the entry's term is between the last entry's and
    /// the node's own.
    pub fn append_entry(&mut self, entry: LogEntry) -> (outcome: Result<(), ClusterError>)
        requires
            old(self)@.wf(),
        ensures
            final(self)@.wf(),
            outcome is Ok <==> old(self)@.accepts(entry@),
            outcome is Ok ==> final(self)@ == old(self)@.append_entry(entry@),
            outcome matches Err(e) ==> final(self)@ == old(self)@ && e is Consensus,
            old(self)@.in_order() && old(self)@.continues_terms(entry@) ==> final(self)@.in_order(),
    {
        let len = self.log.len() as u64;
        if len >= u64::MAX - 1 || entry.index != len + 1 {
            return Err(ClusterError::Consensus(String::from_str("entry does not continue the log")));
        }
        let ghost before = self@;
        let ghost e = entry@;
        self.log.push(entry);
        proof {
            assert(self@.log =~= before.log.push(e));
            if before.in_order() && before.continues_terms(e) {
                lemma_push_well_formed(before.log, e, before.current_term);
            }
        }
        Ok(())
    }

    /// The term of the last entry, 0 for an empty log.
    pub fn last_log_term(&self) -> (term: u64)
        ensures
            term == last_term(self@.log),
    {
        let n = self.log.len();
        if n == 0 {
            0
        } else {
            self.log[n - 1].term
        }
    }

    /// The term of the entry at one-based position `index`, 0 for position
    /// 0 and for positions past the end.
    pub fn term_at(&self, index: u64) -> (term: u64)
        ensures
            term == term_at(self@.log, index as int),
    {
        if index == 0 || index > self.log.len() as u64 {
            0
        } else {
            self.log[(index - 1) as usize].term
        }
    }

    /// Marks everything up to `index` as committed. A leader does so only
    /// where the entry at `index` is of its own term and a strict majority
    /// is known to hold it; otherwise its commit index stays where it is. A
    /// node that does not lead takes `index` as what its leader has
    /// committed, as far as its own log reaches. The commit index never moves
    /// back.
    pub fn commit(&mut self, index: u64)
        requires
            old(self)@.wf(),
        ensures
            final(self)@ == old(self)@.commit(index),
            final(self)@.wf(),
            old(self)@.in_order() ==> final(self)@.in_order(),
            final(self)@.commit_index >= old(self)@.commit_index,
    {
        if self.state == RaftState::Leader {
            if self.is_committable(index) {
                self.commit_index = index;
            }
        } else {
            self.learn_commit(index);
        }
    }

    /// Takes in what the leader has committed: everything up to `index`,
    /// as far as the log reaches; the commit index never moves back.
    pub(crate) fn learn_commit(&mut self, index: u64)
        requires
            old(self)@.wf(),
            old(self)@.state != RaftState::Leader,
        ensures
            final(self)@ == old(self)@.learn_commit(index),
            final(self)@.wf(),
            old(self)@.in_order() ==> final(self)@.in_order(),
            final(self)@.commit_index >= old(self)@.commit_index,
    {
        let len = self.log.len() as u64;
        let reach = if index <= len {
            index
        } else {
            len
        };
        if reach > self.commit_index {
            self.commit_index = reach;
        }
    }

    /// Makes `peer` a voting member. Returns whether it was added: this
    /// node itself and known peers are not.
    pub fn add_peer(&mut self, peer: u128) -> (added: bool)
        requires
            old(self)@.wf(),
        ensures
            final(self)@.wf(),
            old(self)@.in_order() ==> final(self)@.in_order(),
            added <==> peer != old(self).node_id && !old(self)@.peers.contains(peer),
            added ==> final(self)@ == old(self)@.add_peer(peer),
            !added ==> final(self)@ == old(self)@,
    {
        if peer == self.node_id || contains_id(&self.peers, peer) {
            return false;
        }
        let ghost before = self@;
        let next: u64 = self.log.len() as u64 + 1;
        self.peers.push(peer);
        self.next_index.insert(peer, next);
        self.match_index.insert(peer, 0);
        proof {
            assert forall|p: u128| #[trigger] self@.peers.contains(p) implies (p == peer || before.peers.contains(
                p,
            )) by {
                let k = choose|k: int| 0 <= k < self@.peers.len() && self@.peers[k] == p;
                if k < before.peers.len() {
                    assert(before.peers[k] == p);
                }
            }
            assert forall|i: int| 0 <= i < self@.votes.len() implies (#[trigger] self@.votes[i]) == self.node_id
                || self@.peers.contains(self@.votes[i]) by {
                if before.peers.contains(before.votes[i]) {
                    let k = choose|k: int| 0 <= k < before.peers.len() && before.peers[k] == before.votes[i];
                    assert(self@.peers[k] == before.votes[i]);
                }
            }
        }
        true
    }

    /// Takes `peer` out of the voting members, together with its vote.
    /// Returns whether it was one.
    pub fn remove_peer(&mut self, peer: u128) -> (removed: bool)
        requires
            old(self)@.wf(),
        ensures
            final(self)@.wf(),
            old(self)@.in_order() ==> final(self)@.in_order(),
            removed <==> old(self)@.peers.contains(peer),
            removed ==> final(self)@ == old(self)@.remove_peer(peer),
            !removed ==> final(self)@ == old(self)@,
            !final(self)@.peers.contains(peer),
            forall|q: u128| q != peer ==> (final(self)@.peers.contains(q) <==> old(self)@.peers.contains(q)),
    {
        if !contains_id(&self.peers, peer) {
            return false;
        }
        let ghost before = self@;
        let at = position_of(&self.peers, peer);
        self.peers.remove(at);
        proof {
            lemma_remove_keeps_others(before.peers, at as int);
        }
        if contains_id(&self.votes_received, peer) {
            let v = position_of(&self.votes_received, peer);
            self.votes_received.remove(v);
            proof {
                lemma_remove_keeps_others(before.votes, v as int);
            }
        }
        proof {
            assert(!self@.votes.contains(peer));
            assert forall|q: u128| q != peer implies (self@.votes.contains(q) <==> before.votes.contains(q)) by {}
            assert forall|i: int| 0 <= i < self@.votes.len() implies (#[trigger] self@.votes[i]) == self.node_id
                || self@.peers.contains(self@.votes[i]) by {
                let q = self@.votes[i];
                assert(self@.votes.contains(q));
                assert(q != peer);
                assert(before.votes.contains(q));
                let k = choose|k: int| 0 <= k < before.votes.len() && before.votes[k] == q;
                assert(before.votes[k] == before.node_id || before.peers.contains(before.votes[k]));
            }
            assert(peer != self.node_id);
            if self.state != RaftState::Follower {
                assert(before.votes.contains(self.node_id));
                assert(self@.votes.contains(self.node_id));
            }
            assert forall|p: u128| #[trigger] self@.peers.contains(p) implies before.peers.contains(p) by {}
        }
        true
    }

    /// The request this node sends to its peers when it stands for
    /// election.
    pub fn vote_request(&self) -> (request: VoteRequest)
        requires
            self@.wf(),
        ensures
            request == self@.vote_request(),
    {
        VoteRequest {
            term: self.current_term,
            candidate_id: self.node_id,
            last_log_index: self.log.len() as u64,
            last_log_term: self.last_log_term(),
        }
    }

    /// Answers a vote request: adopts a later term, and grants the vote at
    /// most once per term, only to a candidate whose log is at least as up
    /// to date as this node's.
    pub fn handle_request_vote(&mut self, request: &VoteRequest) -> (reply: VoteReply)
        requires
            old(self)@.wf(),
        ensures
            final(self)@.wf(),
            old(self)@.in_order() ==> final(self)@.in_order(),
            final(self)@ == old(self)@.handle_request_vote(*request).0,
            reply == old(self)@.handle_request_vote(*request).1,
    {
        self.become_follower(request.term);
        let free = match self.voted_for {
            None => true,
            Some(c) => c == request.candidate_id,
        };
        let last = self.last_log_term();
        let len = self.log.len() as u64;
        let fresh = request.last_log_term > last || (request.last_log_term == last && request.last_log_index
            >= len);
        if request.term == self.current_term && free && fresh {
            self.voted_for = Some(request.candidate_id);
            VoteReply { term: self.current_term, granted: true }
        } else {
            VoteReply { term: self.current_term, granted: false }
        }
    }

    /// Takes in the answer of `from` to a vote request: steps down on a
    /// later term, counts a fresh grant, and takes the leadership as soon as
    /// a strict majority has granted.
    pub fn handle_vote_reply(&mut self, from: u128, reply: &VoteReply)
        requires
            old(self)@.wf(),
        ensures
            final(self)@.wf(),
            old(self)@.in_order() ==> final(self)@.in_order(),
            final(self)@ == old(self)@.handle_vote_reply(from, *reply),
    {
        if reply.term > self.current_term {
            self.become_follower(reply.term);
            return ;
        }
        if self.state == RaftState::Candidate && reply.term == self.current_term && reply.granted
            && contains_id(&self.peers, from) && !contains_id(&self.votes_received, from) {
            let ghost before = self@;
            self.votes_received.push(from);
            proof {
                assert(self@.votes =~= before.votes.push(from));
                assert(self@.votes[before.votes.len() as int] == from);
                assert forall|i: int, j: int|
                    0 <= i < self@.votes.len() && 0 <= j < self@.votes.len() && i != j implies self@.votes[i]
                    != self@.votes[j] by {
                    if i < before.votes.len() {
                        assert(before.votes[i] == self@.votes[i]);
                    }
                    if j < before.votes.len() {
                        assert(before.votes[j] == self@.votes[j]);
                    }
                }
                let k = choose|k: int| 0 <= k < before.votes.len() && before.votes[k] == before.node_id;
                assert(self@.votes[k] == before.node_id);
            }
            if self.votes_received.len() >= quorum_of(self.peers.len()) {
                self.install_leadership();
            }
        }
    }
}

/// Appending an entry that continues a well-formed log keeps it well formed.
pub proof fn lemma_push_well_formed(log: Seq<EntryView>, entry: EntryView, term: u64)
    requires
        gap_free(log),
        terms_sorted(log),
        terms_bounded(log, term),
        entry.index == log.len() + 1,
        last_term(log) <= entry.term <= term,
    ensures
        gap_free(log.push(entry)),
        terms_sorted(log.push(entry)),
        terms_bounded(log.push(entry), term),
{
    let l = log.push(entry);
    assert forall|i: int, j: int| 0 <= i <= j < l.len() implies (#[trigger] l[i]).term <= (#[trigger] l[j]).term by {
        if j < log.len() {
            assert(l[i] == log[i] && l[j] == log[j]);
        } else if i < log.len() {
            assert(l[i] == log[i]);
            assert(log[i].term <= log[log.len() - 1].term);
        }
    }
}

} // verus!
