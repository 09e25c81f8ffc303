//! Every transition of a node keeps the node valid and the terms of its log
//! in order.

use crate::cluster::consensus::{
    lemma_push_well_formed, AppendReply, AppendRequestView, RaftState, RaftView, VoteReply, VoteRequest,
};
use crate::cluster::log::{
    agrees_at, divergence, lemma_divergence_bounds, lemma_merged_well_formed, merged, EntryView,
};
use vstd::prelude::*;

verus! {

impl RaftView {
    /// Observing a term keeps a node in order.
    pub proof fn lemma_step_down_valid(self, term: u64)
        requires
            self.in_order(),
        ensures
            self.step_down(term).in_order(),
    {
    }

    /// Taking the leadership keeps a candidate in order.
    pub proof fn lemma_become_leader_valid(self)
        requires
            self.in_order(),
            self.state == RaftState::Candidate,
        ensures
            self.become_leader().in_order(),
    {
    }

    /// Moving the commit index keeps a node in order, and never moves
    /// the index back.
    pub proof fn lemma_advance_commit_valid(self)
        requires
            self.in_order(),
        ensures
            self.advance_commit().in_order(),
            self.advance_commit().commit_index >= self.commit_index,
    {
        self.lemma_highest_committable(self.log.len() as u64);
    }

    /// Standing for election keeps a node in order.
    pub proof fn lemma_start_election_valid(self)
        requires
            self.in_order(),
            self.current_term < u64::MAX,
        ensures
            self.start_election().in_order(),
    {
        let c = self.become_candidate();
        assert(c.votes[0] == self.node_id);
        assert(c.in_order());
        if c.has_quorum() {
            c.lemma_become_leader_valid();
        }
    }

    /// Answering a vote request keeps a node in order.
    pub proof fn lemma_request_vote_valid(self, request: VoteRequest)
        requires
            self.in_order(),
        ensures
            self.handle_request_vote(request).0.in_order(),
    {
    }

    /// Taking in a vote keeps a node in order.
    pub proof fn lemma_vote_reply_valid(self, from: u128, reply: VoteReply)
        requires
            self.in_order(),
        ensures
            self.handle_vote_reply(from, reply).in_order(),
    {
        if reply.term <= self.current_term && self.counts_vote(from, reply) {
            let v = RaftView { votes: self.votes.push(from), ..self };
            assert(v.votes[self.votes.len() as int] == from);
            assert forall|i: int, j: int|
                0 <= i < v.votes.len() && 0 <= j < v.votes.len() && i != j implies v.votes[i] != v.votes[j] by {
                if i < self.votes.len() {
                    assert(self.votes[i] == v.votes[i]);
                }
                if j < self.votes.len() {
                    assert(self.votes[j] == v.votes[j]);
                }
            }
            let k = choose|k: int| 0 <= k < self.votes.len() && self.votes[k] == self.node_id;
            assert(v.votes[k] == self.node_id);
            assert(v.in_order());
            if v.has_quorum() {
                v.lemma_become_leader_valid();
            }
        }
    }

    /// Answering an append request keeps a node in order.
    pub proof fn lemma_append_entries_valid(self, request: AppendRequestView)
        requires
            self.in_order(),
        ensures
            self.handle_append_entries(request).0.in_order(),
    {
        if self.hears_leader(request.term) {
            let v = self.follow(request.term, request.leader_id);
            assert(v.in_order());
            if self.takes_entries(request) {
                let p = request.prev_log_index as int;
                lemma_divergence_bounds(self.log, p, request.entries, 0);
                lemma_merged_well_formed(
                    self.log,
                    request.prev_log_index,
                    request.prev_log_term,
                    request.term,
                    request.entries,
                );
                let a = divergence(self.log, p, request.entries, 0);
                if a > 0 {
                    assert(agrees_at(self.log, p, request.entries, a - 1));
                }
                let w = RaftView { log: merged(self.log, p, request.entries), ..v };
                assert(w.in_order());
            }
        }
    }

    /// Taking in a client's command keeps a leader in order.
    pub proof fn lemma_propose_valid(self, command: Seq<u8>)
        requires
            self.in_order(),
            self.can_propose(),
        ensures
            self.propose(command).in_order(),
    {
        let e = EntryView { term: self.current_term, index: (self.log.len() + 1) as u64, command };
        if self.log.len() > 0 {
            assert(self.log[self.log.len() - 1].term <= self.current_term);
        }
        lemma_push_well_formed(self.log, e, self.current_term);
        let v = self.append_entry(e);
        assert(v.in_order());
        v.lemma_advance_commit_valid();
    }

    /// Taking in the answer to an append request keeps a node in order.
    pub proof fn lemma_append_reply_valid(self, from: u128, reply: AppendReply)
        requires
            self.in_order(),
        ensures
            self.handle_append_reply(from, reply).in_order(),
    {
        if reply.term <= self.current_term && self.leads(from) && reply.term == self.current_term {
            let known = self.match_index[from];
            if reply.success {
                let reported = if reply.match_index <= self.log.len() {
                    reply.match_index
                } else {
                    self.log.len() as u64
                };
                let m = if reported > known {
                    reported
                } else {
                    known
                };
                let v = RaftView {
                    match_index: self.match_index.insert(from, m),
                    next_index: self.next_index.insert(from, (m + 1) as u64),
                    ..self
                };
                assert(v.in_order());
                v.lemma_advance_commit_valid();
            }
        }
    }
}

} // verus!
