//! One entry for everything a node receives, and what it sends when a timer
//! is due.

use crate::cluster::consensus::{AppendRequest, RaftNode, RaftState, RaftView, VoteRequest};
use crate::cluster::message::{Message, MessageView};
use vstd::prelude::*;

verus! {

impl RaftView {
    /// The node after a message from `from`, and the answer it sends back,
    /// if the message asks for one.
    pub open spec fn receive(self, from: u128, message: MessageView) -> (RaftView, Option<MessageView>) {
        match message {
            MessageView::RequestVote(r) => (
                self.handle_request_vote(r).0,
                Some(MessageView::RequestVoteResponse(self.handle_request_vote(r).1)),
            ),
            MessageView::RequestVoteResponse(reply) => (self.handle_vote_reply(from, reply), None),
            MessageView::AppendEntries(r) => (
                self.handle_append_entries(r).0,
                Some(MessageView::AppendEntriesResponse(self.handle_append_entries(r).1)),
            ),
            MessageView::AppendEntriesResponse(reply) => (self.handle_append_reply(from, reply), None),
        }
    }
}

impl RaftNode {
    /// Takes in a message from `from` and returns the answer to send back,
    /// if the message asks for one: a vote request and an append request are
    /// answered, the answers to them are only taken in.
    pub fn receive(&mut self, from: u128, message: &Message) -> (answer: Option<Message>)
        requires
            old(self)@.wf(),
        ensures
            final(self)@.wf(),
            old(self)@.in_order() ==> final(self)@.in_order(),
            final(self)@ == old(self)@.receive(from, message@).0,
            answer is Some <==> old(self)@.receive(from, message@).1 is Some,
            answer matches Some(m) ==> Some(m@) == old(self)@.receive(from, message@).1,
    {
        match message {
            Message::RequestVote(request) => Some(Message::RequestVoteResponse(self.handle_request_vote(request))),
            Message::RequestVoteResponse(reply) => {
                self.handle_vote_reply(from, reply);
                None
            },
            Message::AppendEntries(request) => Some(
                Message::AppendEntriesResponse(self.handle_append_entries(request)),
            ),
            Message::AppendEntriesResponse(reply) => {
                self.handle_append_reply(from, reply);
                None
            },
        }
    }

    /// What a candidate sends when it stands: its vote request, once for
    /// every peer, in the order of the peers. A node that does not stand
    /// sends nothing.
    pub fn vote_requests(&self) -> (out: Vec<(u128, VoteRequest)>)
        requires
            self@.wf(),
        ensures
            self@.state != RaftState::Candidate ==> out@.len() == 0,
            self@.state == RaftState::Candidate ==> out@.len() == self@.peers.len() && forall|i: int|
                0 <= i < out@.len() ==> (#[trigger] out@[i]) == (self@.peers[i], self@.vote_request()),
    {
        let mut out: Vec<(u128, VoteRequest)> = Vec::new();
        if self.state != RaftState::Candidate {
            return out;
        }
        let request = self.vote_request();
        let mut i: usize = 0;
        while i < self.peers.len()
            invariant
                i <= self.peers.len(),
                out@.len() == i,
                forall|k: int| 0 <= k < i ==> (#[trigger] out@[k]) == (self@.peers[k], request),
            decreases self.peers.len() - i,
        {
            out.push((self.peers[i], request));
            i = i + 1;
        }
        out
    }

    /// What a leader sends when its heartbeat is due: for every peer, in
    /// the order of the peers, the entries the peer needs next, at most
    /// `max_entries` of them. A node that does not lead sends nothing.
    pub fn heartbeats(&self, max_entries: usize) -> (out: Vec<(u128, AppendRequest)>)
        requires
            self@.wf(),
        ensures
            self@.state != RaftState::Leader ==> out@.len() == 0,
            self@.state == RaftState::Leader ==> out@.len() == self@.peers.len() && forall|i: int|
                0 <= i < out@.len() ==> (#[trigger] out@[i]).0 == self@.peers[i] && out@[i].1@
                    == self@.append_request_for(self@.peers[i], max_entries as nat),
    {
        let mut out: Vec<(u128, AppendRequest)> = Vec::new();
        if self.state != RaftState::Leader {
            return out;
        }
        let mut i: usize = 0;
        while i < self.peers.len()
            invariant
                i <= self.peers.len(),
                self@.wf(),
                self@.state == RaftState::Leader,
                out@.len() == i,
                forall|k: int|
                    0 <= k < i ==> (#[trigger] out@[k]).0 == self@.peers[k] && out@[k].1@
                        == self@.append_request_for(self@.peers[k], max_entries as nat),
            decreases self.peers.len() - i,
        {
            let peer = self.peers[i];
            assert(self@.peers.contains(peer));
            match self.append_entries_for(peer, max_entries) {
                Some(request) => {
                    out.push((peer, request));
                },
                None => {
                    assert(false);
                },
            }
            i = i + 1;
        }
        out
    }
}

} // verus!
