//! A cluster as a whole: its nodes, the messages between them and what
//! each step does to them. Election safety and the laws of single steps are
//! proved here; the other laws build on this model.

use crate::cluster::consensus::{AppendReply, AppendRequestView, RaftState, RaftView, VoteReply, VoteRequest};
use crate::cluster::log::{agrees_at, divergence, lemma_divergence_bounds, quorum, up_to_date, EntryView};
use vstd::prelude::*;
use vstd::seq_lib::*;
use vstd::set_lib::*;

verus! {

/// An answer to a vote request, on its way from the voter to the candidate.
pub struct VoteSent {
    pub from: u128,
    pub to: u128,
    pub reply: VoteReply,
}

/// An append request that a leader sent, with the log it was taken from.
pub struct AppendSent {
    pub request: AppendRequestView,
    pub log: Seq<EntryView>,
}

/// The node that took the leadership of a term, with the votes that
/// elected it.
pub struct Elected {
    pub leader: u128,
    pub votes: Seq<u128>,
}

/// A cluster of nodes with a fixed voting membership, as a whole: every
/// node's state, the messages that were sent, and the record of who voted
/// for whom and of who was elected in which term.
pub struct Cluster {
    pub members: Set<u128>,
    pub nodes: Map<u128, RaftView>,
    pub ballots: Map<(u64, u128), u128>,
    pub replies: Set<VoteSent>,
    pub sent: Set<AppendSent>,
    pub elected: Map<u64, Elected>,
    /// The vote requests that candidates sent.
    pub requests: Set<VoteRequest>,
    /// The answers to append requests that were sent.
    pub acks: Set<AckSent>,
    /// For every term that had a leader, the log of that leader as of its
    /// last moment in the term.
    pub leader_logs: Map<u64, Seq<EntryView>>,
    /// For every vote, the log of the voter when it voted.
    pub vote_logs: Map<(u64, u128), Seq<EntryView>>,
    /// For every candidacy, the log of the candidate when it stood.
    pub candidate_logs: Map<(u64, u128), Seq<EntryView>>,
    /// For every term, how far its leader has moved its commit index.
    pub committed: Map<u64, nat>,
}

/// An answer to an append request, on its way from the follower to the
/// leader.
pub struct AckSent {
    pub from: u128,
    pub reply: AppendReply,
}

/// The logs of the leaders after a node has become `after`.
pub open spec fn led(leader_logs: Map<u64, Seq<EntryView>>, after: RaftView) -> Map<u64, Seq<EntryView>> {
    if after.state == RaftState::Leader {
        leader_logs.insert(after.current_term, after.log)
    } else {
        leader_logs
    }
}

/// The record of what leaders committed after a node went from `before`
/// to `after`.
pub open spec fn marked(committed: Map<u64, nat>, before: RaftView, after: RaftView) -> Map<u64, nat> {
    if after.state == RaftState::Leader && after.commit_index > before.commit_index {
        committed.insert(after.current_term, after.commit_index as nat)
    } else {
        committed
    }
}

/// The record of elections after a node went from `before` to `after`:
/// a node that has just taken the leadership is written down for its term.
pub open spec fn recorded(elected: Map<u64, Elected>, before: RaftView, after: RaftView) -> Map<u64, Elected> {
    if after.state == RaftState::Leader && !(before.state == RaftState::Leader && before.current_term
        == after.current_term) {
        elected.insert(after.current_term, Elected { leader: after.node_id, votes: after.votes })
    } else {
        elected
    }
}

/// One thing that happens in a cluster: an event that one node takes in,
/// a leader that is asked to mark a position as committed, or a node that
/// stops and comes back with what it kept on disk. Messages may be delayed,
/// repeated and dropped, and are taken in only if they were sent. A node
/// that does not lead learns what is committed from append requests alone.
pub enum Step {
    Timeout { node: u128 },
    VoteRequested { node: u128, request: VoteRequest },
    VoteAnswered { node: u128, from: u128, reply: VoteReply },
    AppendSent { node: u128, peer: u128, max_entries: nat },
    AppendRequested { node: u128, message: AppendSent },
    AppendAnswered { node: u128, from: u128, reply: AppendReply },
    Proposed { node: u128, command: Seq<u8> },
    Restarted { node: u128, fresh: RaftView },
    Committed { node: u128, index: u64 },
}

impl Cluster {
    /// A cluster at its start: every member is a follower in term 0 with an
    /// empty log, knows the other members as its peers, and nothing was sent.
    pub open spec fn initial(self) -> bool {
        &&& self.members.finite()
        &&& forall|i: u128| #[trigger]
            self.members.contains(i) ==> {
                &&& self.nodes.contains_key(i)
                &&& self.nodes[i] == (RaftView { peers: self.nodes[i].peers, ..RaftView::initial(i) })
                &&& self.nodes[i].peers.no_duplicates()
                &&& self.nodes[i].peers.to_set() == self.members.remove(i)
            }
        &&& self.ballots == Map::<(u64, u128), u128>::empty()
        &&& self.replies == Set::<VoteSent>::empty()
        &&& self.sent == Set::<AppendSent>::empty()
        &&& self.elected == Map::<u64, Elected>::empty()
        &&& self.requests == Set::<VoteRequest>::empty()
        &&& self.acks == Set::<AckSent>::empty()
        &&& self.leader_logs == Map::<u64, Seq<EntryView>>::empty()
        &&& self.vote_logs == Map::<(u64, u128), Seq<EntryView>>::empty()
        &&& self.candidate_logs == Map::<(u64, u128), Seq<EntryView>>::empty()
        &&& self.committed == Map::<u64, nat>::empty()
    }

    /// Whether `step` leads from `self` to `after`.
    pub open spec fn next_by(self, after: Cluster, step: Step) -> bool {
        match step {
            Step::Timeout { node } => {
                &&& self.members.contains(node)
                &&& self.nodes[node].current_term < u64::MAX
                &&& after == (Cluster {
                    nodes: self.nodes.insert(node, self.nodes[node].start_election()),
                    ballots: self.ballots.insert(((self.nodes[node].current_term + 1) as u64, node), node),
                    elected: recorded(self.elected, self.nodes[node], self.nodes[node].start_election()),
                    requests: self.requests.insert(self.nodes[node].become_candidate().vote_request()),
                    vote_logs: self.vote_logs.insert(
                        ((self.nodes[node].current_term + 1) as u64, node),
                        self.nodes[node].log,
                    ),
                    candidate_logs: self.candidate_logs.insert(
                        ((self.nodes[node].current_term + 1) as u64, node),
                        self.nodes[node].log,
                    ),
                    leader_logs: led(self.leader_logs, self.nodes[node].start_election()),
                    committed: marked(self.committed, self.nodes[node], self.nodes[node].start_election()),
                    ..self
                })
            },
            Step::VoteRequested { node, request } => {
                let (next, reply) = self.nodes[node].handle_request_vote(request);
                &&& self.members.contains(node)
                &&& self.requests.contains(request)
                &&& after == (Cluster {
                    nodes: self.nodes.insert(node, next),
                    ballots: if reply.granted {
                        self.ballots.insert((reply.term, node), request.candidate_id)
                    } else {
                        self.ballots
                    },
                    vote_logs: if reply.granted && !self.ballots.contains_key((reply.term, node)) {
                        self.vote_logs.insert((reply.term, node), self.nodes[node].log)
                    } else {
                        self.vote_logs
                    },
                    replies: self.replies.insert(VoteSent { from: node, to: request.candidate_id, reply }),
                    leader_logs: led(self.leader_logs, next),
                    committed: marked(self.committed, self.nodes[node], next),
                    ..self
                })
            },
            Step::VoteAnswered { node, from, reply } => {
                &&& self.members.contains(node)
                &&& self.replies.contains(VoteSent { from, to: node, reply })
                &&& after == (Cluster {
                    nodes: self.nodes.insert(node, self.nodes[node].handle_vote_reply(from, reply)),
                    elected: recorded(
                        self.elected,
                        self.nodes[node],
                        self.nodes[node].handle_vote_reply(from, reply),
                    ),
                    leader_logs: led(self.leader_logs, self.nodes[node].handle_vote_reply(from, reply)),
                    committed: marked(
                        self.committed,
                        self.nodes[node],
                        self.nodes[node].handle_vote_reply(from, reply),
                    ),
                    ..self
                })
            },
            Step::AppendSent { node, peer, max_entries } => {
                &&& self.members.contains(node)
                &&& self.nodes[node].leads(peer)
                &&& after == (Cluster {
                    sent: self.sent.insert(
                        AppendSent {
                            request: self.nodes[node].append_request_for(peer, max_entries),
                            log: self.nodes[node].log,
                        },
                    ),
                    ..self
                })
            },
            Step::AppendRequested { node, message } => {
                &&& self.members.contains(node)
                &&& self.sent.contains(message)
                &&& after == (Cluster {
                    nodes: self.nodes.insert(node, self.nodes[node].handle_append_entries(message.request).0),
                    acks: self.acks.insert(
                        AckSent { from: node, reply: self.nodes[node].handle_append_entries(message.request).1 },
                    ),
                    leader_logs: led(self.leader_logs, self.nodes[node].handle_append_entries(message.request).0),
                    committed: marked(
                        self.committed,
                        self.nodes[node],
                        self.nodes[node].handle_append_entries(message.request).0,
                    ),
                    ..self
                })
            },
            Step::AppendAnswered { node, from, reply } => {
                &&& self.members.contains(node)
                &&& self.acks.contains(AckSent { from, reply })
                &&& after == (Cluster {
                    nodes: self.nodes.insert(node, self.nodes[node].handle_append_reply(from, reply)),
                    leader_logs: led(self.leader_logs, self.nodes[node].handle_append_reply(from, reply)),
                    committed: marked(
                        self.committed,
                        self.nodes[node],
                        self.nodes[node].handle_append_reply(from, reply),
                    ),
                    ..self
                })
            },
            Step::Proposed { node, command } => {
                &&& self.members.contains(node)
                &&& self.nodes[node].can_propose()
                &&& after == (Cluster {
                    nodes: self.nodes.insert(node, self.nodes[node].propose(command)),
                    leader_logs: led(self.leader_logs, self.nodes[node].propose(command)),
                    committed: marked(self.committed, self.nodes[node], self.nodes[node].propose(command)),
                    ..self
                })
            },
            Step::Restarted { node, fresh } => {
                &&& self.members.contains(node)
                &&& self.nodes[node].restarted_as(fresh)
                &&& after == (Cluster { nodes: self.nodes.insert(node, fresh), ..self })
            },
            Step::Committed { node, index } => {
                &&& self.members.contains(node)
                &&& self.nodes[node].state == RaftState::Leader
                &&& after == (Cluster {
                    nodes: self.nodes.insert(node, self.nodes[node].commit(index)),
                    leader_logs: led(self.leader_logs, self.nodes[node].commit(index)),
                    committed: marked(self.committed, self.nodes[node], self.nodes[node].commit(index)),
                    ..self
                })
            },
        }
    }

    /// Every member is a node in order that knows exactly the other members as
    /// its peers.
    pub open spec fn configured(self) -> bool {
        &&& self.members.finite()
        &&& forall|i: u128| #[trigger]
            self.members.contains(i) ==> {
                &&& self.nodes.contains_key(i)
                &&& self.nodes[i].node_id == i
                &&& self.nodes[i].in_order()
                &&& self.nodes[i].peers.to_set() == self.members.remove(i)
            }
    }

    /// Every vote on record was cast by a member in a term it has reached,
    /// and is the vote that member remembers while it is in that term.
    pub open spec fn ballots_recorded(self) -> bool {
        forall|term: u64, voter: u128| #[trigger]
            self.ballots.contains_key((term, voter)) ==> {
                &&& self.members.contains(voter)
                &&& self.nodes[voter].current_term >= term
                &&& (self.nodes[voter].current_term == term ==> self.nodes[voter].voted_for == Some(
                    self.ballots[(term, voter)],
                ))
            }
    }

    /// The vote a member remembers is on record.
    pub open spec fn votes_on_record(self) -> bool {
        forall|j: u128| #[trigger]
            self.members.contains(j) ==> (self.nodes[j].voted_for matches Some(c) ==> {
                &&& self.ballots.contains_key((self.nodes[j].current_term, j))
                &&& self.ballots[(self.nodes[j].current_term, j)] == c
            })
    }

    /// Every grant that was sent is on record.
    pub open spec fn grants_on_record(self) -> bool {
        forall|m: VoteSent| #[trigger]
            self.replies.contains(m) ==> (m.reply.granted ==> {
                &&& self.ballots.contains_key((m.reply.term, m.from))
                &&& self.ballots[(m.reply.term, m.from)] == m.to
            })
    }

    /// Every vote that a candidate or leader counts is on record as a vote
    /// for it in its term.
    pub open spec fn counts_on_record(self) -> bool {
        forall|i: u128, k: int|
            self.members.contains(i) && self.nodes[i].state != RaftState::Follower && 0 <= k
                < self.nodes[i].votes.len() ==> {
                &&& self.ballots.contains_key((self.nodes[i].current_term, #[trigger] self.nodes[i].votes[k]))
                &&& self.ballots[(self.nodes[i].current_term, self.nodes[i].votes[k])] == i
            }
    }

    /// Every leader counts the votes of a strict majority.
    pub open spec fn leaders_elected(self) -> bool {
        forall|i: u128| #[trigger]
            self.members.contains(i) ==> (self.nodes[i].state == RaftState::Leader
                ==> self.nodes[i].has_quorum())
    }

    /// What holds of every cluster that can be reached from its start.
    pub open spec fn election_invariant(self) -> bool {
        &&& self.configured()
        &&& self.ballots_recorded()
        &&& self.votes_on_record()
        &&& self.grants_on_record()
        &&& self.counts_on_record()
        &&& self.leaders_elected()
    }

    /// No two members lead the same term.
    pub open spec fn election_safety(self) -> bool {
        forall|i: u128, k: u128|
            #![trigger self.nodes[i], self.nodes[k]]
            self.members.contains(i) && self.members.contains(k) && self.nodes[i].state == RaftState::Leader
                && self.nodes[k].state == RaftState::Leader && self.nodes[i].current_term
                == self.nodes[k].current_term ==> i == k
    }
}

/// Two strict majorities of the same members have a member in common.
pub proof fn lemma_quorums_meet(a: Seq<u128>, b: Seq<u128>, members: Set<u128>)
    requires
        members.finite(),
        a.no_duplicates(),
        b.no_duplicates(),
        forall|i: int| 0 <= i < a.len() ==> members.contains(#[trigger] a[i]),
        forall|i: int| 0 <= i < b.len() ==> members.contains(#[trigger] b[i]),
        a.len() >= quorum(members.len()),
        b.len() >= quorum(members.len()),
    ensures
        exists|v: u128| a.contains(v) && b.contains(v),
{
    let sa = a.to_set();
    let sb = b.to_set();
    a.unique_seq_to_set();
    b.unique_seq_to_set();
    seq_to_set_is_finite(a);
    seq_to_set_is_finite(b);
    lemma_set_intersect_union_lens(sa, sb);
    assert(sa.union(sb).subset_of(members)) by {
        assert forall|v: u128| sa.union(sb).contains(v) implies members.contains(v) by {
            if sa.contains(v) {
                let i = choose|i: int| 0 <= i < a.len() && a[i] == v;
                assert(members.contains(a[i]));
            } else {
                let i = choose|i: int| 0 <= i < b.len() && b[i] == v;
                assert(members.contains(b[i]));
            }
        }
    }
    lemma_len_subset(sa.union(sb), members);
    assert(sa.intersect(sb).len() > 0);
    let v = sa.intersect(sb).choose();
    assert(sa.intersect(sb).contains(v)) by {
        if sa.intersect(sb).is_empty() {
            assert(sa.intersect(sb) =~= Set::<u128>::empty());
        }
    }
    assert(a.contains(v) && b.contains(v));
}

impl Cluster {
    /// The start of a cluster satisfies the invariant.
    pub proof fn lemma_initial_invariant(self)
        requires
            self.initial(),
        ensures
            self.election_invariant(),
    {
        assert forall|i: u128| #[trigger] self.members.contains(i) implies self.nodes[i].in_order() by {
            let n = self.nodes[i];
            assert(n.peers.to_set() == self.members.remove(i));
            if n.peers.contains(i) {
                assert(n.peers.to_set().contains(i));
            }
        }
    }

    /// Every step keeps the invariant.
    pub proof fn lemma_step_keeps_invariant(self, after: Cluster, step: Step)
        requires
            self.election_invariant(),
            self.next_by(after, step),
        ensures
            after.election_invariant(),
    {
        match step {
            Step::Timeout { node } => {
                self.nodes[node].lemma_start_election_valid();
                let n = self.nodes[node];
                let c = n.become_candidate();
                assert(c.votes[0] == node);
                let key = ((n.current_term + 1) as u64, node);
                assert(!self.ballots.contains_key(key));
                assert(after.configured());
                assert(after.ballots_recorded());
                assert(after.votes_on_record());
                assert(after.grants_on_record());
                assert(after.counts_on_record());
                assert(after.leaders_elected());
            },
            Step::VoteRequested { node, request } => {
                self.nodes[node].lemma_request_vote_valid(request);
                let (next, reply) = self.nodes[node].handle_request_vote(request);
                if reply.granted && self.ballots.contains_key((reply.term, node)) {
                    assert(self.ballots[(reply.term, node)] == request.candidate_id);
                    assert(after.ballots =~= self.ballots);
                }
                assert(after.configured());
                assert(after.ballots_recorded());
                assert(after.votes_on_record());
                assert(after.grants_on_record());
                assert(after.counts_on_record());
                assert(after.leaders_elected());
            },
            Step::VoteAnswered { node, from, reply } => {
                self.nodes[node].lemma_vote_reply_valid(from, reply);
                let n = self.nodes[node];
                let m = VoteSent { from, to: node, reply };
                assert(self.replies.contains(m));
                assert(after.configured());
                assert(after.ballots_recorded());
                assert(after.votes_on_record());
                assert(after.grants_on_record());
                assert(after.counts_on_record()) by {
                    assert forall|i: u128, k: int|
                        after.members.contains(i) && after.nodes[i].state != RaftState::Follower && 0 <= k
                            < after.nodes[i].votes.len() implies {
                        &&& after.ballots.contains_key(
                            (after.nodes[i].current_term, #[trigger] after.nodes[i].votes[k]),
                        )
                        &&& after.ballots[(after.nodes[i].current_term, after.nodes[i].votes[k])] == i
                    } by {
                        if i == node {
                            if k < n.votes.len() {
                                assert(after.nodes[i].votes[k] == n.votes[k]);
                            }
                        } else {
                            assert(after.nodes[i] == self.nodes[i]);
                        }
                    }
                }
                assert(after.leaders_elected());
            },
            Step::AppendSent { node, peer, max_entries } => {},
            Step::AppendRequested { node, message } => {
                self.nodes[node].lemma_append_entries_valid(message.request);
                assert(after.configured());
                assert(after.ballots_recorded());
                assert(after.votes_on_record());
                assert(after.grants_on_record());
                assert(after.counts_on_record());
                assert(after.leaders_elected());
            },
            Step::AppendAnswered { node, from, reply } => {
                self.nodes[node].lemma_append_reply_valid(from, reply);
                self.nodes[node].lemma_advance_commit_valid();
                assert(after.configured());
                assert(after.ballots_recorded());
                assert(after.votes_on_record());
                assert(after.grants_on_record());
                assert(after.counts_on_record());
                assert(after.leaders_elected());
            },
            Step::Proposed { node, command } => {
                self.nodes[node].lemma_propose_valid(command);
                assert(after.configured());
                assert(after.ballots_recorded());
                assert(after.votes_on_record());
                assert(after.grants_on_record());
                assert(after.counts_on_record());
                assert(after.leaders_elected());
            },
            Step::Committed { node, index } => {
                assert(after.configured());
                assert(after.ballots_recorded());
                assert(after.votes_on_record());
                assert(after.grants_on_record());
                assert(after.counts_on_record());
                assert(after.leaders_elected());
            },
            Step::Restarted { node, fresh } => {
                assert(after.configured());
                assert(after.ballots_recorded());
                assert(after.votes_on_record());
                assert(after.grants_on_record());
                assert(after.counts_on_record());
                assert(after.leaders_elected());
            },
        }
    }

    /// Election Safety: in a cluster that satisfies the invariant, at most
    /// one node leads any given term.
    pub proof fn lemma_election_safety(self)
        requires
            self.election_invariant(),
        ensures
            self.election_safety(),
    {
        assert forall|i: u128, k: u128|
            self.members.contains(i) && self.members.contains(k) && self.nodes[i].state == RaftState::Leader
                && self.nodes[k].state == RaftState::Leader && self.nodes[i].current_term
                == self.nodes[k].current_term implies i == k by {
            let a = self.nodes[i];
            let b = self.nodes[k];
            self.lemma_votes_from_members(i);
            self.lemma_votes_from_members(k);
            lemma_quorums_meet(a.votes, b.votes, self.members);
            let v = choose|v: u128| a.votes.contains(v) && b.votes.contains(v);
            let x = choose|x: int| 0 <= x < a.votes.len() && a.votes[x] == v;
            let y = choose|y: int| 0 <= y < b.votes.len() && b.votes[y] == v;
            assert(self.ballots[(a.current_term, a.votes[x])] == i);
            assert(self.ballots[(b.current_term, b.votes[y])] == k);
        }
    }

    /// The votes a member counts come from members, and a strict majority
    /// of its own count is one of the cluster.
    pub proof fn lemma_votes_from_members(self, i: u128)
        requires
            self.configured(),
            self.members.contains(i),
        ensures
            forall|x: int| 0 <= x < self.nodes[i].votes.len() ==> self.members.contains(#[trigger] self.nodes[i].votes[x]),
            self.nodes[i].cluster_size() == self.members.len(),
    {
        let n = self.nodes[i];
        assert forall|x: int| 0 <= x < n.votes.len() implies self.members.contains(#[trigger] n.votes[x]) by {
            if n.votes[x] != n.node_id {
                assert(n.peers.contains(n.votes[x]));
                assert(n.peers.to_set().contains(n.votes[x]));
            }
        }
        n.peers.unique_seq_to_set();
        assert(self.members.remove(i).len() == self.members.len() - 1);
    }
}

/// A run of a cluster: it begins at a start, and every state follows from
/// the one before it by one step.
pub open spec fn is_run(states: Seq<Cluster>) -> bool {
    &&& states.len() > 0
    &&& states[0].initial()
    &&& forall|k: int| 0 <= k < states.len() - 1 ==> #[trigger] follows(states[k], states[k + 1])
}

/// Whether some step leads from `before` to `after`.
pub open spec fn follows(before: Cluster, after: Cluster) -> bool {
    exists|step: Step| #[trigger] before.next_by(after, step)
}

/// Election Safety: at every point of every run, no two nodes lead the same
/// term.
pub proof fn election_safety_holds(states: Seq<Cluster>, at: int)
    requires
        is_run(states),
        0 <= at < states.len(),
    ensures
        states[at].election_invariant(),
        states[at].election_safety(),
    decreases at,
{
    if at == 0 {
        states[0].lemma_initial_invariant();
    } else {
        election_safety_holds(states, at - 1);
        assert(follows(states[at - 1], states[at - 1 + 1]));
        let step = choose|step: Step| #[trigger] states[at - 1].next_by(states[at], step);
        states[at - 1].lemma_step_keeps_invariant(states[at], step);
    }
    states[at].lemma_election_safety();
}

/// Leader Append-Only: a node that leads before and after a step has, after
/// it, the log it had before, continued by what it appended.
pub proof fn leader_append_only(before: Cluster, after: Cluster, step: Step, node: u128)
    requires
        before.election_invariant(),
        before.next_by(after, step),
        before.members.contains(node),
        before.nodes[node].state == RaftState::Leader,
        after.nodes[node].state == RaftState::Leader,
    ensures
        before.nodes[node].log.is_prefix_of(after.nodes[node].log),
{
    let n = before.nodes[node];
    match step {
        Step::Proposed { node: at, command } => {
            if at == node {
                n.lemma_advance_commit_valid();
            }
        },
        _ => {},
    }
    assert(n.log.is_prefix_of(after.nodes[node].log));
}

/// Whether `step` is `node` stopping and coming back.
pub open spec fn restarts(step: Step, node: u128) -> bool {
    step matches Step::Restarted { node: at, fresh } && at == node
}

/// What is committed stays: no step changes an entry of a node at or before
/// its commit index, and while the node runs no step moves its commit index
/// back. A node that stops and comes back keeps its log, and learns again
/// from the leader how much of it is committed.
pub proof fn committed_entries_stay(before: Cluster, after: Cluster, step: Step, node: u128)
    requires
        before.election_invariant(),
        before.next_by(after, step),
        before.members.contains(node),
    ensures
        after.nodes[node].log.take(before.nodes[node].commit_index as int) == before.nodes[node].log.take(
            before.nodes[node].commit_index as int,
        ),
        !restarts(step, node) ==> after.nodes[node].commit_index >= before.nodes[node].commit_index
            && after.nodes[node].last_applied == before.nodes[node].last_applied,
{
    let n = before.nodes[node];
    match step {
        Step::Proposed { node: at, command } => {
            if at == node {
                let e = EntryView { term: n.current_term, index: (n.log.len() + 1) as u64, command };
                n.append_entry(e).lemma_highest_committable((n.log.len() + 1) as u64);
                assert(after.nodes[node].log.take(n.commit_index as int) =~= n.log.take(n.commit_index as int));
            }
        },
        Step::AppendAnswered { node: at, from, reply } => {
            if at == node {
                n.lemma_append_reply_valid(from, reply);
                if reply.term <= n.current_term && n.leads(from) && reply.term == n.current_term && reply.success {
                    let known = n.match_index[from];
                    let reported = if reply.match_index <= n.log.len() {
                        reply.match_index
                    } else {
                        n.log.len() as u64
                    };
                    let m = if reported > known {
                        reported
                    } else {
                        known
                    };
                    let v = RaftView {
                        match_index: n.match_index.insert(from, m),
                        next_index: n.next_index.insert(from, (m + 1) as u64),
                        ..n
                    };
                    v.lemma_highest_committable(v.log.len() as u64);
                }
            }
        },
        Step::AppendRequested { node: at, message } => {
            if at == node {
                let r = message.request;
                if n.hears_leader(r.term) && n.takes_entries(r) {
                    let p = r.prev_log_index as int;
                    lemma_divergence_bounds(n.log, p, r.entries, 0);
                    let a = divergence(n.log, p, r.entries, 0);
                    if a > 0 {
                        assert(agrees_at(n.log, p, r.entries, a - 1));
                    }
                    assert(after.nodes[node].log.take(n.commit_index as int) =~= n.log.take(
                        n.commit_index as int,
                    ));
                }
            }
        },
        _ => {},
    }
}

/// A vote goes only to a candidate whose log is at least as up to date as
/// the voter's, and what the voter remembers of its vote is that candidate.
pub proof fn votes_need_up_to_date_logs(voter: RaftView, request: VoteRequest)
    requires
        voter.in_order(),
        voter.handle_request_vote(request).1.granted,
    ensures
        up_to_date(request.last_log_term, request.last_log_index, voter.log),
        voter.handle_request_vote(request).0.voted_for == Some(request.candidate_id),
        voter.handle_request_vote(request).0.current_term == request.term,
        request.term >= voter.current_term,
{
}

} // verus!
