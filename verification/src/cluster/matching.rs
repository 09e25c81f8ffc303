//! Log matching: two logs that hold an entry of the same term at the same
//! place hold the same entries up to that place. Proved over the model of a
//! cluster in `safety`.

use crate::cluster::consensus::RaftState;
use crate::cluster::log::{
    agrees_at, divergence, lemma_divergence_bounds, logs_match, merged, quorum, term_at, EntryView,
};
use crate::cluster::safety::{
    leader_append_only, lemma_quorums_meet, restarts, AppendSent, Cluster, Elected, Step,
};
use vstd::prelude::*;

verus! {

/// Logs that match one way match the other way.
pub proof fn lemma_match_symmetric(a: Seq<EntryView>, b: Seq<EntryView>)
    requires
        logs_match(a, b),
    ensures
        logs_match(b, a),
{
    assert forall|i: int| 0 <= i < b.len() && i < a.len() && (#[trigger] b[i]).term == (#[trigger] a[i]).term implies b.take(
        i + 1,
    ) == a.take(i + 1) by {
        assert(a.take(i + 1) == b.take(i + 1));
    }
}

/// A prefix of a log matches every log that the log matches.
pub proof fn lemma_prefix_matches(l: Seq<EntryView>, b: Seq<EntryView>, n: int)
    requires
        logs_match(l, b),
        0 <= n <= l.len(),
    ensures
        logs_match(l.take(n), b),
        logs_match(b, l.take(n)),
{
    let p = l.take(n);
    assert forall|i: int| 0 <= i < p.len() && i < b.len() && (#[trigger] p[i]).term == (#[trigger] b[i]).term implies p.take(
        i + 1,
    ) == b.take(i + 1) by {
        assert(p[i] == l[i]);
        assert(l.take(i + 1) == b.take(i + 1));
        assert(p.take(i + 1) =~= l.take(i + 1));
    }
    lemma_match_symmetric(p, b);
}

/// A log that grows by an entry still matches a log that holds no entry of
/// that entry's term at that place.
pub proof fn lemma_push_matches(x: Seq<EntryView>, e: EntryView, b: Seq<EntryView>)
    requires
        logs_match(x, b),
        b.len() > x.len() ==> b[x.len() as int].term != e.term,
    ensures
        logs_match(x.push(e), b),
        logs_match(b, x.push(e)),
{
    let y = x.push(e);
    assert forall|i: int| 0 <= i < y.len() && i < b.len() && (#[trigger] y[i]).term == (#[trigger] b[i]).term implies y.take(
        i + 1,
    ) == b.take(i + 1) by {
        if i < x.len() {
            assert(y[i] == x[i]);
            assert(x.take(i + 1) == b.take(i + 1));
            assert(y.take(i + 1) =~= x.take(i + 1));
        }
    }
    lemma_match_symmetric(y, b);
}

/// A follower whose log matches the leader's, and that takes in entries
/// of the leader's log behind a place where the two logs hold the same term,
/// keeps its log or ends up with a prefix of the leader's.
pub proof fn lemma_merged_is_prefix(f: Seq<EntryView>, l: Seq<EntryView>, prev: int, entries: Seq<EntryView>)
    requires
        logs_match(f, l),
        0 <= prev <= f.len(),
        prev + entries.len() <= l.len(),
        entries == l.subrange(prev, prev + entries.len()),
        term_at(f, prev) == term_at(l, prev),
    ensures
        merged(f, prev, entries) == f || merged(f, prev, entries) == l.take(prev + entries.len()),
        divergence(f, prev, entries, 0) < entries.len() ==> merged(f, prev, entries) == l.take(
            prev + entries.len(),
        ),
{
    let a = divergence(f, prev, entries, 0);
    lemma_divergence_bounds(f, prev, entries, 0);
    if a < entries.len() {
        if a > 0 {
            assert(agrees_at(f, prev, entries, a - 1));
            let i = prev + a - 1;
            assert(entries[a - 1] == l[i]);
            assert(f[i].term == l[i].term);
            assert(f.take(i + 1) == l.take(i + 1));
        } else if prev > 0 {
            let i = prev - 1;
            assert(f[i].term == l[i].term);
            assert(f.take(i + 1) == l.take(i + 1));
        } else {
            assert(f.take(0) =~= l.take(0));
        }
        assert(f.take(prev + a) == l.take(prev + a));
        assert(merged(f, prev, entries) =~= l.take(prev + entries.len()));
    }
}

/// What an append request says of the log it was taken from.
pub open spec fn taken_from(sent: AppendSent) -> bool {
    let r = sent.request;
    &&& r.prev_log_index + r.entries.len() <= sent.log.len()
    &&& r.entries == sent.log.subrange(r.prev_log_index as int, r.prev_log_index + r.entries.len())
    &&& r.prev_log_term == term_at(sent.log, r.prev_log_index as int)
}

impl Cluster {
    /// The log of a member.
    pub open spec fn log_of(self, node: u128) -> Seq<EntryView> {
        self.nodes[node].log
    }

    /// Whether a member leads.
    pub open spec fn leads(self, node: u128) -> bool {
        self.members.contains(node) && self.nodes[node].state == RaftState::Leader
    }

    /// Whether a log is the log of a member, or one that a request was
    /// taken from.
    pub open spec fn holds_log(self, log: Seq<EntryView>) -> bool {
        (exists|i: u128| self.members.contains(i) && #[trigger] self.log_of(i) == log) || (exists|
            s: AppendSent,
        | #[trigger] self.sent.contains(s) && s.log == log)
    }

    /// Every request was taken from the log that is kept with it.
    pub open spec fn requests_taken_from_logs(self) -> bool {
        forall|s: AppendSent| #[trigger] self.sent.contains(s) ==> taken_from(s)
    }

    /// Any two logs of the cluster match.
    pub open spec fn logs_agree(self) -> bool {
        forall|a: Seq<EntryView>, b: Seq<EntryView>| #[trigger]
            self.holds_log(a) && #[trigger] self.holds_log(b) ==> logs_match(a, b)
    }

    /// The log of a leader reaches every place where some log holds an
    /// entry of the leader's term.
    pub open spec fn leaders_reach_their_terms(self) -> bool {
        forall|l: u128, b: Seq<EntryView>, at: int|
            #![trigger self.leads(l), self.holds_log(b), b[at]]
            self.leads(l) && self.holds_log(b) && 0 <= at < b.len() && b[at].term
                == self.nodes[l].current_term ==> at < self.nodes[l].log.len()
    }

    /// Every entry was created in a term in which a leader was elected.
    pub open spec fn terms_had_leaders(self) -> bool {
        forall|b: Seq<EntryView>, at: int|
            #![trigger self.holds_log(b), b[at]]
            self.holds_log(b) && 0 <= at < b.len() ==> self.elected.contains_key(b[at].term)
    }

    /// What is recorded of the election of `term`: its leader is a member
    /// that has reached the term and leads while it is in it, and was elected
    /// by the votes of a strict majority.
    pub open spec fn election_sound(self, term: u64) -> bool {
        let e = self.elected[term];
        &&& self.members.contains(e.leader)
        &&& self.nodes[e.leader].current_term >= term
        &&& (self.nodes[e.leader].current_term == term ==> self.nodes[e.leader].state != RaftState::Candidate)
        &&& e.votes.no_duplicates()
        &&& e.votes.len() >= quorum(self.members.len())
        &&& forall|k: int|
            0 <= k < e.votes.len() ==> {
                &&& self.members.contains(#[trigger] e.votes[k])
                &&& self.ballots.contains_key((term, e.votes[k]))
                &&& self.ballots[(term, e.votes[k])] == e.leader
            }
    }

    /// Every recorded election is sound.
    pub open spec fn elections_sound(self) -> bool {
        forall|term: u64| #[trigger] self.elected.contains_key(term) ==> self.election_sound(term)
    }

    /// Every leader is on record as the leader of its term.
    pub open spec fn leaders_on_record(self) -> bool {
        forall|l: u128| #[trigger]
            self.leads(l) ==> self.elected.contains_key(self.nodes[l].current_term)
                && self.elected[self.nodes[l].current_term].leader == l
    }

    /// What holds of the logs of every cluster that can be reached from its
    /// start.
    pub open spec fn matching_invariant(self) -> bool {
        &&& self.election_invariant()
        &&& self.requests_taken_from_logs()
        &&& self.logs_agree()
        &&& self.leaders_reach_their_terms()
        &&& self.terms_had_leaders()
        &&& self.elections_sound()
        &&& self.leaders_on_record()
    }

    /// The logs of any two members match.
    pub open spec fn log_matching(self) -> bool {
        forall|i: u128, k: u128|
            #![trigger self.log_of(i), self.log_of(k)]
            self.members.contains(i) && self.members.contains(k) ==> logs_match(self.log_of(i), self.log_of(k))
    }

    /// Log Matching: in a cluster that satisfies the invariant, two members
    /// whose logs hold an entry of the same term at the same place hold the
    /// same entries up to that place.
    pub proof fn lemma_log_matching(self)
        requires
            self.matching_invariant(),
        ensures
            self.log_matching(),
    {
        assert forall|i: u128, k: u128|
            #![trigger self.log_of(i), self.log_of(k)]
            self.members.contains(i) && self.members.contains(k) implies logs_match(
            self.log_of(i),
            self.log_of(k),
        ) by {
            assert(self.holds_log(self.log_of(i)));
            assert(self.holds_log(self.log_of(k)));
        }
    }

    /// The start of a cluster satisfies the invariant.
    pub proof fn lemma_initial_matching(self)
        requires
            self.initial(),
        ensures
            self.matching_invariant(),
    {
        self.lemma_initial_invariant();
        assert forall|a: Seq<EntryView>| #[trigger] self.holds_log(a) implies a.len() == 0 by {
            if exists|i: u128| self.members.contains(i) && #[trigger] self.log_of(i) == a {
                let i = choose|i: u128| self.members.contains(i) && #[trigger] self.log_of(i) == a;
                assert(self.nodes[i].log.len() == 0);
            }
        }
        assert(self.logs_agree());
        assert(self.leaders_reach_their_terms());
        assert(self.terms_had_leaders());
    }

    /// A vote on record stays as it is.
    pub proof fn lemma_ballots_stay(self, after: Cluster, step: Step)
        requires
            self.election_invariant(),
            self.next_by(after, step),
        ensures
            forall|term: u64, voter: u128| #[trigger]
                self.ballots.contains_key((term, voter)) ==> after.ballots.contains_key((term, voter))
                    && after.ballots[(term, voter)] == self.ballots[(term, voter)],
    {
        match step {
            Step::Timeout { node } => {
                let key = ((self.nodes[node].current_term + 1) as u64, node);
                assert(!self.ballots.contains_key(key));
            },
            Step::VoteRequested { node, request } => {
                let (next, reply) = self.nodes[node].handle_request_vote(request);
                if reply.granted && self.ballots.contains_key((reply.term, node)) {
                    assert(self.ballots[(reply.term, node)] == request.candidate_id);
                }
            },
            _ => {},
        }
    }

    /// No step takes a member back to an earlier term. A leader that stays
    /// in its term keeps leading, unless it stops and comes back, and no
    /// node that stays in its term becomes a candidate in it.
    pub proof fn lemma_terms_grow(self, after: Cluster, step: Step, i: u128)
        requires
            self.election_invariant(),
            self.next_by(after, step),
            self.members.contains(i),
        ensures
            after.nodes[i].current_term >= self.nodes[i].current_term,
            self.nodes[i].state == RaftState::Leader && after.nodes[i].current_term
                == self.nodes[i].current_term && !restarts(step, i) ==> after.nodes[i].state == RaftState::Leader
                && after.nodes[i].votes == self.nodes[i].votes,
            after.nodes[i].current_term == self.nodes[i].current_term && self.nodes[i].state
                != RaftState::Candidate ==> after.nodes[i].state != RaftState::Candidate,
    {
        match step {
            Step::Proposed { node, command } => {
                self.nodes[node].lemma_highest_committable(self.nodes[node].log.len() as u64);
            },
            Step::AppendAnswered { node, from, reply } => {},
            _ => {},
        }
    }
}

/// The member that takes a step.
pub open spec fn actor(step: Step) -> u128 {
    match step {
        Step::Timeout { node } => node,
        Step::VoteRequested { node, request } => node,
        Step::VoteAnswered { node, from, reply } => node,
        Step::AppendSent { node, peer, max_entries } => node,
        Step::AppendRequested { node, message } => node,
        Step::AppendAnswered { node, from, reply } => node,
        Step::Proposed { node, command } => node,
        Step::Restarted { node, fresh } => node,
        Step::Committed { node, index } => node,
    }
}

impl Cluster {
    /// After a step, every log is one that was there before, or the log of
    /// the member that took the step.
    pub proof fn lemma_logs_after(self, after: Cluster, step: Step, a: Seq<EntryView>)
        requires
            self.next_by(after, step),
            after.holds_log(a),
        ensures
            self.holds_log(a) || a == after.log_of(actor(step)),
    {
        let node = actor(step);
        if exists|i: u128| after.members.contains(i) && #[trigger] after.log_of(i) == a {
            let i = choose|i: u128| after.members.contains(i) && #[trigger] after.log_of(i) == a;
            if i != node {
                assert(after.nodes[i] == self.nodes[i]);
                assert(self.log_of(i) == a);
            }
        } else {
            let s = choose|s: AppendSent| #[trigger] after.sent.contains(s) && s.log == a;
            if !self.sent.contains(s) {
                assert(self.log_of(node) == a);
            }
        }
    }

    /// Only an election makes a leader: a member that leads after a step
    /// led the same term before it, unless it took the step and its term is
    /// on record with it as of this step.
    pub proof fn lemma_new_leaders(self, after: Cluster, step: Step, l: u128)
        requires
            self.election_invariant(),
            self.next_by(after, step),
            after.leads(l),
        ensures
            (self.leads(l) && self.nodes[l].current_term == after.nodes[l].current_term && after.elected
                == self.elected) || (l == actor(step) && !(self.leads(l) && self.nodes[l].current_term
                == after.nodes[l].current_term) && after.elected == self.elected.insert(
                after.nodes[l].current_term,
                Elected { leader: l, votes: after.nodes[l].votes },
            )) || (self.leads(l) && self.nodes[l].current_term == after.nodes[l].current_term && l != actor(
                step,
            )),
    {
        match step {
            Step::Proposed { node, command } => {
                self.nodes[node].lemma_highest_committable(self.nodes[node].log.len() as u64);
            },
            _ => {},
        }
    }

    /// The term of a member that has just taken the leadership held no
    /// election before.
    pub proof fn lemma_fresh_term(self, after: Cluster, step: Step, l: u128)
        requires
            self.matching_invariant(),
            self.next_by(after, step),
            after.leads(l),
            !(self.leads(l) && self.nodes[l].current_term == after.nodes[l].current_term),
        ensures
            !self.elected.contains_key(after.nodes[l].current_term),
    {
        let t = after.nodes[l].current_term;
        self.lemma_step_keeps_invariant(after, step);
        self.lemma_terms_grow(after, step, l);
        if self.elected.contains_key(t) {
            let e = self.elected[t];
            assert(self.election_sound(t));
            let theirs = after.nodes[l].votes;
            after.lemma_votes_from_members(l);
            assert(after.nodes[l].has_quorum());
            lemma_quorums_meet(e.votes, theirs, self.members);
            let v = choose|v: u128| e.votes.contains(v) && theirs.contains(v);
            let x = choose|x: int| 0 <= x < e.votes.len() && e.votes[x] == v;
            let y = choose|y: int| 0 <= y < theirs.len() && theirs[y] == v;
            assert(self.ballots.contains_key((t, e.votes[x])) && self.ballots[(t, e.votes[x])] == e.leader);
            assert(after.ballots[(after.nodes[l].current_term, after.nodes[l].votes[y])] == l);
            self.lemma_ballots_stay(after, step);
            assert(e.leader == l);
        }
    }

    /// After a step, the log of the member that took it matches every log
    /// that was there before.
    pub proof fn lemma_new_log_matches(self, after: Cluster, step: Step, b: Seq<EntryView>)
        requires
            self.matching_invariant(),
            self.next_by(after, step),
            self.holds_log(b),
        ensures
            logs_match(after.log_of(actor(step)), b),
            logs_match(b, after.log_of(actor(step))),
            forall|at: int|
                0 <= at < after.log_of(actor(step)).len() ==> after.elected.contains_key(
                    (#[trigger] after.log_of(actor(step))[at]).term,
                ),
    {
        let node = actor(step);
        let n = self.nodes[node];
        let x = n.log;
        let y = after.log_of(node);
        assert(self.holds_log(x)) by {
            assert(self.members.contains(node) && self.log_of(node) == x);
        }
        assert(logs_match(x, b));
        lemma_match_symmetric(x, b);
        assert forall|at: int| 0 <= at < x.len() implies self.elected.contains_key((#[trigger] x[at]).term) by {}
        assert forall|t: u64| self.elected.contains_key(t) implies after.elected.contains_key(t) by {}
        match step {
            Step::AppendRequested { node, message } => {
                let r = message.request;
                if n.hears_leader(r.term) && n.takes_entries(r) {
                    assert(taken_from(message));
                    assert(self.holds_log(message.log));
                    assert(logs_match(x, message.log));
                    lemma_merged_is_prefix(x, message.log, r.prev_log_index as int, r.entries);
                    assert(y == merged(x, r.prev_log_index as int, r.entries));
                    if y != x {
                        let upto = r.prev_log_index + r.entries.len();
                        assert(logs_match(message.log, b));
                        lemma_prefix_matches(message.log, b, upto);
                        assert forall|at: int| 0 <= at < y.len() implies after.elected.contains_key(
                            (#[trigger] y[at]).term,
                        ) by {
                            assert(y[at] == message.log[at]);
                            assert(self.elected.contains_key(message.log[at].term));
                        }
                    }
                } else {
                    assert(y == x);
                }
            },
            Step::Proposed { node, command } => {
                let e = EntryView { term: n.current_term, index: (x.len() + 1) as u64, command };
                assert(y == x.push(e));
                assert(self.leads(node));
                if b.len() > x.len() {
                    let at = x.len() as int;
                    if b[at].term == e.term {
                        assert(self.leads(node) && self.holds_log(b) && 0 <= at < b.len() && b[at].term
                            == self.nodes[node].current_term);
                        assert(at < self.nodes[node].log.len());
                    }
                }
                lemma_push_matches(x, e, b);
                assert(self.elected.contains_key(n.current_term));
                assert forall|at: int| 0 <= at < y.len() implies after.elected.contains_key(
                    (#[trigger] y[at]).term,
                ) by {
                    if at < x.len() {
                        assert(y[at] == x[at]);
                    }
                }
            },
            _ => {
                assert(y == x);
            },
        }
    }
}

impl Cluster {
    /// A step keeps every request tied to the log it was taken from.
    pub proof fn lemma_requests_stay_taken(self, after: Cluster, step: Step)
        requires
            self.matching_invariant(),
            self.next_by(after, step),
        ensures
            after.requests_taken_from_logs(),
    {
        assert forall|s: AppendSent| #[trigger] after.sent.contains(s) implies taken_from(s) by {
            if !self.sent.contains(s) {
                match step {
                    Step::AppendSent { node, peer, max_entries } => {
                        let n = self.nodes[node];
                        assert(n.in_order());
                        assert(n.peers.contains(peer));
                        assert(1 <= n.next_index[peer] <= n.log.len() + 1);
                    },
                    _ => {},
                }
            }
        }
    }

    /// A step keeps the logs matching.
    pub proof fn lemma_logs_still_agree(self, after: Cluster, step: Step)
        requires
            self.matching_invariant(),
            self.next_by(after, step),
        ensures
            after.logs_agree(),
    {
        let y = after.log_of(actor(step));
        assert forall|a: Seq<EntryView>, b: Seq<EntryView>| #[trigger]
            after.holds_log(a) && #[trigger] after.holds_log(b) implies logs_match(a, b) by {
            self.lemma_logs_after(after, step, a);
            self.lemma_logs_after(after, step, b);
            if self.holds_log(a) && self.holds_log(b) {
            } else if self.holds_log(a) {
                self.lemma_new_log_matches(after, step, a);
            } else if self.holds_log(b) {
                self.lemma_new_log_matches(after, step, b);
            } else {
                assert(a == y && b == y);
            }
        }
    }

    /// A step keeps every entry in a term that had an election.
    pub proof fn lemma_terms_still_had_leaders(self, after: Cluster, step: Step)
        requires
            self.matching_invariant(),
            self.next_by(after, step),
        ensures
            after.terms_had_leaders(),
    {
        assert forall|t: u64| self.elected.contains_key(t) implies after.elected.contains_key(t) by {}
        assert(self.holds_log(self.log_of(actor(step)))) by {
            assert(self.members.contains(actor(step)));
        }
        self.lemma_new_log_matches(after, step, self.log_of(actor(step)));
        assert forall|b: Seq<EntryView>, at: int|
            #![trigger after.holds_log(b), b[at]]
            after.holds_log(b) && 0 <= at < b.len() implies after.elected.contains_key(b[at].term) by {
            self.lemma_logs_after(after, step, b);
            if self.holds_log(b) {
                assert(self.elected.contains_key(b[at].term));
            }
        }
    }

    /// A step keeps the recorded elections sound.
    pub proof fn lemma_elections_still_sound(self, after: Cluster, step: Step)
        requires
            self.matching_invariant(),
            self.next_by(after, step),
        ensures
            after.elections_sound(),
    {
        self.lemma_step_keeps_invariant(after, step);
        self.lemma_ballots_stay(after, step);
        assert forall|term: u64| #[trigger] after.elected.contains_key(term) implies after.election_sound(
            term,
        ) by {
            let e = after.elected[term];
            if self.elected.contains_key(term) && self.elected[term] == e {
                assert(self.election_sound(term));
                self.lemma_terms_grow(after, step, e.leader);
                assert forall|k: int| 0 <= k < e.votes.len() implies {
                    &&& after.members.contains(#[trigger] e.votes[k])
                    &&& after.ballots.contains_key((term, e.votes[k]))
                    &&& after.ballots[(term, e.votes[k])] == e.leader
                } by {
                    assert(self.ballots.contains_key((term, e.votes[k])));
                }
            } else {
                let node = actor(step);
                assert(after.nodes[node].state == RaftState::Leader);
                assert(e == Elected { leader: node, votes: after.nodes[node].votes });
                assert(term == after.nodes[node].current_term);
                after.lemma_votes_from_members(node);
                assert(after.nodes[node].has_quorum());
                assert(after.nodes[node].in_order());
                assert forall|k: int| 0 <= k < e.votes.len() implies {
                    &&& after.members.contains(#[trigger] e.votes[k])
                    &&& after.ballots.contains_key((term, e.votes[k]))
                    &&& after.ballots[(term, e.votes[k])] == e.leader
                } by {
                    assert(after.ballots.contains_key(
                        (after.nodes[node].current_term, after.nodes[node].votes[k]),
                    ));
                }
            }
        }
    }

    /// A step keeps every leader on record.
    pub proof fn lemma_leaders_still_on_record(self, after: Cluster, step: Step)
        requires
            self.matching_invariant(),
            self.next_by(after, step),
        ensures
            after.leaders_on_record(),
    {
        assert forall|l: u128| #[trigger] after.leads(l) implies after.elected.contains_key(
            after.nodes[l].current_term,
        ) && after.elected[after.nodes[l].current_term].leader == l by {
            self.lemma_new_leaders(after, step, l);
            let t = after.nodes[l].current_term;
            if self.leads(l) && self.nodes[l].current_term == t {
                assert(self.elected.contains_key(t) && self.elected[t].leader == l);
                if after.elected != self.elected {
                    let node = actor(step);
                    if after.leads(node) && !(self.leads(node) && self.nodes[node].current_term
                        == after.nodes[node].current_term) {
                        self.lemma_fresh_term(after, step, node);
                    }
                }
            }
        }
    }

    /// A step keeps the log of every leader reaching the entries of its
    /// term.
    pub proof fn lemma_leaders_still_reach(self, after: Cluster, step: Step)
        requires
            self.matching_invariant(),
            self.next_by(after, step),
        ensures
            after.leaders_reach_their_terms(),
    {
        let node = actor(step);
        let x = self.log_of(node);
        let y = after.log_of(node);
        assert(self.holds_log(x)) by {
            assert(self.members.contains(node));
        }
        assert forall|l: u128, b: Seq<EntryView>, at: int|
            #![trigger after.leads(l), after.holds_log(b), b[at]]
            after.leads(l) && after.holds_log(b) && 0 <= at < b.len() && b[at].term
                == after.nodes[l].current_term implies at < after.nodes[l].log.len() by {
            self.lemma_new_leaders(after, step, l);
            self.lemma_logs_after(after, step, b);
            let t = after.nodes[l].current_term;
            if self.leads(l) && self.nodes[l].current_term == t {
                leader_append_only(self, after, step, l);
                if self.holds_log(b) {
                    assert(at < self.nodes[l].log.len());
                } else if l != node {
                    assert(b == y);
                    match step {
                        Step::AppendRequested { node, message } => {
                            let r = message.request;
                            let n = self.nodes[node];
                            if n.hears_leader(r.term) && n.takes_entries(r) {
                                assert(taken_from(message));
                                assert(self.holds_log(message.log));
                                assert(logs_match(x, message.log));
                                lemma_merged_is_prefix(x, message.log, r.prev_log_index as int, r.entries);
                                assert(y == message.log.take(r.prev_log_index + r.entries.len()));
                                assert(y[at] == message.log[at]);
                                assert(self.leads(l) && self.holds_log(message.log) && message.log[at].term
                                    == self.nodes[l].current_term);
                            }
                        },
                        Step::Proposed { node, command } => {
                            let n = self.nodes[node];
                            let e = EntryView { term: n.current_term, index: (x.len() + 1) as u64, command };
                            assert(y == x.push(e));
                            if at < x.len() {
                                assert(y[at] == x[at]);
                                assert(self.leads(l) && self.holds_log(x) && x[at].term
                                    == self.nodes[l].current_term);
                            } else {
                                self.lemma_election_safety();
                                assert(self.nodes[node].current_term == self.nodes[l].current_term);
                            }
                        },
                        _ => {},
                    }
                }
            } else {
                self.lemma_fresh_term(after, step, l);
                assert(l == node);
                if self.holds_log(b) {
                    assert(self.elected.contains_key(b[at].term));
                }
            }
        }
    }

    /// Every step keeps the invariant of the logs.
    pub proof fn lemma_step_keeps_matching(self, after: Cluster, step: Step)
        requires
            self.matching_invariant(),
            self.next_by(after, step),
        ensures
            after.matching_invariant(),
    {
        self.lemma_step_keeps_invariant(after, step);
        self.lemma_requests_stay_taken(after, step);
        self.lemma_logs_still_agree(after, step);
        self.lemma_leaders_still_reach(after, step);
        self.lemma_terms_still_had_leaders(after, step);
        self.lemma_elections_still_sound(after, step);
        self.lemma_leaders_still_on_record(after, step);
    }
}

/// Log Matching: at every point of every run, two nodes whose logs hold an
/// entry of the same term at the same place hold the same entries up to that
/// place.
pub proof fn log_matching_holds(states: Seq<Cluster>, at: int)
    requires
        crate::cluster::safety::is_run(states),
        0 <= at < states.len(),
    ensures
        states[at].matching_invariant(),
        states[at].log_matching(),
    decreases at,
{
    if at == 0 {
        states[0].lemma_initial_matching();
    } else {
        log_matching_holds(states, at - 1);
        assert(crate::cluster::safety::follows(states[at - 1], states[at - 1 + 1]));
        let step = choose|step: Step| #[trigger] states[at - 1].next_by(states[at], step);
        states[at - 1].lemma_step_keeps_matching(states[at], step);
    }
    states[at].lemma_log_matching();
}

} // verus!
