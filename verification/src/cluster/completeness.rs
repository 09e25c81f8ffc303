//! Leader completeness: what a leader committed is in the log of every
//! later leader. Proved over the model of a cluster in `safety`, with the
//! history of votes, answers and leaders' logs as it is kept there.

use crate::cluster::consensus::{holders, holds, AppendReply, RaftState, RaftView, VoteRequest};
use crate::cluster::log::{
    agrees_at, divergence, last_term, lemma_divergence_bounds, logs_match, merged, quorum, terms_bounded,
    up_to_date, EntryView,
};
use crate::cluster::matching::{actor, lemma_merged_is_prefix, taken_from};
use crate::cluster::safety::{lemma_quorums_meet, AckSent, AppendSent, Cluster, Step};
use vstd::prelude::*;

verus! {

impl Cluster {
    /// The log of the leader of `term`.
    pub open spec fn log_led(self, term: u64) -> Seq<EntryView> {
        self.leader_logs[term]
    }

    /// Whether `term` had a leader whose log is on record.
    pub open spec fn had_leader(self, term: u64) -> bool {
        self.elected.contains_key(term) && self.leader_logs.contains_key(term)
    }

    /// Whether the entry at `at` of `log` sits in the log of the leader of
    /// its term, on top of the same entries.
    pub open spec fn rooted_at(self, log: Seq<EntryView>, at: int) -> bool {
        let t = log[at].term;
        &&& self.had_leader(t)
        &&& at < self.log_led(t).len()
        &&& log.take(at + 1) == self.log_led(t).take(at + 1)
    }

    /// Whether every entry of `log` sits in the log of the leader of its
    /// term.
    pub open spec fn rooted(self, log: Seq<EntryView>) -> bool {
        forall|at: int| 0 <= at < log.len() ==> #[trigger] self.rooted_at(log, at)
    }

    /// The log of every leader is on record: it is the leader's own log
    /// while the leader is in its term, and holds no entry of a later term.
    pub open spec fn leader_logs_kept(self) -> bool {
        forall|t: u64| #[trigger]
            self.elected.contains_key(t) ==> {
                &&& self.leader_logs.contains_key(t)
                &&& (self.nodes[self.elected[t].leader].current_term == t ==> self.nodes[self.elected[t].leader].log
                    == self.log_led(t))
                &&& terms_bounded(self.log_led(t), t)
                &&& self.rooted(self.log_led(t))
            }
    }

    /// Every log that a node holds or held when it voted or stood, and
    /// every log a request was taken from, is made of entries of leaders' logs.
    pub open spec fn logs_rooted(self) -> bool {
        &&& forall|b: Seq<EntryView>| #[trigger] self.holds_log(b) ==> self.rooted(b)
        &&& forall|k: (u64, u128)| #[trigger] self.vote_logs.contains_key(k) ==> self.rooted(self.vote_logs[k])
        &&& forall|k: (u64, u128)| #[trigger]
            self.candidate_logs.contains_key(k) ==> self.rooted(self.candidate_logs[k])
    }

    /// Every request was taken from a prefix of the log of the leader of
    /// its term.
    pub open spec fn requests_from_leaders(self) -> bool {
        forall|s: AppendSent| #[trigger]
            self.sent.contains(s) ==> self.had_leader(s.request.term) && s.log.is_prefix_of(
                self.log_led(s.request.term),
            )
    }

    /// Whether the first `upto` entries of the leader of `term` were lost
    /// to the leader of a later term up to `by`, whose log does not begin
    /// with them.
    pub open spec fn lost(self, term: u64, upto: int, by: u64) -> bool {
        exists|later: u64|
            term < later <= by && #[trigger] self.had_leader(later) && !self.log_led(term).take(
                upto,
            ).is_prefix_of(self.log_led(later))
    }

    /// Whether `log` begins with the first `upto` entries of the leader of
    /// `term`, unless they were lost to a later leader up to `by`.
    pub open spec fn kept(self, term: u64, upto: int, log: Seq<EntryView>, by: u64) -> bool {
        self.log_led(term).take(upto).is_prefix_of(log) || self.lost(term, upto, by)
    }

    /// Whether `node` told the leader of `term` that it holds its first
    /// `upto` entries.
    pub open spec fn acked(self, node: u128, term: u64, upto: int) -> bool {
        exists|k: u64|
            upto <= k && #[trigger] self.acks.contains(
                AckSent { from: node, reply: AppendReply { term, success: true, match_index: k } },
            )
    }

    /// Whether `node` has held the first `upto` entries of the leader of
    /// `term`: it told so, or it is that leader.
    pub open spec fn vouches(self, node: u128, term: u64, upto: int) -> bool {
        &&& 0 <= upto
        &&& self.had_leader(term)
        &&& upto <= self.log_led(term).len()
        &&& (self.acked(node, term, upto) || self.elected[term].leader == node)
    }

    /// Every answer that tells of a success names a term that had a leader
    /// and a place in that leader's log, and comes from a member.
    pub open spec fn acks_sound(self) -> bool {
        forall|a: AckSent| #[trigger]
            self.acks.contains(a) && a.reply.success ==> {
                &&& self.had_leader(a.reply.term)
                &&& a.reply.match_index <= self.log_led(a.reply.term).len()
                &&& self.members.contains(a.from)
            }
    }

    /// A node that has held entries of a leader still holds them, unless
    /// they were lost to a later leader that the node has heard of.
    pub open spec fn holders_keep(self) -> bool {
        forall|v: u128, term: u64, upto: int| #[trigger]
            self.vouches(v, term, upto) ==> {
                &&& self.members.contains(v)
                &&& self.nodes[v].current_term >= term
                &&& self.kept(term, upto, self.nodes[v].log, self.nodes[v].current_term)
            }
    }

    /// A node that had held entries of a leader held them when it voted in
    /// a later term, unless they were lost to a leader up to that term.
    pub open spec fn votes_keep(self) -> bool {
        forall|t2: u64, v: u128, term: u64, upto: int|
            #![trigger self.ballots.contains_key((t2, v)), self.vouches(v, term, upto)]
            self.ballots.contains_key((t2, v)) && term < t2 && self.vouches(v, term, upto) ==> {
                &&& self.vote_logs.contains_key((t2, v))
                &&& self.kept(term, upto, self.vote_logs[(t2, v)], t2)
            }
    }

    /// Whether `node` is one of those who elected the leader of `term`.
    pub open spec fn elector(self, term: u64, node: u128) -> bool {
        self.elected.contains_key(term) && self.elected[term].votes.contains(node)
    }

    /// Whether the first `upto` entries of the leader of `term` were lost
    /// to the leader of a later term before `before`.
    pub open spec fn lost_before(self, term: u64, upto: int, before: u64) -> bool {
        exists|later: u64|
            term < later < before && #[trigger] self.had_leader(later) && !self.log_led(term).take(
                upto,
            ).is_prefix_of(self.log_led(later))
    }

    /// A node that had held entries of a leader and then helped to elect a
    /// later leader held them when it voted, unless they were lost to a
    /// leader in between.
    pub open spec fn electors_keep(self) -> bool {
        forall|t2: u64, v: u128, term: u64, upto: int|
            #![trigger self.elector(t2, v), self.vouches(v, term, upto)]
            self.elector(t2, v) && term < t2 && self.vouches(v, term, upto) ==> {
                &&& self.vote_logs.contains_key((t2, v))
                &&& (self.log_led(term).take(upto).is_prefix_of(self.vote_logs[(t2, v)]) || self.lost_before(
                    term,
                    upto,
                    t2,
                ))
            }
    }

    /// Every vote request tells the end of the log its candidate stood
    /// with.
    pub open spec fn requests_genuine(self) -> bool {
        forall|r: VoteRequest| #[trigger]
            self.requests.contains(r) ==> {
                &&& self.candidate_logs.contains_key((r.term, r.candidate_id))
                &&& r.last_log_index == self.candidate_logs[(r.term, r.candidate_id)].len()
                &&& r.last_log_term == last_term(self.candidate_logs[(r.term, r.candidate_id)])
            }
    }

    /// Every vote went to a candidate whose log was at least as up to date
    /// as the voter's.
    pub open spec fn ballots_informed(self) -> bool {
        forall|t2: u64, v: u128| #[trigger]
            self.ballots.contains_key((t2, v)) ==> {
                let c = self.ballots[(t2, v)];
                &&& self.vote_logs.contains_key((t2, v))
                &&& self.candidate_logs.contains_key((t2, c))
                &&& (v == c ==> self.vote_logs[(t2, v)] == self.candidate_logs[(t2, c)])
                &&& (v != c ==> up_to_date(
                    last_term(self.candidate_logs[(t2, c)]),
                    self.candidate_logs[(t2, c)].len() as u64,
                    self.vote_logs[(t2, v)],
                ))
            }
    }

    /// The log a candidate stood with is its log while it stands, begins
    /// the log it leads with, and holds entries of earlier terms only.
    pub open spec fn candidates_recorded(self) -> bool {
        forall|t2: u64, c: u128| #[trigger]
            self.candidate_logs.contains_key((t2, c)) ==> {
                let x = self.candidate_logs[(t2, c)];
                &&& self.members.contains(c)
                &&& self.nodes[c].current_term >= t2
                &&& self.ballots.contains_key((t2, c))
                &&& self.ballots[(t2, c)] == c
                &&& (self.nodes[c].current_term == t2 && self.nodes[c].state == RaftState::Candidate
                    ==> self.nodes[c].log == x)
                &&& (self.elected.contains_key(t2) && self.elected[t2].leader == c ==> x.is_prefix_of(
                    self.log_led(t2),
                ))
                &&& x.len() < u64::MAX
                &&& forall|at: int| 0 <= at < x.len() ==> (#[trigger] x[at]).term < t2
            }
    }

    /// What a leader knows `peer` to hold.
    pub open spec fn known_match(self, leader: u128, peer: u128) -> u64 {
        self.nodes[leader].match_index[peer]
    }

    /// What a leader knows a peer to hold, the peer has told it.
    pub open spec fn matches_acked(self) -> bool {
        forall|l: u128, p: u128|
            #![trigger self.leads(l), self.known_match(l, p)]
            self.leads(l) && self.nodes[l].match_index.contains_key(p) && self.known_match(l, p) > 0
                ==> self.acked(p, self.nodes[l].current_term, self.known_match(l, p) as int)
    }

    /// Whether the nodes of `q` are a strict majority that has held what
    /// the leader of `term` committed.
    pub open spec fn commit_backed(self, term: u64, q: Seq<u128>) -> bool {
        &&& q.no_duplicates()
        &&& q.len() >= quorum(self.members.len())
        &&& forall|k: int|
            0 <= k < q.len() ==> self.members.contains(#[trigger] q[k]) && self.vouches(
                q[k],
                term,
                self.committed[term] as int,
            )
    }

    /// What a leader committed ends in an entry of its own term and was
    /// held by a strict majority.
    pub open spec fn commits_backed(self) -> bool {
        forall|term: u64| #[trigger]
            self.committed.contains_key(term) ==> {
                &&& self.had_leader(term)
                &&& 1 <= self.committed[term] <= self.log_led(term).len()
                &&& self.log_led(term)[self.committed[term] - 1].term == term
                &&& exists|q: Seq<u128>| #[trigger] self.commit_backed(term, q)
            }
    }

    /// What holds of every cluster that can be reached from its start.
    pub open spec fn completeness_invariant(self) -> bool {
        &&& self.matching_invariant()
        &&& self.leader_logs_kept()
        &&& self.logs_rooted()
        &&& self.requests_from_leaders()
        &&& self.acks_sound()
        &&& self.holders_keep()
        &&& self.votes_keep()
        &&& self.electors_keep()
        &&& self.requests_genuine()
        &&& self.ballots_informed()
        &&& self.candidates_recorded()
        &&& self.matches_acked()
        &&& self.commits_backed()
    }

    /// Whether the log of the leader of `later` begins with what the
    /// leader of `term` committed.
    pub open spec fn complete(self, term: u64, later: u64) -> bool {
        self.log_led(term).take(self.committed[term] as int).is_prefix_of(self.log_led(later))
    }

    /// Every leader holds, where it was committed, everything that the
    /// leader of an earlier term committed.
    pub open spec fn leader_completeness(self) -> bool {
        forall|term: u64, l: u128|
            #![trigger self.committed.contains_key(term), self.leads(l)]
            self.committed.contains_key(term) && self.leads(l) && self.nodes[l].current_term > term
                ==> self.log_led(term).take(self.committed[term] as int).is_prefix_of(self.nodes[l].log)
    }
}

/// A log that begins with `p` and begins a longer log: the longer log
/// begins with `p`.
pub proof fn lemma_prefix_chain(p: Seq<EntryView>, a: Seq<EntryView>, b: Seq<EntryView>)
    requires
        p.is_prefix_of(a),
        a.is_prefix_of(b),
    ensures
        p.is_prefix_of(b),
{
    assert(p =~= b.subrange(0, p.len() as int));
}

impl Cluster {
    /// Leader Completeness for the logs on record: the log of the leader
    /// of a later term begins with what the leader of `term` committed.
    pub proof fn lemma_complete(self, term: u64, later: u64)
        requires
            self.completeness_invariant(),
            self.committed.contains_key(term),
            self.elected.contains_key(later),
            term < later,
        ensures
            self.complete(term, later),
        decreases later,
    {
        let m = self.committed[term] as int;
        let lt = self.log_led(term);
        let p = lt.take(m);
        let q = choose|q: Seq<u128>| #[trigger] self.commit_backed(term, q);
        let e = self.elected[later];
        assert(self.election_sound(later));
        lemma_quorums_meet(q, e.votes, self.members);
        let v = choose|v: u128| q.contains(v) && e.votes.contains(v);
        let qi = choose|i: int| 0 <= i < q.len() && q[i] == v;
        assert(self.vouches(q[qi], term, m));
        assert(self.elector(later, v));
        let ei = choose|i: int| 0 <= i < e.votes.len() && e.votes[i] == v;
        assert(self.ballots.contains_key((later, e.votes[ei])) && self.ballots[(later, e.votes[ei])] == e.leader);
        let w = self.vote_logs[(later, v)];
        if self.lost_before(term, m, later) {
            let mid = choose|mid: u64|
                term < mid < later && #[trigger] self.had_leader(mid) && !lt.take(m).is_prefix_of(
                    self.log_led(mid),
                );
            self.lemma_complete(term, mid);
        }
        assert(p.is_prefix_of(w));
        let c = e.leader;
        let x = self.candidate_logs[(later, c)];
        assert(self.candidate_logs.contains_key((later, c)));
        assert(self.rooted(w));
        assert(self.rooted(x));
        assert(terms_bounded(lt, term));
        if v != c {
            assert(up_to_date(last_term(x), x.len() as u64, w));
            let wl = w.len() - 1;
            assert(self.rooted_at(w, wl));
            let tw = w[wl].term;
            assert(w.take(wl + 1) =~= w);
            assert(terms_bounded(self.log_led(tw), tw));
            assert(w[m - 1] == self.log_led(tw)[m - 1]);
            assert(p[m - 1] == w[m - 1]);
            assert(term <= tw);
            if last_term(x) > tw {
                let xl = x.len() - 1;
                let tx = x[xl].term;
                assert(self.rooted_at(x, xl));
                assert(x.take(xl + 1) =~= x);
                assert(tx < later);
                self.lemma_complete(term, tx);
                let ltx = self.log_led(tx);
                if x.len() < m {
                    assert(x[xl] == ltx[xl]);
                    assert(p[xl] == ltx[xl]);
                    assert(lt[xl].term <= term);
                }
                assert(p =~= x.subrange(0, m));
            } else {
                let xl = x.len() - 1;
                assert(self.rooted_at(x, xl));
                assert(x.take(xl + 1) =~= x);
                assert(w =~= x.subrange(0, w.len() as int));
                lemma_prefix_chain(p, w, x);
            }
        }
        assert(p.is_prefix_of(x));
        lemma_prefix_chain(p, x, self.log_led(later));
    }

    /// Leader Completeness: in a cluster that satisfies the invariant,
    /// every leader holds everything that the leader of an earlier term
    /// committed, at the place where it was committed.
    pub proof fn lemma_leader_completeness(self)
        requires
            self.completeness_invariant(),
        ensures
            self.leader_completeness(),
    {
        assert forall|term: u64, l: u128|
            #![trigger self.committed.contains_key(term), self.leads(l)]
            self.committed.contains_key(term) && self.leads(l) && self.nodes[l].current_term > term implies self.log_led(
            term,
        ).take(self.committed[term] as int).is_prefix_of(self.nodes[l].log) by {
            let later = self.nodes[l].current_term;
            assert(self.elected.contains_key(later) && self.elected[later].leader == l);
            self.lemma_complete(term, later);
        }
    }
}

impl Cluster {
    /// What is on record before a step is on record after it: elections
    /// stay as they are, and the log of a leader only grows, by one entry of
    /// the leader's term at a time.
    pub proof fn lemma_records_grow(self, after: Cluster, step: Step, t: u64)
        requires
            self.completeness_invariant(),
            self.next_by(after, step),
            self.elected.contains_key(t),
        ensures
            after.elected.contains_key(t),
            after.elected[t] == self.elected[t],
            after.had_leader(t),
            self.log_led(t).is_prefix_of(after.log_led(t)),
            after.log_led(t) == self.log_led(t) || (after.log_led(t).len() == self.log_led(t).len() + 1
                && after.log_led(t).last().term == t && self.leads(actor(step)) && after.leads(actor(step))
                && self.nodes[actor(step)].current_term == t),
    {
        let node = actor(step);
        let n = self.nodes[node];
        let n2 = after.nodes[node];
        assert(self.members.contains(node));
        self.lemma_step_keeps_invariant(after, step);
        if after.leads(node) {
            self.lemma_new_leaders(after, step, node);
            if !(self.leads(node) && n.current_term == n2.current_term) {
                self.lemma_fresh_term(after, step, node);
            } else {
                assert(self.elected.contains_key(n.current_term) && self.elected[n.current_term].leader == node);
                assert(n.log == self.log_led(n.current_term));
                match step {
                    Step::Proposed { node, command } => {
                        let e = EntryView { term: n.current_term, index: (n.log.len() + 1) as u64, command };
                        assert(n2.log == n.log.push(e));
                        assert(n.log =~= n2.log.subrange(0, n.log.len() as int));
                    },
                    Step::AppendRequested { node, message } => {
                        assert(n2 == n);
                    },
                    _ => {
                        assert(n2.log == n.log);
                    },
                }
            }
        }
        assert(self.log_led(t) =~= self.log_led(t).subrange(0, self.log_led(t).len() as int));
    }

    /// A log that is rooted before a step is rooted after it.
    pub proof fn lemma_rooted_stays(self, after: Cluster, step: Step, b: Seq<EntryView>)
        requires
            self.completeness_invariant(),
            self.next_by(after, step),
            self.rooted(b),
        ensures
            after.rooted(b),
    {
        assert forall|at: int| 0 <= at < b.len() implies #[trigger] after.rooted_at(b, at) by {
            assert(self.rooted_at(b, at));
            let t = b[at].term;
            self.lemma_records_grow(after, step, t);
            let old = self.log_led(t);
            let new = after.log_led(t);
            assert(old.take(at + 1) =~= new.take(at + 1));
        }
    }

    /// Entries that were lost to a later leader before a step are lost to
    /// it after the step.
    pub proof fn lemma_lost_stays(self, after: Cluster, step: Step, term: u64, upto: int, later: u64)
        requires
            self.completeness_invariant(),
            self.next_by(after, step),
            self.had_leader(term),
            0 <= upto <= self.log_led(term).len(),
            term < later,
            self.had_leader(later),
            !self.log_led(term).take(upto).is_prefix_of(self.log_led(later)),
        ensures
            after.had_leader(term),
            after.had_leader(later),
            after.log_led(term).take(upto) == self.log_led(term).take(upto),
            !after.log_led(term).take(upto).is_prefix_of(after.log_led(later)),
    {
        self.lemma_records_grow(after, step, term);
        self.lemma_records_grow(after, step, later);
        let p = self.log_led(term).take(upto);
        assert(after.log_led(term).take(upto) =~= p);
        let old = self.log_led(later);
        let new = after.log_led(later);
        if new != old && p.is_prefix_of(new) {
            assert(terms_bounded(self.log_led(term), term));
            if upto <= old.len() {
                assert(p =~= old.subrange(0, upto));
            } else {
                assert(upto == new.len());
                assert(p[upto - 1] == new[upto - 1]);
                assert(self.log_led(term)[upto - 1].term <= term);
            }
        }
    }

    /// What was kept before a step, in a log that did not change and up to
    /// a term that did not go back, is kept after it.
    pub proof fn lemma_kept_stays(self, after: Cluster, step: Step, term: u64, upto: int, log: Seq<EntryView>, by: u64, then: u64)
        requires
            self.completeness_invariant(),
            self.next_by(after, step),
            self.had_leader(term),
            0 <= upto <= self.log_led(term).len(),
            self.kept(term, upto, log, by),
            by <= then,
        ensures
            after.kept(term, upto, log, then),
            after.log_led(term).take(upto) == self.log_led(term).take(upto),
    {
        self.lemma_records_grow(after, step, term);
        assert(after.log_led(term).take(upto) =~= self.log_led(term).take(upto));
        if !self.log_led(term).take(upto).is_prefix_of(log) {
            let later = choose|later: u64|
                term < later <= by && #[trigger] self.had_leader(later) && !self.log_led(term).take(
                    upto,
                ).is_prefix_of(self.log_led(later));
            self.lemma_lost_stays(after, step, term, upto, later);
            assert(term < later <= then && after.had_leader(later));
        }
    }

    /// Who vouches for entries after a step vouched for them before it,
    /// unless the step made it vouch: by an answer it sent, by an entry it
    /// appended as the leader, or by its election.
    pub proof fn lemma_vouches_before(self, after: Cluster, step: Step, v: u128, term: u64, upto: int)
        requires
            self.completeness_invariant(),
            self.next_by(after, step),
            after.vouches(v, term, upto),
        ensures
            self.vouches(v, term, upto) || (v == actor(step) && after.nodes[v].current_term == term && (
            after.leads(v) || step is AppendRequested) && after.log_led(term).take(upto).is_prefix_of(
                after.nodes[v].log,
            )),
    {
        let node = actor(step);
        let n = self.nodes[node];
        let n2 = after.nodes[node];
        assert(self.members.contains(node));
        self.lemma_step_keeps_invariant(after, step);
        self.lemma_step_keeps_matching(after, step);
        if self.elected.contains_key(term) {
            self.lemma_records_grow(after, step, term);
            let old = self.log_led(term);
            let new = after.log_led(term);
            if after.elected[term].leader == v {
                if upto > old.len() {
                    assert(v == node);
                    assert(new == n2.log);
                    assert(new.take(upto) =~= new);
                }
            } else {
                assert(after.acked(v, term, upto));
                let k = choose|k: u64|
                    upto <= k && #[trigger] after.acks.contains(
                        AckSent { from: v, reply: AppendReply { term, success: true, match_index: k } },
                    );
                let a = AckSent { from: v, reply: AppendReply { term, success: true, match_index: k } };
                if self.acks.contains(a) {
                    assert(a.reply.match_index <= old.len());
                    assert(self.acked(v, term, upto));
                } else {
                    self.lemma_new_ack(after, step, a);
                    assert(new.take(upto) =~= new.take(k as int).take(upto));
                    assert(new.take(k as int) =~= n2.log.subrange(0, k as int));
                    assert(new.take(upto) =~= n2.log.subrange(0, upto));
                }
            }
        } else {
            assert(after.elected.contains_key(term));
            self.lemma_new_leaders(after, step, node);
            assert(after.leads(node) && n2.current_term == term && after.elected[term].leader == node);
            assert(after.log_led(term) == n2.log);
            if after.elected[term].leader != v {
                let k = choose|k: u64|
                    upto <= k && #[trigger] after.acks.contains(
                        AckSent { from: v, reply: AppendReply { term, success: true, match_index: k } },
                    );
                let a = AckSent { from: v, reply: AppendReply { term, success: true, match_index: k } };
                assert(self.acks.contains(a));
            }
            assert(after.log_led(term).take(upto) =~= n2.log.subrange(0, upto));
        }
    }

    /// An answer that a step sent and that tells of a success comes from
    /// the member that took the step, in the term of the request, and tells
    /// truly how far the member's log is the leader's.
    pub proof fn lemma_new_ack(self, after: Cluster, step: Step, a: AckSent)
        requires
            self.completeness_invariant(),
            self.next_by(after, step),
            after.acks.contains(a),
            !self.acks.contains(a),
            a.reply.success,
        ensures
            step is AppendRequested,
            a.from == actor(step),
            self.had_leader(a.reply.term),
            after.nodes[a.from].current_term == a.reply.term,
            a.reply.match_index <= self.log_led(a.reply.term).len(),
            after.log_led(a.reply.term) == self.log_led(a.reply.term),
            after.nodes[a.from].log.len() >= a.reply.match_index,
            after.nodes[a.from].log.take(a.reply.match_index as int) == self.log_led(a.reply.term).take(
                a.reply.match_index as int,
            ),
    {
        match step {
            Step::AppendRequested { node, message } => {
                let n = self.nodes[node];
                let r = message.request;
                let f = n.log;
                let l = message.log;
                assert(taken_from(message));
                assert(self.had_leader(r.term) && l.is_prefix_of(self.log_led(r.term)));
                self.lemma_records_grow(after, step, r.term);
                assert(n.hears_leader(r.term) && n.takes_entries(r));
                let upto = r.prev_log_index + r.entries.len();
                assert(self.holds_log(f)) by {
                    assert(self.members.contains(node) && self.log_of(node) == f);
                }
                assert(self.holds_log(l));
                assert(logs_match(f, l));
                lemma_merged_holds(f, l, r.prev_log_index as int, r.entries);
                let y = merged(f, r.prev_log_index as int, r.entries);
                assert(after.nodes[node].log == y);
                assert(y.take(upto) == l.take(upto));
                assert(l.take(upto) =~= self.log_led(r.term).take(upto));
            },
            _ => {},
        }
    }
}

/// A follower whose log matches the leader's, and that takes in entries
/// of the leader's log, holds after that the leader's log up to the last of
/// those entries.
pub proof fn lemma_merged_holds(f: Seq<EntryView>, l: Seq<EntryView>, prev: int, entries: Seq<EntryView>)
    requires
        logs_match(f, l),
        0 <= prev <= f.len(),
        prev + entries.len() <= l.len(),
        entries == l.subrange(prev, prev + entries.len()),
        crate::cluster::log::term_at(f, prev) == crate::cluster::log::term_at(l, prev),
    ensures
        merged(f, prev, entries).len() >= prev + entries.len(),
        merged(f, prev, entries).take(prev + entries.len()) == l.take(prev + entries.len()),
        merged(f, prev, entries) == f || merged(f, prev, entries) == l.take(prev + entries.len()),
{
    let a = divergence(f, prev, entries, 0);
    let n = prev + entries.len();
    lemma_divergence_bounds(f, prev, entries, 0);
    lemma_merged_is_prefix(f, l, prev, entries);
    if a >= entries.len() {
        if entries.len() > 0 {
            assert(agrees_at(f, prev, entries, entries.len() - 1));
            let i = n - 1;
            assert(entries[entries.len() - 1] == l[i]);
            assert(f[i].term == l[i].term);
            assert(f.take(i + 1) == l.take(i + 1));
        } else if prev > 0 {
            let i = prev - 1;
            assert(f[i].term == l[i].term);
            assert(f.take(i + 1) == l.take(i + 1));
        } else {
            assert(f.take(0) =~= l.take(0));
        }
    } else {
        assert(merged(f, prev, entries) == l.take(n));
        assert(l.take(n).take(n) =~= l.take(n));
    }
}

/// A node that takes in entries of a log that its own begins with keeps its
/// log.
pub proof fn lemma_merged_own(f: Seq<EntryView>, l: Seq<EntryView>, prev: int, entries: Seq<EntryView>)
    requires
        l.is_prefix_of(f),
        0 <= prev,
        prev + entries.len() <= l.len(),
        entries == l.subrange(prev, prev + entries.len()),
    ensures
        merged(f, prev, entries) == f,
{
    let a = divergence(f, prev, entries, 0);
    lemma_divergence_bounds(f, prev, entries, 0);
    if a < entries.len() {
        assert(entries[a] == l[prev + a]);
        assert(f[prev + a] == l[prev + a]);
        assert(agrees_at(f, prev, entries, a));
    }
}

/// A log that begins a rooted log is rooted.
pub proof fn lemma_prefix_rooted(c: Cluster, log: Seq<EntryView>, upto: int)
    requires
        c.rooted(log),
        0 <= upto <= log.len(),
    ensures
        c.rooted(log.take(upto)),
{
    let p = log.take(upto);
    assert forall|at: int| 0 <= at < p.len() implies #[trigger] c.rooted_at(p, at) by {
        assert(c.rooted_at(log, at));
        assert(p.take(at + 1) =~= log.take(at + 1));
    }
}

impl Cluster {
    /// A step keeps the logs of the leaders on record.
    pub proof fn lemma_leader_logs_still_kept(self, after: Cluster, step: Step)
        requires
            self.completeness_invariant(),
            self.next_by(after, step),
        ensures
            after.leader_logs_kept(),
    {
        let node = actor(step);
        let n = self.nodes[node];
        let n2 = after.nodes[node];
        assert(self.members.contains(node));
        self.lemma_step_keeps_invariant(after, step);
        self.lemma_step_keeps_matching(after, step);
        assert(self.holds_log(n.log)) by {
            assert(self.log_of(node) == n.log);
        }
        assert forall|t: u64| #[trigger] after.elected.contains_key(t) implies {
            &&& after.leader_logs.contains_key(t)
            &&& (after.nodes[after.elected[t].leader].current_term == t
                ==> after.nodes[after.elected[t].leader].log == after.log_led(t))
            &&& terms_bounded(after.log_led(t), t)
            &&& after.rooted(after.log_led(t))
        } by {
            let l = after.elected[t].leader;
            if self.elected.contains_key(t) {
                self.lemma_records_grow(after, step, t);
                assert(self.election_sound(t));
                self.lemma_terms_grow(after, step, l);
                let old = self.log_led(t);
                let new = after.log_led(t);
                self.lemma_rooted_stays(after, step, old);
                if new != old {
                    assert(new.take(old.len() as int) =~= old);
                    assert forall|at: int| 0 <= at < new.len() implies #[trigger] after.rooted_at(new, at) by {
                        if at < old.len() {
                            assert(after.rooted_at(old, at));
                            assert(new.take(at + 1) =~= old.take(at + 1));
                            assert(new[at] == old[at]);
                        } else {
                            assert(new.take(at + 1) =~= new);
                        }
                    }
                    assert forall|i: int| 0 <= i < new.len() implies (#[trigger] new[i]).term <= t by {
                        if i < old.len() {
                            assert(new[i] == old[i]);
                        }
                    }
                }
                if after.nodes[l].current_term == t {
                    assert(self.nodes[l].current_term == t);
                    if after.leads(node) && n2.current_term == t {
                        assert(after.elected[t].leader == node);
                    }
                    if l == node && !self.leads(node) {
                        match step {
                            Step::AppendRequested { node, message } => {
                                let r = message.request;
                                if n.hears_leader(r.term) && n.takes_entries(r) {
                                    assert(r.term == t);
                                    assert(taken_from(message));
                                    assert(message.log.is_prefix_of(old));
                                    lemma_merged_own(n.log, message.log, r.prev_log_index as int, r.entries);
                                }
                            },
                            _ => {},
                        }
                    }
                }
            } else {
                self.lemma_new_leaders(after, step, node);
                assert(l == node && n2.current_term == t && after.leads(node));
                assert(n2.log == n.log);
                assert(self.rooted(n.log));
                self.lemma_rooted_stays(after, step, n.log);
                assert(n2.in_order());
            }
        }
    }

    /// A step keeps the logs rooted.
    pub proof fn lemma_logs_still_rooted(self, after: Cluster, step: Step)
        requires
            self.completeness_invariant(),
            self.next_by(after, step),
        ensures
            after.logs_rooted(),
    {
        let node = actor(step);
        let n = self.nodes[node];
        let y = after.log_of(node);
        assert(self.members.contains(node));
        assert(self.holds_log(n.log)) by {
            assert(self.log_of(node) == n.log);
        }
        self.lemma_rooted_stays(after, step, n.log);
        self.lemma_leader_logs_still_kept(after, step);
        self.lemma_step_keeps_invariant(after, step);
        assert(after.rooted(y)) by {
            match step {
                Step::AppendRequested { node, message } => {
                    let r = message.request;
                    if n.hears_leader(r.term) && n.takes_entries(r) {
                        assert(taken_from(message));
                        assert(self.holds_log(message.log));
                        assert(logs_match(n.log, message.log));
                        lemma_merged_is_prefix(n.log, message.log, r.prev_log_index as int, r.entries);
                        self.lemma_rooted_stays(after, step, message.log);
                        lemma_prefix_rooted(after, message.log, r.prev_log_index + r.entries.len());
                    }
                },
                Step::Proposed { node, command } => {
                    self.lemma_new_leaders(after, step, node);
                    let t = after.nodes[node].current_term;
                    assert(self.elected.contains_key(t) && self.elected[t].leader == node);
                    self.lemma_records_grow(after, step, t);
                    assert(after.elected.contains_key(t));
                    assert(after.log_led(t) == y);
                },
                _ => {
                    assert(y == n.log);
                },
            }
        }
        assert forall|b: Seq<EntryView>| #[trigger] after.holds_log(b) implies after.rooted(b) by {
            self.lemma_logs_after(after, step, b);
            if self.holds_log(b) {
                self.lemma_rooted_stays(after, step, b);
            }
        }
        assert forall|k: (u64, u128)| #[trigger] after.vote_logs.contains_key(k) implies after.rooted(
            after.vote_logs[k],
        ) by {
            if self.vote_logs.contains_key(k) && self.vote_logs[k] == after.vote_logs[k] {
                self.lemma_rooted_stays(after, step, self.vote_logs[k]);
            } else {
                assert(after.vote_logs[k] == n.log);
            }
        }
        assert forall|k: (u64, u128)| #[trigger] after.candidate_logs.contains_key(k) implies after.rooted(
            after.candidate_logs[k],
        ) by {
            if self.candidate_logs.contains_key(k) && self.candidate_logs[k] == after.candidate_logs[k] {
                self.lemma_rooted_stays(after, step, self.candidate_logs[k]);
            } else {
                assert(after.candidate_logs[k] == n.log);
            }
        }
    }

    /// A step keeps every request taken from the log of the leader of its
    /// term, and every answer sound.
    pub proof fn lemma_messages_still_sound(self, after: Cluster, step: Step)
        requires
            self.completeness_invariant(),
            self.next_by(after, step),
        ensures
            after.requests_from_leaders(),
            after.acks_sound(),
    {
        self.lemma_step_keeps_invariant(after, step);
        assert forall|s: AppendSent| #[trigger] after.sent.contains(s) implies after.had_leader(s.request.term)
            && s.log.is_prefix_of(after.log_led(s.request.term)) by {
            if self.sent.contains(s) {
                self.lemma_records_grow(after, step, s.request.term);
                lemma_prefix_chain(s.log, self.log_led(s.request.term), after.log_led(s.request.term));
            } else {
                let node = actor(step);
                let t = self.nodes[node].current_term;
                assert(self.leads(node));
                assert(self.elected.contains_key(t) && self.elected[t].leader == node);
                self.lemma_records_grow(after, step, t);
                assert(s.log == self.log_led(t));
                assert(s.request.term == t);
            }
        }
        assert forall|a: AckSent| #[trigger] after.acks.contains(a) && a.reply.success implies {
            &&& after.had_leader(a.reply.term)
            &&& a.reply.match_index <= after.log_led(a.reply.term).len()
            &&& after.members.contains(a.from)
        } by {
            if self.acks.contains(a) {
                self.lemma_records_grow(after, step, a.reply.term);
            } else {
                self.lemma_new_ack(after, step, a);
                self.lemma_records_grow(after, step, a.reply.term);
            }
        }
    }
}

impl Cluster {
    /// A node that takes in an append request keeps what it has held of a
    /// leader's log, unless that is lost to the leader it follows now.
    pub proof fn lemma_kept_through_append(self, after: Cluster, step: Step, term: u64, upto: int)
        requires
            self.completeness_invariant(),
            self.next_by(after, step),
            step is AppendRequested,
            self.vouches(actor(step), term, upto),
        ensures
            after.kept(term, upto, after.nodes[actor(step)].log, after.nodes[actor(step)].current_term),
    {
        let v = actor(step);
        let n = self.nodes[v];
        let n2 = after.nodes[v];
        let f = n.log;
        let y = n2.log;
        let p = self.log_led(term).take(upto);
        assert(self.members.contains(v));
        self.lemma_terms_grow(after, step, v);
        self.lemma_kept_stays(after, step, term, upto, f, n.current_term, n2.current_term);
        if y != f && p.is_prefix_of(f) {
            match step {
                Step::AppendRequested { node, message } => {
                    let r = message.request;
                    let l = message.log;
                    let ts = r.term;
                    let upper = r.prev_log_index + r.entries.len();
                    assert(n.hears_leader(ts) && n.takes_entries(r));
                    assert(taken_from(message));
                    assert(self.holds_log(l));
                    assert(self.holds_log(f)) by {
                        assert(self.log_of(v) == f);
                    }
                    assert(logs_match(f, l));
                    lemma_merged_holds(f, l, r.prev_log_index as int, r.entries);
                    assert(y == l.take(upper));
                    assert(self.had_leader(ts) && l.is_prefix_of(self.log_led(ts)));
                    let big = self.log_led(ts);
                    if !p.is_prefix_of(big) {
                        assert(ts != term) by {
                            if ts == term {
                                assert(p =~= big.subrange(0, upto));
                            }
                        }
                        self.lemma_lost_stays(after, step, term, upto, ts);
                        assert(term < ts <= n2.current_term && after.had_leader(ts));
                    } else if upper >= upto {
                        assert(y.take(upto) =~= big.take(upto));
                        assert(p =~= y.subrange(0, upto));
                    } else {
                        lemma_divergence_bounds(f, r.prev_log_index as int, r.entries, 0);
                        let a = divergence(f, r.prev_log_index as int, r.entries, 0);
                        if a < r.entries.len() {
                            let at = r.prev_log_index + a;
                            assert(r.entries[a] == l[at]);
                            assert(l[at] == big[at]);
                            assert(p[at] == big[at]);
                            assert(p[at] == f[at]);
                            assert(agrees_at(f, r.prev_log_index as int, r.entries, a));
                        }
                    }
                },
                _ => {},
            }
        }
    }

    /// A step keeps the holders of entries holding them.
    pub proof fn lemma_holders_still_keep(self, after: Cluster, step: Step)
        requires
            self.completeness_invariant(),
            self.next_by(after, step),
        ensures
            after.holders_keep(),
    {
        let node = actor(step);
        assert(self.members.contains(node));
        self.lemma_step_keeps_invariant(after, step);
        assert forall|v: u128, term: u64, upto: int| #[trigger] after.vouches(v, term, upto) implies {
            &&& after.members.contains(v)
            &&& after.nodes[v].current_term >= term
            &&& after.kept(term, upto, after.nodes[v].log, after.nodes[v].current_term)
        } by {
            self.lemma_vouches_before(after, step, v, term, upto);
            if self.vouches(v, term, upto) {
                let n = self.nodes[v];
                let n2 = after.nodes[v];
                self.lemma_terms_grow(after, step, v);
                if v != node {
                    assert(n2 == n);
                    self.lemma_kept_stays(after, step, term, upto, n.log, n.current_term, n.current_term);
                } else {
                    match step {
                        Step::AppendRequested { node, message } => {
                            self.lemma_kept_through_append(after, step, term, upto);
                        },
                        Step::Proposed { node, command } => {
                            self.lemma_kept_stays(after, step, term, upto, n.log, n.current_term, n2.current_term);
                            let e = EntryView { term: n.current_term, index: (n.log.len() + 1) as u64, command };
                            assert(n2.log == n.log.push(e));
                            let p = self.log_led(term).take(upto);
                            if p.is_prefix_of(n.log) {
                                assert(p =~= n2.log.subrange(0, p.len() as int));
                            }
                        },
                        _ => {
                            assert(n2.log == n.log);
                            self.lemma_kept_stays(after, step, term, upto, n.log, n.current_term, n2.current_term);
                        },
                    }
                }
            }
        }
    }
}

impl Cluster {
    /// A step leaves the votes on record, and the logs they were cast
    /// with, as they are.
    pub proof fn lemma_vote_logs_stay(self, after: Cluster, step: Step, t2: u64, v: u128)
        requires
            self.completeness_invariant(),
            self.next_by(after, step),
            self.ballots.contains_key((t2, v)),
        ensures
            after.ballots.contains_key((t2, v)),
            after.ballots[(t2, v)] == self.ballots[(t2, v)],
            after.vote_logs.contains_key((t2, v)),
            after.vote_logs[(t2, v)] == self.vote_logs[(t2, v)],
    {
        self.lemma_ballots_stay(after, step);
        match step {
            Step::Timeout { node } => {
                let key = ((self.nodes[node].current_term + 1) as u64, node);
                assert(!self.ballots.contains_key(key));
            },
            _ => {},
        }
    }

    /// A vote that a step put on record was cast by the member that took
    /// the step, in the term it is in after the step, with the log it had.
    pub proof fn lemma_new_ballot(self, after: Cluster, step: Step, t2: u64, v: u128)
        requires
            self.completeness_invariant(),
            self.next_by(after, step),
            after.ballots.contains_key((t2, v)),
            !self.ballots.contains_key((t2, v)),
        ensures
            v == actor(step),
            t2 == after.nodes[v].current_term,
            self.nodes[v].current_term <= t2,
            after.nodes[v].log == self.nodes[v].log,
            after.vote_logs.contains_key((t2, v)),
            after.vote_logs[(t2, v)] == self.nodes[v].log,
            step is Timeout || step is VoteRequested,
            step is Timeout ==> self.nodes[v].current_term < t2,
    {
    }

    /// A step keeps what voters held when they voted.
    pub proof fn lemma_votes_still_keep(self, after: Cluster, step: Step)
        requires
            self.completeness_invariant(),
            self.next_by(after, step),
        ensures
            after.votes_keep(),
    {
        self.lemma_step_keeps_invariant(after, step);
        assert forall|t2: u64, v: u128, term: u64, upto: int|
            #![trigger after.ballots.contains_key((t2, v)), after.vouches(v, term, upto)]
            after.ballots.contains_key((t2, v)) && term < t2 && after.vouches(v, term, upto) implies {
            &&& after.vote_logs.contains_key((t2, v))
            &&& after.kept(term, upto, after.vote_logs[(t2, v)], t2)
        } by {
            self.lemma_vouches_before(after, step, v, term, upto);
            assert(after.members.contains(v) && after.nodes[v].current_term >= t2);
            assert(self.vouches(v, term, upto));
            if self.ballots.contains_key((t2, v)) {
                self.lemma_vote_logs_stay(after, step, t2, v);
                self.lemma_kept_stays(after, step, term, upto, self.vote_logs[(t2, v)], t2, t2);
            } else {
                self.lemma_new_ballot(after, step, t2, v);
                let n = self.nodes[v];
                self.lemma_kept_stays(after, step, term, upto, n.log, n.current_term, t2);
            }
        }
    }

    /// A step keeps what electors held when they voted.
    pub proof fn lemma_electors_still_keep(self, after: Cluster, step: Step)
        requires
            self.completeness_invariant(),
            self.next_by(after, step),
        ensures
            after.electors_keep(),
    {
        let node = actor(step);
        assert(self.members.contains(node));
        self.lemma_step_keeps_invariant(after, step);
        self.lemma_step_keeps_matching(after, step);
        assert forall|t2: u64, v: u128, term: u64, upto: int|
            #![trigger after.elector(t2, v), after.vouches(v, term, upto)]
            after.elector(t2, v) && term < t2 && after.vouches(v, term, upto) implies {
            &&& after.vote_logs.contains_key((t2, v))
            &&& (after.log_led(term).take(upto).is_prefix_of(after.vote_logs[(t2, v)]) || after.lost_before(
                term,
                upto,
                t2,
            ))
        } by {
            let e = after.elected[t2];
            assert(after.election_sound(t2));
            let k = choose|k: int| 0 <= k < e.votes.len() && e.votes[k] == v;
            assert(after.ballots.contains_key((t2, e.votes[k])));
            assert(after.members.contains(v) && after.nodes[v].current_term >= t2);
            self.lemma_vouches_before(after, step, v, term, upto);
            assert(self.vouches(v, term, upto));
            self.lemma_records_grow(after, step, term);
            let p = self.log_led(term).take(upto);
            assert(after.log_led(term).take(upto) =~= p);
            if self.elected.contains_key(t2) {
                self.lemma_records_grow(after, step, t2);
                assert(self.elector(t2, v));
                assert(self.election_sound(t2));
                assert(self.ballots.contains_key((t2, e.votes[k])));
                self.lemma_vote_logs_stay(after, step, t2, v);
                if !p.is_prefix_of(self.vote_logs[(t2, v)]) {
                    let later = choose|later: u64|
                        term < later < t2 && #[trigger] self.had_leader(later) && !self.log_led(term).take(
                            upto,
                        ).is_prefix_of(self.log_led(later));
                    self.lemma_lost_stays(after, step, term, upto, later);
                    assert(term < later < t2 && after.had_leader(later));
                }
            } else {
                self.lemma_new_leaders(after, step, node);
                assert(after.leads(node) && after.nodes[node].current_term == t2);
                let w = after.vote_logs[(t2, v)];
                let by = if self.ballots.contains_key((t2, v)) {
                    t2
                } else {
                    self.nodes[v].current_term
                };
                if self.ballots.contains_key((t2, v)) {
                    self.lemma_vote_logs_stay(after, step, t2, v);
                    assert(self.kept(term, upto, self.vote_logs[(t2, v)], t2));
                } else {
                    self.lemma_new_ballot(after, step, t2, v);
                    assert(self.kept(term, upto, self.nodes[v].log, self.nodes[v].current_term));
                }
                if !p.is_prefix_of(w) {
                    let later = choose|later: u64|
                        term < later <= by && #[trigger] self.had_leader(later) && !self.log_led(term).take(
                            upto,
                        ).is_prefix_of(self.log_led(later));
                    assert(later != t2);
                    self.lemma_lost_stays(after, step, term, upto, later);
                    assert(term < later < t2 && after.had_leader(later));
                }
            }
        }
    }
}

/// Among `peers`, as many as are counted hold the entry at `index`: there
/// is a list of them, each once.
pub proof fn lemma_holders_witness(peers: Seq<u128>, match_index: Map<u128, u64>, index: u64) -> (found: Seq<
    u128,
>)
    requires
        peers.no_duplicates(),
    ensures
        found.no_duplicates(),
        found.len() == holders(peers, match_index, index),
        forall|k: int|
            0 <= k < found.len() ==> peers.contains(#[trigger] found[k]) && holds(match_index, found[k], index),
    decreases peers.len(),
{
    if peers.len() == 0 {
        Seq::empty()
    } else {
        let rest = peers.drop_last();
        let last = peers.last();
        let inner = lemma_holders_witness(rest, match_index, index);
        assert forall|k: int| 0 <= k < inner.len() implies peers.contains(#[trigger] inner[k]) && inner[k]
            != last by {
            assert(rest.contains(inner[k]));
            let i = choose|i: int| 0 <= i < rest.len() && rest[i] == inner[k];
            assert(peers[i] == inner[k]);
        }
        if holds(match_index, last, index) {
            let found = inner.push(last);
            assert(peers[peers.len() - 1] == last);
            assert forall|k: int| 0 <= k < found.len() implies peers.contains(#[trigger] found[k]) && holds(
                match_index,
                found[k],
                index,
            ) by {
                if k < inner.len() {
                    assert(found[k] == inner[k]);
                }
            }
            found
        } else {
            inner
        }
    }
}

impl Cluster {
    /// A step keeps the vote requests, the votes and the candidacies on
    /// record sound.
    pub proof fn lemma_candidacies_still_recorded(self, after: Cluster, step: Step)
        requires
            self.completeness_invariant(),
            self.next_by(after, step),
        ensures
            after.requests_genuine(),
            after.ballots_informed(),
            after.candidates_recorded(),
    {
        let node = actor(step);
        let n = self.nodes[node];
        let n2 = after.nodes[node];
        assert(self.members.contains(node));
        self.lemma_step_keeps_invariant(after, step);
        self.lemma_step_keeps_matching(after, step);
        self.lemma_ballots_stay(after, step);
        assert forall|t2: u64, c: u128| #[trigger] self.candidate_logs.contains_key((t2, c)) implies after.candidate_logs.contains_key(
            (t2, c),
        ) && after.candidate_logs[(t2, c)] == self.candidate_logs[(t2, c)] by {}
        assert forall|r: VoteRequest| #[trigger] after.requests.contains(r) implies {
            &&& after.candidate_logs.contains_key((r.term, r.candidate_id))
            &&& r.last_log_index == after.candidate_logs[(r.term, r.candidate_id)].len()
            &&& r.last_log_term == last_term(after.candidate_logs[(r.term, r.candidate_id)])
        } by {
            if self.requests.contains(r) {
                assert(self.candidate_logs.contains_key((r.term, r.candidate_id)));
            }
        }
        assert forall|t2: u64, v: u128| #[trigger] after.ballots.contains_key((t2, v)) implies {
            let c = after.ballots[(t2, v)];
            &&& after.vote_logs.contains_key((t2, v))
            &&& after.candidate_logs.contains_key((t2, c))
            &&& (v == c ==> after.vote_logs[(t2, v)] == after.candidate_logs[(t2, c)])
            &&& (v != c ==> up_to_date(
                last_term(after.candidate_logs[(t2, c)]),
                after.candidate_logs[(t2, c)].len() as u64,
                after.vote_logs[(t2, v)],
            ))
        } by {
            if self.ballots.contains_key((t2, v)) {
                self.lemma_vote_logs_stay(after, step, t2, v);
                assert(self.candidate_logs.contains_key((t2, self.ballots[(t2, v)])));
            } else {
                self.lemma_new_ballot(after, step, t2, v);
                match step {
                    Step::VoteRequested { node, request } => {
                        assert(self.requests.contains(request));
                        assert(self.candidate_logs.contains_key((request.term, request.candidate_id)));
                    },
                    _ => {},
                }
            }
        }
        assert forall|t2: u64, c: u128| #[trigger] after.candidate_logs.contains_key((t2, c)) implies {
            let x = after.candidate_logs[(t2, c)];
            &&& after.members.contains(c)
            &&& after.nodes[c].current_term >= t2
            &&& after.ballots.contains_key((t2, c))
            &&& after.ballots[(t2, c)] == c
            &&& (after.nodes[c].current_term == t2 && after.nodes[c].state == RaftState::Candidate
                ==> after.nodes[c].log == x)
            &&& (after.elected.contains_key(t2) && after.elected[t2].leader == c ==> x.is_prefix_of(
                after.log_led(t2),
            ))
            &&& x.len() < u64::MAX
            &&& forall|at: int| 0 <= at < x.len() ==> (#[trigger] x[at]).term < t2
        } by {
            let x = after.candidate_logs[(t2, c)];
            if self.candidate_logs.contains_key((t2, c)) {
                self.lemma_terms_grow(after, step, c);
                if after.elected.contains_key(t2) && after.elected[t2].leader == c {
                    if self.elected.contains_key(t2) {
                        self.lemma_records_grow(after, step, t2);
                        lemma_prefix_chain(x, self.log_led(t2), after.log_led(t2));
                    } else {
                        self.lemma_new_leaders(after, step, node);
                        assert(c == node);
                        assert(after.log_led(t2) == n2.log);
                        assert(n2.log == n.log);
                        assert(x =~= x.subrange(0, x.len() as int));
                    }
                }
            } else {
                assert(c == node);
                assert(x == n.log);
                assert(n.in_order());
                assert(x =~= x.subrange(0, x.len() as int));
                assert forall|at: int| 0 <= at < x.len() implies (#[trigger] x[at]).term < t2 by {
                    assert(x[at].term <= n.current_term);
                }
            }
        }
    }

    /// A step keeps what leaders know of their peers backed by answers.
    pub proof fn lemma_matches_still_acked(self, after: Cluster, step: Step)
        requires
            self.completeness_invariant(),
            self.next_by(after, step),
        ensures
            after.matches_acked(),
    {
        let node = actor(step);
        let n = self.nodes[node];
        assert(self.members.contains(node));
        self.lemma_step_keeps_invariant(after, step);
        assert forall|l: u128, p: u128|
            #![trigger after.leads(l), after.known_match(l, p)]
            after.leads(l) && after.nodes[l].match_index.contains_key(p) && after.known_match(l, p)
                > 0 implies after.acked(p, after.nodes[l].current_term, after.known_match(l, p) as int) by {
            let t = after.nodes[l].current_term;
            let m = after.known_match(l, p);
            self.lemma_new_leaders(after, step, l);
            if self.leads(l) && self.nodes[l].current_term == t && self.nodes[l].match_index.contains_key(p)
                && self.known_match(l, p) == m {
                assert(self.acked(p, t, m as int));
                let k = choose|k: u64|
                    m <= k && #[trigger] self.acks.contains(
                        AckSent { from: p, reply: AppendReply { term: t, success: true, match_index: k } },
                    );
                assert(after.acks.contains(
                    AckSent { from: p, reply: AppendReply { term: t, success: true, match_index: k } },
                ));
            } else {
                match step {
                    Step::AppendAnswered { node, from, reply } => {
                        n.lemma_highest_committable(n.log.len() as u64);
                        assert(l == node && p == from);
                        assert(reply.success && reply.term == t);
                        assert(m <= reply.match_index);
                        assert(reply == AppendReply { term: t, success: true, match_index: reply.match_index });
                        assert(after.acks.contains(
                            AckSent {
                                from: p,
                                reply: AppendReply { term: t, success: true, match_index: reply.match_index },
                            },
                        ));
                    },
                    Step::Proposed { node, command } => {
                        n.lemma_highest_committable(n.log.len() as u64);
                    },
                    _ => {},
                }
            }
        }
    }
}

impl Cluster {
    /// Who vouched for entries before a step vouches for them after it.
    pub proof fn lemma_vouches_stay(self, after: Cluster, step: Step, v: u128, term: u64, upto: int)
        requires
            self.completeness_invariant(),
            self.next_by(after, step),
            self.vouches(v, term, upto),
        ensures
            after.vouches(v, term, upto),
    {
        self.lemma_records_grow(after, step, term);
        if self.acked(v, term, upto) {
            let k = choose|k: u64|
                upto <= k && #[trigger] self.acks.contains(
                    AckSent { from: v, reply: AppendReply { term, success: true, match_index: k } },
                );
            assert(after.acks.contains(
                AckSent { from: v, reply: AppendReply { term, success: true, match_index: k } },
            ));
        }
    }

    /// A step keeps what leaders committed backed by a strict majority.
    pub proof fn lemma_commits_still_backed(self, after: Cluster, step: Step)
        requires
            self.completeness_invariant(),
            self.next_by(after, step),
        ensures
            after.commits_backed(),
    {
        let node = actor(step);
        let n = self.nodes[node];
        let n2 = after.nodes[node];
        assert(self.members.contains(node));
        self.lemma_step_keeps_invariant(after, step);
        self.lemma_step_keeps_matching(after, step);
        self.lemma_leader_logs_still_kept(after, step);
        self.lemma_matches_still_acked(after, step);
        assert forall|term: u64| #[trigger] after.committed.contains_key(term) implies {
            &&& after.had_leader(term)
            &&& 1 <= after.committed[term] <= after.log_led(term).len()
            &&& after.log_led(term)[after.committed[term] - 1].term == term
            &&& exists|q: Seq<u128>| #[trigger] after.commit_backed(term, q)
        } by {
            let m = after.committed[term] as int;
            if self.committed.contains_key(term) && self.committed[term] == after.committed[term] {
                self.lemma_records_grow(after, step, term);
                let q = choose|q: Seq<u128>| #[trigger] self.commit_backed(term, q);
                assert(after.log_led(term)[m - 1] == self.log_led(term)[m - 1]);
                assert forall|k: int| 0 <= k < q.len() implies after.members.contains(#[trigger] q[k])
                    && after.vouches(q[k], term, m) by {
                    self.lemma_vouches_stay(after, step, q[k], term, m);
                }
                assert(after.commit_backed(term, q));
            } else {
                assert(after.leads(node) && n2.current_term == term && n2.commit_index > n.commit_index);
                assert(m == n2.commit_index);
                self.lemma_new_leaders(after, step, node);
                assert(after.elected.contains_key(term) && after.elected[term].leader == node);
                assert(after.log_led(term) == n2.log);
                assert(n2.in_order());
                let before = match step {
                    Step::Proposed { node, command } => n.append_entry(
                        EntryView { term: n.current_term, index: (n.log.len() + 1) as u64, command },
                    ),
                    Step::AppendAnswered { node, from, reply } => {
                        let known = n.match_index[from];
                        let reported = if reply.match_index <= n.log.len() {
                            reply.match_index
                        } else {
                            n.log.len() as u64
                        };
                        let m = if reported > known {
                            reported
                        } else {
                            known
                        };
                        RaftView {
                            match_index: n.match_index.insert(from, m),
                            next_index: n.next_index.insert(from, (m + 1) as u64),
                            ..n
                        }
                    },
                    _ => n,
                };
                if step is Committed {
                    assert(n2 == n.commit(step->Committed_index));
                } else {
                    before.lemma_highest_committable(before.log.len() as u64);
                    assert(n2 == before.advance_commit());
                }
                let at = n2.commit_index;
                assert(before.committable(at));
                assert(n2.log[at - 1].term == term);
                let found = lemma_holders_witness(n2.peers, n2.match_index, at);
                let q = found.push(node);
                after.lemma_votes_from_members(node);
                assert(q.no_duplicates()) by {
                    assert forall|i: int, j: int| 0 <= i < q.len() && 0 <= j < q.len() && i != j implies q[i]
                        != q[j] by {
                        if i < found.len() {
                            assert(n2.peers.contains(found[i]));
                        }
                        if j < found.len() {
                            assert(n2.peers.contains(found[j]));
                        }
                    }
                }
                assert forall|k: int| 0 <= k < q.len() implies after.members.contains(#[trigger] q[k])
                    && after.vouches(q[k], term, m) by {
                    if k < found.len() {
                        let p = found[k];
                        assert(q[k] == p);
                        assert(n2.peers.contains(p) && holds(n2.match_index, p, at));
                        assert(n2.peers.to_set().contains(p));
                        assert(after.leads(node) && after.known_match(node, p) > 0);
                        assert(after.acked(p, term, after.known_match(node, p) as int));
                        let k2 = choose|k2: u64|
                            after.known_match(node, p) <= k2 && #[trigger] after.acks.contains(
                                AckSent { from: p, reply: AppendReply { term, success: true, match_index: k2 } },
                            );
                        assert(m <= k2);
                    }
                }
                assert(after.commit_backed(term, q));
            }
        }
    }

    /// The start of a cluster satisfies the invariant.
    pub proof fn lemma_initial_completeness(self)
        requires
            self.initial(),
        ensures
            self.completeness_invariant(),
    {
        self.lemma_initial_matching();
        assert forall|b: Seq<EntryView>| #[trigger] self.holds_log(b) implies self.rooted(b) by {
            if exists|i: u128| self.members.contains(i) && #[trigger] self.log_of(i) == b {
                let i = choose|i: u128| self.members.contains(i) && #[trigger] self.log_of(i) == b;
                assert(self.nodes[i].log.len() == 0);
            }
        }
        assert forall|v: u128, term: u64, upto: int| !#[trigger] self.vouches(v, term, upto) by {}
        assert forall|l: u128| !#[trigger] self.leads(l) by {}
    }

    /// Every step keeps the invariant.
    pub proof fn lemma_step_keeps_completeness(self, after: Cluster, step: Step)
        requires
            self.completeness_invariant(),
            self.next_by(after, step),
        ensures
            after.completeness_invariant(),
    {
        self.lemma_step_keeps_matching(after, step);
        self.lemma_leader_logs_still_kept(after, step);
        self.lemma_logs_still_rooted(after, step);
        self.lemma_messages_still_sound(after, step);
        self.lemma_holders_still_keep(after, step);
        self.lemma_votes_still_keep(after, step);
        self.lemma_electors_still_keep(after, step);
        self.lemma_candidacies_still_recorded(after, step);
        self.lemma_matches_still_acked(after, step);
        self.lemma_commits_still_backed(after, step);
    }
}

/// Leader Completeness: at every point of every run, a leader holds
/// everything that the leader of an earlier term committed, at the place
/// where it was committed.
pub proof fn leader_completeness_holds(states: Seq<Cluster>, at: int)
    requires
        crate::cluster::safety::is_run(states),
        0 <= at < states.len(),
    ensures
        states[at].completeness_invariant(),
        states[at].leader_completeness(),
    decreases at,
{
    if at == 0 {
        states[0].lemma_initial_completeness();
    } else {
        leader_completeness_holds(states, at - 1);
        assert(crate::cluster::safety::follows(states[at - 1], states[at - 1 + 1]));
        let step = choose|step: Step| #[trigger] states[at - 1].next_by(states[at], step);
        states[at - 1].lemma_step_keeps_completeness(states[at], step);
    }
    states[at].lemma_leader_completeness();
}

} // verus!
