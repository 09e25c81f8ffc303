//! State machine safety across the cluster: what two nodes hold as
//! committed is the same, so what they apply is the same.

use crate::cluster::completeness::{lemma_merged_holds, lemma_prefix_chain};
use crate::cluster::consensus::{RaftState, RaftView};
use crate::cluster::log::{logs_match, EntryView};
use crate::cluster::matching::{actor, taken_from};
use crate::cluster::safety::{committed_entries_stay, follows, is_run, AppendSent, Cluster, Step};
use crate::cluster::state::{state_machine_safety, ClusterStateView};
use vstd::prelude::*;

verus! {

impl Cluster {
    /// Whether the first `upto` entries of `log` are entries that the
    /// leader of `term` committed.
    pub open spec fn settled_by(self, term: u64, upto: int, log: Seq<EntryView>) -> bool {
        &&& self.committed.contains_key(term)
        &&& upto <= self.committed[term]
        &&& self.log_led(term).take(upto).is_prefix_of(log)
    }

    /// Whether some leader of a term up to `by` committed the first `upto`
    /// entries of `log`.
    pub open spec fn settled(self, upto: int, log: Seq<EntryView>, by: u64) -> bool {
        upto <= 0 || exists|term: u64| term <= by && #[trigger] self.settled_by(term, upto, log)
    }

    /// What a node holds as committed was committed by a leader.
    pub open spec fn commits_known(self) -> bool {
        forall|i: u128| #[trigger]
            self.members.contains(i) ==> self.settled(
                self.nodes[i].commit_index as int,
                self.nodes[i].log,
                self.nodes[i].current_term,
            )
    }

    /// What a request tells as committed was committed by a leader.
    pub open spec fn sent_commits_known(self) -> bool {
        forall|s: AppendSent| #[trigger]
            self.sent.contains(s) ==> s.request.leader_commit <= s.log.len() && self.settled(
                s.request.leader_commit as int,
                s.log,
                s.request.term,
            )
    }

    /// A leader holds as committed, while it leads, all that is on record
    /// as committed by it.
    pub open spec fn leaders_ahead(self) -> bool {
        forall|term: u64| #[trigger]
            self.committed.contains_key(term) ==> self.elected.contains_key(term) && (self.leads(
                self.elected[term].leader,
            ) && self.nodes[self.elected[term].leader].current_term == term
                ==> self.nodes[self.elected[term].leader].commit_index >= self.committed[term])
    }

    /// What holds of every cluster that can be reached from its start.
    pub open spec fn agreement_invariant(self) -> bool {
        &&& self.completeness_invariant()
        &&& self.commits_known()
        &&& self.sent_commits_known()
        &&& self.leaders_ahead()
    }

    /// Any two nodes hold the same entries wherever both hold them as
    /// committed.
    pub open spec fn commits_agree(self) -> bool {
        forall|i: u128, j: u128, k: int|
            #![trigger self.log_of(i).take(k), self.log_of(j).take(k)]
            self.members.contains(i) && self.members.contains(j) && 0 <= k <= self.nodes[i].commit_index && k
                <= self.nodes[j].commit_index ==> self.log_of(i).take(k) == self.log_of(j).take(k)
    }

    /// What was settled before a step is settled after it, in a log that
    /// still begins with it and up to a term that did not go back.
    pub proof fn lemma_settled_stays(
        self,
        after: Cluster,
        step: Step,
        upto: int,
        log: Seq<EntryView>,
        by: u64,
        then_log: Seq<EntryView>,
        then: u64,
    )
        requires
            self.agreement_invariant(),
            self.next_by(after, step),
            self.settled(upto, log, by),
            by <= then,
            upto <= log.len(),
            upto <= then_log.len(),
            upto > 0 ==> log.take(upto) == then_log.take(upto),
        ensures
            after.settled(upto, then_log, then),
    {
        if upto > 0 {
            let term = choose|term: u64| term <= by && #[trigger] self.settled_by(term, upto, log);
            assert(self.committed.contains_key(term));
            assert(self.had_leader(term));
            self.lemma_records_grow(after, step, term);
            self.lemma_committed_grows(after, step, term);
            let p = self.log_led(term).take(upto);
            assert(after.log_led(term).take(upto) =~= p);
            assert(p =~= log.take(upto));
            assert(p =~= then_log.subrange(0, upto));
            assert(after.settled_by(term, upto, then_log));
        }
    }

    /// What a leader has on record as committed never shrinks.
    pub proof fn lemma_committed_grows(self, after: Cluster, step: Step, term: u64)
        requires
            self.agreement_invariant(),
            self.next_by(after, step),
            self.committed.contains_key(term),
        ensures
            after.committed.contains_key(term),
            after.committed[term] >= self.committed[term],
    {
        let node = actor(step);
        assert(self.members.contains(node));
        self.lemma_step_keeps_invariant(after, step);
        if after.committed[term] != self.committed[term] {
            self.lemma_new_leaders(after, step, node);
            assert(after.leads(node) && after.nodes[node].current_term == term);
            assert(self.elected.contains_key(term) && self.elected[term].leader == node);
        }
    }

    /// The start of a cluster satisfies the invariant.
    pub proof fn lemma_initial_agreement(self)
        requires
            self.initial(),
        ensures
            self.agreement_invariant(),
    {
        self.lemma_initial_completeness();
    }

    /// Every step keeps the invariant.
    pub proof fn lemma_step_keeps_agreement(self, after: Cluster, step: Step)
        requires
            self.agreement_invariant(),
            self.next_by(after, step),
        ensures
            after.agreement_invariant(),
    {
        let node = actor(step);
        let n = self.nodes[node];
        let n2 = after.nodes[node];
        assert(self.members.contains(node));
        self.lemma_step_keeps_completeness(after, step);
        self.lemma_step_keeps_invariant(after, step);
        assert(after.leaders_ahead()) by {
            assert forall|term: u64| #[trigger] after.committed.contains_key(term) implies after.elected.contains_key(
                term,
            ) && (after.leads(after.elected[term].leader) && after.nodes[after.elected[term].leader].current_term
                == term ==> after.nodes[after.elected[term].leader].commit_index >= after.committed[term]) by {
                if self.committed.contains_key(term) && self.committed[term] == after.committed[term] {
                    let l = self.elected[term].leader;
                    self.lemma_records_grow(after, step, term);
                    if after.leads(l) && after.nodes[l].current_term == term {
                        if !(self.leads(l) && self.nodes[l].current_term == term) {
                            self.lemma_fresh_term(after, step, l);
                        }
                        committed_entries_stay(self, after, step, l);
                    }
                } else {
                    self.lemma_new_leaders(after, step, node);
                    assert(after.leads(node) && n2.current_term == term);
                    assert(after.elected.contains_key(term) && after.elected[term].leader == node);
                }
            }
        }
        assert(after.commits_known()) by {
            assert forall|i: u128| #[trigger] after.members.contains(i) implies after.settled(
                after.nodes[i].commit_index as int,
                after.nodes[i].log,
                after.nodes[i].current_term,
            ) by {
                let a = self.nodes[i];
                let b = after.nodes[i];
                committed_entries_stay(self, after, step, i);
                self.lemma_terms_grow(after, step, i);
                assert(a.in_order() && b.in_order());
                if b.commit_index == a.commit_index {
                    self.lemma_settled_stays(
                        after,
                        step,
                        a.commit_index as int,
                        a.log,
                        a.current_term,
                        b.log,
                        b.current_term,
                    );
                } else {
                    assert(i == node);
                    let c = b.commit_index as int;
                    if after.leads(node) {
                        let term = b.current_term;
                        self.lemma_new_leaders(after, step, node);
                        assert(after.committed.contains_key(term) && after.committed[term] == c);
                        assert(after.elected.contains_key(term) && after.elected[term].leader == node);
                        assert(after.log_led(term) == b.log);
                        assert(b.log.take(c) =~= b.log.subrange(0, c));
                        assert(after.settled_by(term, c, b.log));
                    } else {
                        match step {
                            Step::AppendRequested { node, message } => {
                                let r = message.request;
                                let l = message.log;
                                assert(a.hears_leader(r.term) && a.takes_entries(r));
                                assert(taken_from(message));
                                assert(self.holds_log(l));
                                assert(self.holds_log(a.log)) by {
                                    assert(self.log_of(node) == a.log);
                                }
                                assert(logs_match(a.log, l));
                                lemma_merged_holds(a.log, l, r.prev_log_index as int, r.entries);
                                let upper = r.prev_log_index + r.entries.len();
                                assert(c <= r.leader_commit && c <= upper);
                                assert(self.settled(r.leader_commit as int, l, r.term));
                                let term = choose|term: u64|
                                    term <= r.term && #[trigger] self.settled_by(term, r.leader_commit as int, l);
                                self.lemma_records_grow(after, step, term);
                                self.lemma_committed_grows(after, step, term);
                                let p = self.log_led(term).take(c);
                                assert(after.log_led(term).take(c) =~= p);
                                assert(p =~= self.log_led(term).take(r.leader_commit as int).take(c));
                                assert(p =~= l.take(c));
                                assert(l.take(c) =~= l.take(upper).take(c));
                                assert(b.log.take(c) =~= b.log.take(upper).take(c));
                                assert(p =~= b.log.subrange(0, c));
                                assert(after.settled_by(term, c, b.log));
                            },
                            _ => {},
                        }
                    }
                }
            }
        }
        assert(after.sent_commits_known()) by {
            assert forall|s: AppendSent| #[trigger] after.sent.contains(s) implies s.request.leader_commit
                <= s.log.len() && after.settled(s.request.leader_commit as int, s.log, s.request.term) by {
                if self.sent.contains(s) {
                    self.lemma_settled_stays(
                        after,
                        step,
                        s.request.leader_commit as int,
                        s.log,
                        s.request.term,
                        s.log,
                        s.request.term,
                    );
                } else {
                    assert(s.log == n.log && s.request.leader_commit == n.commit_index && s.request.term
                        == n.current_term);
                    assert(n.in_order());
                    self.lemma_settled_stays(
                        after,
                        step,
                        n.commit_index as int,
                        n.log,
                        n.current_term,
                        n.log,
                        n.current_term,
                    );
                }
            }
        }
    }

    /// In a cluster that satisfies the invariant, any two nodes hold the
    /// same entries wherever both hold them as committed.
    pub proof fn lemma_commits_agree(self)
        requires
            self.agreement_invariant(),
        ensures
            self.commits_agree(),
    {
        assert forall|i: u128, j: u128, k: int|
            #![trigger self.log_of(i).take(k), self.log_of(j).take(k)]
            self.members.contains(i) && self.members.contains(j) && 0 <= k <= self.nodes[i].commit_index && k
                <= self.nodes[j].commit_index implies self.log_of(i).take(k) == self.log_of(j).take(k) by {
            if k > 0 {
                let a = self.nodes[i];
                let b = self.nodes[j];
                assert(a.in_order() && b.in_order());
                let ta = choose|t: u64|
                    t <= a.current_term && #[trigger] self.settled_by(t, a.commit_index as int, a.log);
                let tb = choose|t: u64|
                    t <= b.current_term && #[trigger] self.settled_by(t, b.commit_index as int, b.log);
                let la = self.log_led(ta);
                let lb = self.log_led(tb);
                assert(a.log.take(k) =~= la.take(a.commit_index as int).take(k));
                assert(b.log.take(k) =~= lb.take(b.commit_index as int).take(k));
                assert(la.take(a.commit_index as int).take(k) =~= la.take(k));
                assert(lb.take(b.commit_index as int).take(k) =~= lb.take(k));
                if ta < tb {
                    assert(self.had_leader(tb));
                    self.lemma_complete(ta, tb);
                    assert(la.take(k) =~= la.take(self.committed[ta] as int).take(k));
                    assert(la.take(k) =~= lb.take(k));
                } else if tb < ta {
                    assert(self.had_leader(ta));
                    self.lemma_complete(tb, ta);
                    assert(lb.take(k) =~= lb.take(self.committed[tb] as int).take(k));
                    assert(la.take(k) =~= lb.take(k));
                }
            } else {
                assert(self.log_of(i).take(k) =~= self.log_of(j).take(k));
            }
        }
    }
}

/// State Machine Safety across the cluster: at every point of every run,
/// any two nodes hold the same entries wherever both hold them as committed,
/// so that what they apply, from the same state, leaves them in the same
/// state.
pub proof fn replicas_agree(states: Seq<Cluster>, at: int)
    requires
        is_run(states),
        0 <= at < states.len(),
    ensures
        states[at].agreement_invariant(),
        states[at].commits_agree(),
        forall|i: u128, j: u128, k: int, start: ClusterStateView|
            #![trigger start.replay(states[at].log_of(i), 0, k), start.replay(states[at].log_of(j), 0, k)]
            states[at].members.contains(i) && states[at].members.contains(j) && 0 <= k
                <= states[at].nodes[i].commit_index && k <= states[at].nodes[j].commit_index ==> start.replay(
                states[at].log_of(i),
                0,
                k,
            ) == start.replay(states[at].log_of(j), 0, k),
    decreases at,
{
    if at == 0 {
        states[0].lemma_initial_agreement();
    } else {
        replicas_agree(states, at - 1);
        assert(follows(states[at - 1], states[at - 1 + 1]));
        let step = choose|step: Step| #[trigger] states[at - 1].next_by(states[at], step);
        states[at - 1].lemma_step_keeps_agreement(states[at], step);
    }
    let c = states[at];
    c.lemma_commits_agree();
    assert forall|i: u128, j: u128, k: int, start: ClusterStateView|
        #![trigger start.replay(c.log_of(i), 0, k), start.replay(c.log_of(j), 0, k)]
        c.members.contains(i) && c.members.contains(j) && 0 <= k <= c.nodes[i].commit_index && k
            <= c.nodes[j].commit_index implies start.replay(c.log_of(i), 0, k) == start.replay(
        c.log_of(j),
        0,
        k,
    ) by {
        assert(c.nodes[i].in_order() && c.nodes[j].in_order());
        assert(c.log_of(i).take(k) == c.log_of(j).take(k));
        state_machine_safety(start, c.log_of(i), c.log_of(j), k);
    }
}

} // verus!
