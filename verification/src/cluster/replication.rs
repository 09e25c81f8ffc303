//! The follower's side of replication, and how a leader moves its commit
//! index.

use crate::cluster::consensus::{
    holders, holds, quorum_of, AppendReply, AppendRequest, RaftNode, RaftState, RaftStatus, RaftView,
};
use crate::cluster::log::{
    agrees_at, batch_well_formed, divergence, lemma_divergence_bounds, lemma_merged_well_formed, log_view,
    merged, term_at, terms_sorted, LogEntry,
};
use vstd::prelude::*;

verus! {

broadcast use vstd::std_specs::hash::group_hash_axioms;

/// Whether the entries of `request` can follow the position it names: see
/// [`batch_well_formed`].
pub fn check_batch(request: &AppendRequest) -> (ok: bool)
    ensures
        ok == batch_well_formed(
            request@.prev_log_index,
            request@.prev_log_term,
            request@.term,
            request@.entries,
        ),
{
    let n = request.entries.len();
    let ghost es = request@.entries;
    if request.prev_log_term > request.term {
        return false;
    }
    if n as u64 >= u64::MAX - request.prev_log_index {
        return false;
    }
    let mut k: usize = 0;
    let mut floor: u64 = request.prev_log_term;
    while k < n
        invariant
            k <= n,
            n == request.entries@.len(),
            es == log_view(request.entries@),
            request.prev_log_index + n < u64::MAX,
            request.prev_log_term <= floor <= request.term,
            k > 0 ==> floor == es[k - 1].term,
            k == 0 ==> floor == request.prev_log_term,
            forall|i: int| 0 <= i < k ==> (#[trigger] es[i]).index == request.prev_log_index + i + 1,
            forall|i: int| 0 <= i < k ==> request.prev_log_term <= (#[trigger] es[i]).term <= request.term,
            forall|i: int, j: int| 0 <= i <= j < k ==> (#[trigger] es[i]).term <= (#[trigger] es[j]).term,
        decreases n - k,
    {
        let e = &request.entries[k];
        assert(e@ == es[k as int]);
        if e.index != request.prev_log_index + k as u64 + 1 {
            return false;
        }
        if e.term < floor || e.term > request.term {
            proof {
                if e.term > request.term {
                    assert(es[k as int].term > request.term);
                } else if k > 0 {
                    assert(es[k - 1].term > es[k as int].term);
                    assert(!terms_sorted(es));
                } else {
                    assert(es[0].term < request.prev_log_term);
                }
            }
            return false;
        }
        proof {
            assert forall|i: int, j: int| 0 <= i <= j < k + 1 implies (#[trigger] es[i]).term <= (
            #[trigger] es[j]).term by {
                if j == k && i < k {
                    assert(es[i].term <= es[k - 1].term);
                }
            }
        }
        floor = e.term;
        k = k + 1;
    }
    true
}

/// The first entry of `entries` that `log` does not hold with the same term
/// at the position behind `prev_index` that it is meant for.
pub fn first_divergence(log: &Vec<LogEntry>, prev_index: usize, entries: &Vec<LogEntry>) -> (a: usize)
    requires
        prev_index <= log.len(),
    ensures
        a <= entries.len(),
        a == divergence(log_view(log@), prev_index as int, log_view(entries@), 0),
{
    let ghost l = log_view(log@);
    let ghost es = log_view(entries@);
    let mut a: usize = 0;
    while a < entries.len()
        invariant
            a <= entries.len(),
            prev_index <= log.len(),
            l == log_view(log@),
            es == log_view(entries@),
            divergence(l, prev_index as int, es, 0) == divergence(l, prev_index as int, es, a as int),
        decreases entries.len() - a,
    {
        if a >= log.len() - prev_index {
            assert(!agrees_at(l, prev_index as int, es, a as int));
            return a;
        }
        if log[prev_index + a].term != entries[a].term {
            assert(!agrees_at(l, prev_index as int, es, a as int));
            return a;
        }
        assert(agrees_at(l, prev_index as int, es, a as int));
        a = a + 1;
    }
    a
}

impl RaftView {
    /// What [`RaftView::highest_committable`] finds: a position between the
    /// commit index and `upto` that is committable if it is past the commit
    /// index, and that no committable position up to `upto` exceeds.
    pub proof fn lemma_highest_committable(self, upto: u64)
        ensures
            self.commit_index <= self.highest_committable(upto),
            self.highest_committable(upto) <= upto || self.highest_committable(upto) == self.commit_index,
            self.highest_committable(upto) > self.commit_index ==> self.committable(
                self.highest_committable(upto),
            ),
            forall|n: u64| n <= upto && self.committable(n) ==> n <= self.highest_committable(upto),
        decreases upto,
    {
        if upto > self.commit_index && !self.committable(upto) {
            self.lemma_highest_committable((upto - 1) as u64);
        }
    }
}

impl RaftNode {
    /// What the node shows of itself: role, term, commit index and the
    /// leader it knows of.
    pub fn status(&self) -> (status: RaftStatus)
        ensures
            status == self@.status(),
    {
        RaftStatus {
            role: self.state,
            term: self.current_term,
            commit_index: self.commit_index,
            leader_id: self.leader_id,
        }
    }

    /// Answers an append request (or heartbeat). A request of an earlier
    /// term, or of the term this node leads, is refused with the node
    /// unchanged. Otherwise the node follows the sender; it takes the entries
    /// if they continue its log at the named position, replacing what
    /// disagrees with them, and moves its commit index as far as the leader's
    /// and the new entries allow.
    pub fn handle_append_entries(&mut self, request: &AppendRequest) -> (reply: AppendReply)
        requires
            old(self)@.wf(),
        ensures
            final(self)@.wf(),
            old(self)@.in_order() ==> final(self)@.in_order(),
            final(self)@ == old(self)@.handle_append_entries(request@).0,
            reply == old(self)@.handle_append_entries(request@).1,
    {
        let ghost before = self@;
        if request.term < self.current_term || (request.term == self.current_term && self.state
            == RaftState::Leader) {
            return AppendReply { term: self.current_term, success: false, match_index: 0 };
        }
        self.become_follower(request.term);
        self.state = RaftState::Follower;
        self.votes_received = Vec::new();
        self.leader_id = Some(request.leader_id);
        proof {
            assert(self@.votes =~= Seq::empty());
            assert(self@ == before.follow(request.term, request.leader_id));
        }
        let refusal = AppendReply { term: request.term, success: false, match_index: 0 };
        if !check_batch(request) {
            return refusal;
        }
        if request.prev_log_index > self.log.len() as u64 {
            return refusal;
        }
        if self.term_at(request.prev_log_index) != request.prev_log_term {
            return refusal;
        }
        let prev = request.prev_log_index as usize;
        let n = request.entries.len();
        let a = first_divergence(&self.log, prev, &request.entries);
        let ghost es = request@.entries;
        proof {
            lemma_divergence_bounds(before.log, prev as int, es, 0);
            lemma_merged_well_formed(
                before.log,
                request.prev_log_index,
                request.prev_log_term,
                request.term,
                es,
            );
            if a > 0 {
                assert(agrees_at(before.log, prev as int, es, a - 1));
            }
        }
        if a < n {
            if ((prev + a) as u64) < self.commit_index {
                return refusal;
            }
            let ghost mid = self@;
            self.log.truncate(prev + a);
            proof {
                assert(log_view(self.log@) =~= before.log.take(prev + a));
            }
            let mut k: usize = a;
            while k < n
                invariant
                    a <= k <= n,
                    self@ == (RaftView { log: self@.log, ..mid }),
                    n == request.entries@.len(),
                    es == log_view(request.entries@),
                    log_view(self.log@) == before.log.take(prev + a) + es.subrange(a as int, k as int),
                    prev + a <= before.log.len(),
                decreases n - k,
            {
                let ghost so_far = log_view(self.log@);
                let e = request.entries[k].clone();
                self.log.push(e);
                proof {
                    assert(e@ == es[k as int]);
                    assert(log_view(self.log@) =~= so_far.push(e@));
                    assert(es.subrange(a as int, k + 1) =~= es.subrange(a as int, k as int).push(es[k as int]));
                    assert(so_far.push(e@) =~= before.log.take(prev + a) + es.subrange(a as int, k + 1));
                }
                k = k + 1;
            }
            proof {
                assert(es.subrange(a as int, n as int) =~= es.skip(a as int));
            }
        }
        proof {
            assert(self@.log == merged(before.log, prev as int, es));
        }
        let last_new: u64 = request.prev_log_index + n as u64;
        let reach = if request.leader_commit < last_new {
            request.leader_commit
        } else {
            last_new
        };
        self.learn_commit(reach);
        AppendReply { term: request.term, success: true, match_index: last_new }
    }

    /// How many peers are known to hold the entry at `index`.
    pub fn count_holders(&self, index: u64) -> (count: usize)
        ensures
            count == holders(self@.peers, self@.match_index, index),
            count <= self@.peers.len(),
    {
        let mut count: usize = 0;
        let mut i: usize = 0;
        while i < self.peers.len()
            invariant
                i <= self.peers.len(),
                count <= i,
                count == holders(self@.peers.take(i as int), self@.match_index, index),
            decreases self.peers.len() - i,
        {
            let p = self.peers[i];
            let held = match self.match_index.get(&p) {
                Some(m) => *m >= index,
                None => false,
            };
            proof {
                let next = self@.peers.take(i + 1);
                assert(next.drop_last() =~= self@.peers.take(i as int));
                assert(next.last() == p);
                assert(held == holds(self@.match_index, p, index));
            }
            if held {
                count = count + 1;
            }
            i = i + 1;
        }
        proof {
            assert(self@.peers.take(i as int) =~= self@.peers);
        }
        count
    }

    /// Whether the leader may commit the entry at `index`.
    pub fn is_committable(&self, index: u64) -> (ok: bool)
        requires
            self@.wf(),
        ensures
            ok == self@.committable(index),
    {
        if self.state != RaftState::Leader {
            return false;
        }
        if index <= self.commit_index || index > self.log.len() as u64 {
            return false;
        }
        if self.log[(index - 1) as usize].term != self.current_term {
            return false;
        }
        assert(self@.log[index - 1] == self.log@[index - 1]@);
        let count = self.count_holders(index);
        count >= quorum_of(self.peers.len()) - 1
    }

    /// A leader moves its commit index to the highest position whose entry
    /// is of its own term and is held by a strict majority; entries before it
    /// are committed with it. Other nodes are left as they are.
    pub fn advance_commit_index(&mut self)
        requires
            old(self)@.wf(),
        ensures
            final(self)@.wf(),
            old(self)@.in_order() ==> final(self)@.in_order(),
            final(self)@ == old(self)@.advance_commit(),
            final(self)@.commit_index >= old(self)@.commit_index,
            final(self)@.commit_index > old(self)@.commit_index ==> old(self)@.committable(
                final(self)@.commit_index,
            ),
            forall|n: u64| old(self)@.committable(n) ==> n <= final(self)@.commit_index,
    {
        let ghost before = self@;
        proof {
            before.lemma_highest_committable(before.log.len() as u64);
        }
        if self.state != RaftState::Leader {
            return ;
        }
        let mut n: u64 = self.log.len() as u64;
        while n > self.commit_index
            invariant
                self@ == before,
                old(self)@ == before,
                before.wf(),
                before.state == RaftState::Leader,
                before.commit_index <= n <= before.log.len(),
                n <= self.log.len(),
                before.highest_committable(before.log.len() as u64) == before.highest_committable(n),
            decreases n,
        {
            if self.is_committable(n) {
                proof {
                    before.lemma_highest_committable(before.log.len() as u64);
                }
                self.commit_index = n;
                return ;
            }
            n = n - 1;
        }
    }
}

} // verus!
