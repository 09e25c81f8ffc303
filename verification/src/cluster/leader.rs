//! The leader's side of replication: taking commands, sending entries and
//! taking in the followers' answers.

use crate::cluster::consensus::{
    contains_id, lemma_push_well_formed, AppendReply, AppendRequest, RaftNode, RaftState,
};
use crate::cluster::log::{log_view, LogEntry};
use vstd::prelude::*;

verus! {

broadcast use vstd::std_specs::hash::group_hash_axioms;

impl RaftNode {
    /// Takes a client's command into the log of a leader, at the next
    /// position and in the leader's term, and returns that position. The
    /// command is committed at once where the leader alone is a majority. A
    /// node that does not lead, or whose log cannot grow, returns `None` and
    /// stays as it was.
    pub fn propose(&mut self, command: Vec<u8>) -> (position: Option<u64>)
        requires
            old(self)@.wf(),
        ensures
            final(self)@.wf(),
            old(self)@.in_order() ==> final(self)@.in_order(),
            position is Some <==> old(self)@.can_propose(),
            position matches Some(index) ==> index == old(self)@.log.len() + 1 && final(self)@ == old(
                self,
            )@.propose(command@),
            position is None ==> final(self)@ == old(self)@,
    {
        if self.state != RaftState::Leader {
            return None;
        }
        let len = self.log.len() as u64;
        if len >= u64::MAX - 1 {
            return None;
        }
        let ghost before = self@;
        let entry = LogEntry { term: self.current_term, index: len + 1, command };
        let ghost e = entry@;
        self.log.push(entry);
        proof {
            assert(self@.log =~= before.log.push(e));
            if before.in_order() {
                if before.log.len() > 0 {
                    assert(before.log[before.log.len() - 1].term <= before.current_term);
                }
                lemma_push_well_formed(before.log, e, before.current_term);
            }
            assert(self@ == before.append_entry(e));
        }
        self.advance_commit_index();
        Some(len + 1)
    }

    /// What a leader sends to `peer` next: the entries from the peer's next
    /// index on, at most `max_entries` of them (none makes a heartbeat). A
    /// node that does not lead `peer` has nothing to send.
    pub fn append_entries_for(&self, peer: u128, max_entries: usize) -> (request: Option<AppendRequest>)
        requires
            self@.wf(),
        ensures
            request is Some <==> self@.leads(peer),
            request matches Some(r) ==> r@ == self@.append_request_for(peer, max_entries as nat),
    {
        if self.state != RaftState::Leader || !contains_id(&self.peers, peer) {
            return None;
        }
        let next = match self.next_index.get(&peer) {
            Some(n) => *n,
            None => 1,
        };
        let prev = next - 1;
        let len = self.log.len();
        let start = prev as usize;
        let end = if max_entries < len - start {
            start + max_entries
        } else {
            len
        };
        let mut entries: Vec<LogEntry> = Vec::new();
        let mut k: usize = start;
        while k < end
            invariant
                start <= k <= end <= self.log.len(),
                log_view(entries@) == self@.log.subrange(start as int, k as int),
            decreases end - k,
        {
            let ghost so_far = log_view(entries@);
            let e = self.log[k].clone();
            entries.push(e);
            proof {
                assert(e@ == self@.log[k as int]);
                assert(log_view(entries@) =~= so_far.push(e@));
                assert(so_far.push(e@) =~= self@.log.subrange(start as int, k + 1));
            }
            k = k + 1;
        }
        let prev_log_term = self.term_at(prev);
        Some(
            AppendRequest {
                term: self.current_term,
                leader_id: self.node_id,
                prev_log_index: prev,
                prev_log_term,
                entries,
                leader_commit: self.commit_index,
            },
        )
    }

    /// Takes in the answer of `from` to an append request. A later term
    /// makes the node a follower. A leader raises, on a success, what it
    /// knows `from` to hold and moves its commit index as far as a strict
    /// majority allows; on a refusal it steps the next index of `from` back
    /// by one, to retry with an earlier entry. Answers of other terms and of
    /// unknown nodes are dropped.
    pub fn handle_append_reply(&mut self, from: u128, reply: &AppendReply)
        requires
            old(self)@.wf(),
        ensures
            final(self)@.wf(),
            old(self)@.in_order() ==> final(self)@.in_order(),
            final(self)@ == old(self)@.handle_append_reply(from, *reply),
    {
        if reply.term > self.current_term {
            self.become_follower(reply.term);
            return ;
        }
        if self.state != RaftState::Leader || reply.term != self.current_term || !contains_id(
            &self.peers,
            from,
        ) {
            return ;
        }
        let ghost before = self@;
        let known = match self.match_index.get(&from) {
            Some(m) => *m,
            None => 0,
        };
        if reply.success {
            let len = self.log.len() as u64;
            let reported = if reply.match_index <= len {
                reply.match_index
            } else {
                len
            };
            let m = if reported > known {
                reported
            } else {
                known
            };
            self.match_index.insert(from, m);
            self.next_index.insert(from, m + 1);
            proof {
                assert(self@.wf()) by {
                    assert forall|p: u128| #[trigger] self@.peers.contains(p) implies {
                        &&& self@.next_index.contains_key(p)
                        &&& self@.match_index.contains_key(p)
                        &&& 1 <= self@.next_index[p] <= self@.log.len() + 1
                        &&& self@.match_index[p] <= self@.log.len()
                    } by {
                        assert(before.peers.contains(p));
                    }
                }
            }
            self.advance_commit_index();
        } else {
            let n = match self.next_index.get(&from) {
                Some(n) => *n,
                None => 1,
            };
            let back = if n - 1 > known {
                n - 1
            } else {
                known + 1
            };
            self.next_index.insert(from, back);
            proof {
                assert(self@.wf()) by {
                    assert forall|p: u128| #[trigger] self@.peers.contains(p) implies {
                        &&& self@.next_index.contains_key(p)
                        &&& self@.match_index.contains_key(p)
                        &&& 1 <= self@.next_index[p] <= self@.log.len() + 1
                        &&& self@.match_index[p] <= self@.log.len()
                    } by {
                        assert(before.peers.contains(p));
                    }
                }
            }
        }
    }
}

} // verus!
