//! Bringing a joining node up to date before it votes.

use crate::cluster::consensus::{AppendRequest, AppendRequestView, RaftNode, RaftState, RaftView};
use crate::cluster::log::{log_view, term_at, LogEntry};
use vstd::prelude::*;

verus! {

impl RaftView {
    /// Whether this node can bring a node that holds the first `have`
    /// entries up to date: it leads, and its log reaches that far.
    pub open spec fn can_catch_up(self, have: u64) -> bool {
        self.state == RaftState::Leader && have <= self.log.len()
    }

    /// What a leader sends to a node that holds the first `have` entries
    /// of its log and does not vote yet: at most `max_entries` of the entries
    /// that follow.
    pub open spec fn catch_up_request(self, have: u64, max_entries: nat) -> AppendRequestView {
        let end = if have + max_entries < self.log.len() {
            have + max_entries
        } else {
            self.log.len() as int
        };
        AppendRequestView {
            term: self.current_term,
            leader_id: self.node_id,
            prev_log_index: have,
            prev_log_term: term_at(self.log, have as int),
            entries: self.log.subrange(have as int, end),
            leader_commit: self.commit_index,
        }
    }
}

impl RaftNode {
    /// What a leader sends to a joining node that holds the first `have`
    /// entries of its log: at most `max_entries` of the entries that follow.
    /// A node that does not lead, or whose log is shorter, has nothing to
    /// send.
    pub fn catch_up_request(&self, have: u64, max_entries: usize) -> (request: Option<AppendRequest>)
        requires
            self@.wf(),
        ensures
            request is Some <==> self@.can_catch_up(have),
            request matches Some(r) ==> r@ == self@.catch_up_request(have, max_entries as nat),
    {
        let len = self.log.len();
        if self.state != RaftState::Leader || have > len as u64 {
            return None;
        }
        let start = have as usize;
        let end = if max_entries < len - start {
            start + max_entries
        } else {
            len
        };
        let mut entries: Vec<LogEntry> = Vec::new();
        let mut k: usize = start;
        while k < end
            invariant
                start <= k <= end <= self.log.len(),
                log_view(entries@) == self@.log.subrange(start as int, k as int),
            decreases end - k,
        {
            let ghost so_far = log_view(entries@);
            let e = self.log[k].clone();
            entries.push(e);
            proof {
                assert(e@ == self@.log[k as int]);
                assert(log_view(entries@) =~= so_far.push(e@));
                assert(so_far.push(e@) =~= self@.log.subrange(start as int, k + 1));
            }
            k = k + 1;
        }
        let prev_log_term = self.term_at(have);
        Some(
            AppendRequest {
                term: self.current_term,
                leader_id: self.node_id,
                prev_log_index: have,
                prev_log_term,
                entries,
                leader_commit: self.commit_index,
            },
        )
    }
}

} // verus!
