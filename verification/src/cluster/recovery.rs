//! Coming back from what was kept on disk, and what is left to act on.

use crate::cluster::command::{decode_command, Command};
use crate::cluster::consensus::{RaftNode, RaftState, RaftView};
use crate::cluster::error::ClusterError;
use crate::cluster::log::{gap_free, log_view, terms_bounded, terms_sorted, EntryView, LogEntry};
use std::collections::HashMap;
use vstd::prelude::*;
use vstd::string::*;

verus! {

broadcast use vstd::std_specs::hash::group_hash_axioms;

/// Whether a log that was kept on disk can be trusted: it has no gap, its
/// terms never decrease, and none of them is later than `term`.
pub open spec fn log_intact(log: Seq<EntryView>, term: u64) -> bool {
    &&& log.len() < u64::MAX
    &&& gap_free(log)
    &&& terms_sorted(log)
    &&& terms_bounded(log, term)
}

/// The commands of the entries at positions `from + 1` to `to`, each with
/// its position; entries that hold no command are left out.
pub open spec fn commands_between(log: Seq<EntryView>, from: int, to: int) -> Seq<(u64, Command)>
    decreases to - from,
{
    if from >= to {
        Seq::empty()
    } else {
        match decode_command(log[to - 1].command) {
            Some(command) => commands_between(log, from, to - 1).push((log[to - 1].index, command)),
            None => commands_between(log, from, to - 1),
        }
    }
}

impl RaftView {
    /// What a node finds on disk after it stopped: its term, its vote and
    /// its log, and nothing else of what it knew.
    pub open spec fn restored(self) -> RaftView {
        RaftView {
            current_term: self.current_term,
            voted_for: self.voted_for,
            log: self.log,
            ..RaftView::initial(self.node_id)
        }
    }

    /// Whether `fresh` is this node after it stopped and came back: brought
    /// back from disk and told of the same peers again.
    pub open spec fn restarted_as(self, fresh: RaftView) -> bool {
        &&& fresh.in_order()
        &&& fresh.peers.to_set() == self.peers.to_set()
        &&& fresh == (RaftView {
            peers: fresh.peers,
            next_index: fresh.next_index,
            match_index: fresh.match_index,
            ..self.restored()
        })
    }
}

/// A node can always stop and come back: what it keeps on disk, with the
/// peers it knew, is a node in good order.
pub proof fn lemma_restart_possible(node: RaftView)
    requires
        node.in_order(),
    ensures
        node.restarted_as(RaftView { peers: node.peers, ..node.restored() }),
        log_intact(node.log, node.current_term),
{
}

/// Whether the log is intact: see [`log_intact`].
pub fn check_log(log: &Vec<LogEntry>, term: u64) -> (ok: bool)
    ensures
        ok == log_intact(log_view(log@), term),
{
    let n = log.len();
    let ghost l = log_view(log@);
    if n as u64 == u64::MAX {
        return false;
    }
    let mut i: usize = 0;
    let mut floor: u64 = 0;
    while i < n
        invariant
            i <= n,
            n == log@.len(),
            l == log_view(log@),
            i > 0 ==> floor == l[i - 1].term,
            i == 0 ==> floor == 0,
            forall|k: int| 0 <= k < i ==> (#[trigger] l[k]).index == k + 1,
            forall|k: int| 0 <= k < i ==> (#[trigger] l[k]).term <= term,
            forall|a: int, b: int| 0 <= a <= b < i ==> (#[trigger] l[a]).term <= (#[trigger] l[b]).term,
        decreases n - i,
    {
        let e = &log[i];
        assert(e@ == l[i as int]);
        if e.index != i as u64 + 1 || e.term > term || e.term < floor {
            proof {
                if e.index == i + 1 && e.term <= term {
                    assert(l[i - 1].term > l[i as int].term);
                    assert(!terms_sorted(l));
                }
            }
            return false;
        }
        proof {
            assert forall|a: int, b: int| 0 <= a <= b < i + 1 implies (#[trigger] l[a]).term <= (
            #[trigger] l[b]).term by {
                if b == i && a < i {
                    assert(l[a].term <= l[i - 1].term);
                }
            }
        }
        floor = e.term;
        i = i + 1;
    }
    true
}

impl RaftNode {
    /// Brings a node back from what it kept on disk: its term, its vote and
    /// its log. It comes back as a follower without peers that has committed
    /// and applied nothing yet. A log with a gap, with terms out of order or
    /// with a term later than the node's own is refused: such a node must
    /// not take part before it is brought up to date by a healthy one.
    pub fn restore(node_id: u128, current_term: u64, voted_for: Option<u128>, log: Vec<LogEntry>) -> (node:
        Result<RaftNode, ClusterError>)
        ensures
            node is Ok <==> log_intact(log_view(log@), current_term),
            node matches Ok(n) ==> n@.in_order() && n@ == (RaftView {
                current_term,
                voted_for,
                log: log_view(log@),
                ..RaftView::initial(node_id)
            }),
            node matches Err(e) ==> e is Consensus,
    {
        if !check_log(&log, current_term) {
            return Err(ClusterError::Consensus(String::from_str("the log on disk is damaged")));
        }
        let node = RaftNode {
            node_id,
            state: RaftState::Follower,
            current_term,
            voted_for,
            log,
            commit_index: 0,
            last_applied: 0,
            next_index: HashMap::new(),
            match_index: HashMap::new(),
            peers: Vec::new(),
            votes_received: Vec::new(),
            leader_id: None,
        };
        Ok(node)
    }

    /// Whether a message of `term` comes from a leader this node accepts.
    /// It is such contact, and a vote that the node grants, that puts off
    /// the node's own election.
    pub fn hears_leader(&self, term: u64) -> (heard: bool)
        ensures
            heard == self@.hears_leader(term),
    {
        term >= self.current_term && !(term == self.current_term && self.state == RaftState::Leader)
    }

    /// The commands that are committed and not applied yet, in log order,
    /// each with its position: what the collaborators of this node have to
    /// act on next.
    pub fn pending_commands(&self) -> (pending: Vec<(u64, Command)>)
        requires
            self@.wf(),
        ensures
            pending@ == commands_between(self@.log, self@.last_applied as int, self@.commit_index as int),
    {
        let mut pending: Vec<(u64, Command)> = Vec::new();
        let len = self.log.len();
        assert(self@.log.len() == self.log@.len());
        let first = self.last_applied as usize;
        let last = self.commit_index as usize;
        let mut i: usize = first;
        while i < last
            invariant
                first <= i <= last <= self.log.len(),
                first == self@.last_applied,
                pending@ == commands_between(self@.log, first as int, i as int),
            decreases last - i,
        {
            let entry = &self.log[i];
            assert(entry@ == self@.log[i as int]);
            match Command::decode(entry.command.as_slice()) {
                Some(command) => {
                    pending.push((entry.index, command));
                },
                None => {},
            }
            i = i + 1;
        }
        pending
    }
}

} // verus!
