//! Carrying out what is committed: the applied state, the roster and the
//! voting members of the node follow the commands of the log, in its order.

use crate::cluster::command::{decode_command, Command};
use crate::cluster::consensus::{RaftNode, RaftView};
use crate::cluster::log::EntryView;
use crate::cluster::membership::{roster_with, targets_with, MembershipManager};
use crate::cluster::state::ClusterState;
use crate::models::node::Node;
use vstd::prelude::*;

verus! {

/// The roster after a log entry: that of its command, or the roster itself
/// where the entry holds no command.
pub open spec fn roster_after_entry(roster: Map<u128, Node>, entry: EntryView) -> Map<u128, Node> {
    match decode_command(entry.command) {
        Some(command) => roster_with(roster, command),
        None => roster,
    }
}

/// The targets after a log entry.
pub open spec fn targets_after_entry(targets: Map<u128, u64>, entry: EntryView) -> Map<u128, u64> {
    match decode_command(entry.command) {
        Some(command) => targets_with(targets, command),
        None => targets,
    }
}

/// The roster after the entries of `log` at positions `from + 1` to `to`, in
/// their order.
pub open spec fn roster_replay(roster: Map<u128, Node>, log: Seq<EntryView>, from: int, to: int) -> Map<u128, Node>
    decreases to - from,
{
    if from >= to {
        roster
    } else {
        roster_after_entry(roster_replay(roster, log, from, to - 1), log[to - 1])
    }
}

/// The targets after the entries of `log` at positions `from + 1` to `to`,
/// in their order.
pub open spec fn targets_replay(targets: Map<u128, u64>, log: Seq<EntryView>, from: int, to: int) -> Map<u128, u64>
    decreases to - from,
{
    if from >= to {
        targets
    } else {
        targets_after_entry(targets_replay(targets, log, from, to - 1), log[to - 1])
    }
}

impl RaftView {
    /// The node after a committed command: a node that was added becomes a
    /// voting peer, unless it is this node or a peer already; a node that
    /// was removed is a peer no longer. Other commands do not concern the
    /// voting members.
    pub open spec fn with_command(self, command: Command) -> RaftView {
        match command {
            Command::AddNode(id) => if id != self.node_id && !self.peers.contains(id) {
                self.add_peer(id)
            } else {
                self
            },
            Command::RemoveNode(id) => if self.peers.contains(id) {
                self.remove_peer(id)
            } else {
                self
            },
            _ => self,
        }
    }

    /// The node after a log entry: that of its command, or the node itself
    /// where the entry holds no command.
    pub open spec fn with_entry(self, entry: EntryView) -> RaftView {
        match decode_command(entry.command) {
            Some(command) => self.with_command(command),
            None => self,
        }
    }

    /// The node after the entries of `log` at positions `from + 1` to
    /// `to`, in their order.
    pub open spec fn reconfigured(self, log: Seq<EntryView>, from: int, to: int) -> RaftView
        decreases to - from,
    {
        if from >= to {
            self
        } else {
            self.reconfigured(log, from, to - 1).with_entry(log[to - 1])
        }
    }
}

impl RaftNode {
    /// Carries out, in log order, every entry that is committed and not
    /// applied yet, and returns how many there were: each command changes
    /// the applied state, the roster, and, where it adds or removes a node,
    /// the voting peers of this node. An entry that holds no command, or a
    /// command that cannot be carried out, changes nothing and does not stop
    /// the others.
    pub fn apply_membership(&mut self, members: &mut MembershipManager, state: &mut ClusterState) -> (count: u64)
        requires
            old(self)@.wf(),
            old(state)@.wf(),
        ensures
            final(self)@ == (RaftView {
                last_applied: old(self)@.commit_index,
                ..old(self)@.reconfigured(
                    old(self)@.log,
                    old(self)@.last_applied as int,
                    old(self)@.commit_index as int,
                )
            }),
            final(self)@.wf(),
            old(self)@.in_order() ==> final(self)@.in_order(),
            final(state)@ == old(state)@.replay(
                old(self)@.log,
                old(self)@.last_applied as int,
                old(self)@.commit_index as int,
            ),
            final(state)@.wf(),
            final(members).roster() == roster_replay(
                old(members).roster(),
                old(self)@.log,
                old(self)@.last_applied as int,
                old(self)@.commit_index as int,
            ),
            final(members).targets() == targets_replay(
                old(members).targets(),
                old(self)@.log,
                old(self)@.last_applied as int,
                old(self)@.commit_index as int,
            ),
            final(members).local_id() == old(members).local_id(),
            count == old(self)@.commit_index - old(self)@.last_applied,
    {
        let ghost node = self@;
        let ghost start = state@;
        let ghost roster = members.roster();
        let ghost targets = members.targets();
        let first = self.last_applied;
        while self.last_applied < self.commit_index
            invariant
                node.wf(),
                first == node.last_applied,
                first <= self.last_applied <= self.commit_index,
                self@.wf(),
                node.in_order() ==> self@.in_order(),
                self@.log == node.log,
                self@.commit_index == node.commit_index,
                self@ == (RaftView {
                    last_applied: self.last_applied,
                    ..node.reconfigured(node.log, first as int, self.last_applied as int)
                }),
                state@ == start.replay(node.log, first as int, self.last_applied as int),
                state@.wf(),
                members.roster() == roster_replay(roster, node.log, first as int, self.last_applied as int),
                members.targets() == targets_replay(targets, node.log, first as int, self.last_applied as int),
                members.local_id() == old(members).local_id(),
            decreases self.commit_index - self.last_applied,
        {
            assert(self@.log.len() == self.log@.len());
            let len = self.log.len();
            assert(self.last_applied < len);
            let at = self.last_applied as usize;
            let ghost entry = node.log[at as int];
            let ghost current = self@;
            let ghost so_far = node.reconfigured(node.log, first as int, at as int);
            proof {
                assert(entry == self.log@[at as int]@);
                assert(start.replay(node.log, first as int, at + 1) == start.replay(
                    node.log,
                    first as int,
                    at as int,
                ).apply_entry(entry));
                assert(roster_replay(roster, node.log, first as int, at + 1) == roster_after_entry(
                    roster_replay(roster, node.log, first as int, at as int),
                    entry,
                ));
                assert(targets_replay(targets, node.log, first as int, at + 1) == targets_after_entry(
                    targets_replay(targets, node.log, first as int, at as int),
                    entry,
                ));
                assert(node.reconfigured(node.log, first as int, at + 1) == so_far.with_entry(entry));
            }
            match Command::decode(self.log[at].command.as_slice()) {
                Some(command) => {
                    state.apply(&command);
                    members.apply(&command);
                    match command {
                        Command::AddNode(id) => {
                            self.add_peer(id);
                        },
                        Command::RemoveNode(id) => {
                            self.remove_peer(id);
                        },
                        _ => {},
                    }
                    assert(self@ == current.with_command(command));
                },
                None => {},
            }
            assert(self@ == current.with_entry(entry));
            self.last_applied = self.last_applied + 1;
            assert(self@ == (RaftView { last_applied: (at + 1) as u64, ..so_far.with_entry(entry) }));
        }
        self.commit_index - first
    }
}

} // verus!
