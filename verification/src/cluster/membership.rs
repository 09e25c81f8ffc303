//! The roster of the cluster: who is known, who is catching up and who has
//! been silent for too long.

use crate::cluster::command::Command;
use crate::models::node::{Node, NodeResources, NodeStatus};
use crate::sys::now_millis;
use std::collections::HashMap;
use vstd::prelude::*;
use vstd::std_specs::hash::spec_hash_map_iter;
use vstd::std_specs::iter::IteratorSpec;

verus! {

broadcast use vstd::std_specs::hash::group_hash_axioms;

/// The roster of the cluster as this node knows it: the record of every
/// node, and for every node that is still catching up the commit index it
/// has to reach before it may vote.
///
/// Who is on the roster is decided by committed commands; how healthy a node
/// looks is observed locally.
pub struct MembershipManager {
    nodes: HashMap<u128, Node>,
    local_node_id: u128,
    joining: HashMap<u128, u64>,
}

/// `node` seen at `now` with the given status.
pub open spec fn with_status(node: Node, status: NodeStatus, now: i64) -> Node {
    Node { status, last_seen: now, ..node }
}

/// Whether a node has been silent for longer than `grace` and nothing has
/// been decided about it yet.
pub open spec fn is_stale(node: Node, now: i64, grace: i64) -> bool {
    &&& node.status == NodeStatus::Online || node.status == NodeStatus::Offline
    &&& now - node.last_seen > grace
}

/// The roster after a node's status was observed at `now`.
pub open spec fn status_updated(roster: Map<u128, Node>, node_id: u128, status: NodeStatus, now: i64) -> Map<
    u128,
    Node,
> {
    if roster.contains_key(node_id) {
        roster.insert(node_id, with_status(roster[node_id], status, now))
    } else {
        roster
    }
}

/// The roster after a committed command: a node that was added votes and
/// counts as online, a node that was removed is forgotten. Other commands do
/// not concern the roster.
pub open spec fn roster_with(roster: Map<u128, Node>, command: Command) -> Map<u128, Node> {
    match command {
        Command::AddNode(id) => if roster.contains_key(id) {
            roster.insert(id, Node { status: NodeStatus::Online, ..roster[id] })
        } else {
            roster
        },
        Command::RemoveNode(id) => roster.remove(id),
        _ => roster,
    }
}

/// The targets after a committed command: a node that was added or removed
/// is no longer catching up.
pub open spec fn targets_with(targets: Map<u128, u64>, command: Command) -> Map<u128, u64> {
    match command {
        Command::AddNode(id) => targets.remove(id),
        Command::RemoveNode(id) => targets.remove(id),
        _ => targets,
    }
}

impl MembershipManager {
    /// The records, by node identifier.
    pub closed spec fn roster(&self) -> Map<u128, Node> {
        self.nodes@
    }

    /// The identifier of the node this roster belongs to.
    pub closed spec fn local_id(&self) -> u128 {
        self.local_node_id
    }

    /// For each node that is catching up, the commit index it has to reach.
    pub closed spec fn targets(&self) -> Map<u128, u64> {
        self.joining@
    }

    /// Whether `node_id` may be proposed as a voting member once it has
    /// applied `applied` entries: it is known, still joining, and has passed
    /// the commit index of the moment it joined.
    pub open spec fn promotable(&self, node_id: u128, applied: u64) -> bool {
        &&& self.roster().contains_key(node_id)
        &&& self.roster()[node_id].status == NodeStatus::Joining
        &&& self.targets().contains_key(node_id)
        &&& applied >= self.targets()[node_id]
    }

    /// Whether `node_id` is another node that has been silent too long.
    pub open spec fn stale(&self, node_id: u128, now: i64, grace: i64) -> bool {
        &&& self.roster().contains_key(node_id)
        &&& node_id != self.local_id()
        &&& is_stale(self.roster()[node_id], now, grace)
    }

    /// The roster after a committed command: see [`roster_with`].
    pub open spec fn roster_after(&self, command: Command) -> Map<u128, Node> {
        roster_with(self.roster(), command)
    }

    /// The targets after a committed command: see [`targets_with`].
    pub open spec fn targets_after(&self, command: Command) -> Map<u128, u64> {
        targets_with(self.targets(), command)
    }

    /// The roster and the targets of every manager hold finitely many
    /// nodes, so that their number is the number of records.
    pub proof fn lemma_roster_finite(&self)
        ensures
            self.roster().dom().finite(),
            self.targets().dom().finite(),
    {
    }

    /// An empty roster for the node `local_node_id`.
    pub fn new(local_node_id: u128) -> (manager: MembershipManager)
        ensures
            manager.roster() == Map::<u128, Node>::empty(),
            manager.targets() == Map::<u128, u64>::empty(),
            manager.local_id() == local_node_id,
    {
        MembershipManager { nodes: HashMap::new(), local_node_id, joining: HashMap::new() }
    }

    /// Records `node` under its identifier, in place of an earlier record.
    pub fn add_node(&mut self, node: Node)
        ensures
            final(self).roster() == old(self).roster().insert(node.id, node),
            final(self).targets() == old(self).targets(),
            final(self).local_id() == old(self).local_id(),
    {
        self.nodes.insert(node.id, node);
    }

    /// Forgets the node.
    pub fn remove_node(&mut self, node_id: &u128)
        ensures
            final(self).roster() == old(self).roster().remove(*node_id),
            final(self).targets() == old(self).targets().remove(*node_id),
            final(self).local_id() == old(self).local_id(),
    {
        self.nodes.remove(node_id);
        self.joining.remove(node_id);
    }

    /// Records that the node was seen at `now` with the given status.
    /// Nothing changes for a node that is not known.
    pub fn update_node_status_at(&mut self, node_id: &u128, status: NodeStatus, now: i64)
        ensures
            final(self).roster() == status_updated(old(self).roster(), *node_id, status, now),
            final(self).targets() == old(self).targets(),
            final(self).local_id() == old(self).local_id(),
    {
        let ghost before = self.nodes@;
        match self.nodes.remove(node_id) {
            Some(node) => {
                let mut node = node;
                node.status = status;
                node.last_seen = now;
                self.nodes.insert(*node_id, node);
                assert(self.nodes@ =~= status_updated(before, *node_id, status, now));
            },
            None => {
                assert(self.nodes@ =~= before);
            },
        }
    }

    /// Records that the node is seen now with the given status: see
    /// [`MembershipManager::update_node_status_at`], with the present time.
    pub fn update_node_status(&mut self, node_id: &u128, status: NodeStatus)
        ensures
            exists|now: i64|
                final(self).roster() == #[trigger] status_updated(old(self).roster(), *node_id, status, now),
            final(self).targets() == old(self).targets(),
            final(self).local_id() == old(self).local_id(),
    {
        let now = now_millis();
        self.update_node_status_at(node_id, status, now);
    }

    /// Replaces what the node declares of itself. Nothing changes for a
    /// node that is not known.
    pub fn update_node_resources(&mut self, node_id: &u128, resources: NodeResources)
        ensures
            final(self).roster() == if old(self).roster().contains_key(*node_id) {
                old(self).roster().insert(*node_id, Node { resources, ..old(self).roster()[*node_id] })
            } else {
                old(self).roster()
            },
            final(self).targets() == old(self).targets(),
            final(self).local_id() == old(self).local_id(),
    {
        let ghost before = self.nodes@;
        match self.nodes.remove(node_id) {
            Some(node) => {
                let mut node = node;
                node.resources = resources;
                self.nodes.insert(*node_id, node);
                assert(self.nodes@ =~= before.insert(*node_id, Node { resources, ..before[*node_id] }));
            },
            None => {
                assert(self.nodes@ =~= before);
            },
        }
    }

    /// The record of the node, if it is known.
    pub fn get_node(&self, node_id: &u128) -> (node: Option<&Node>)
        ensures
            node is Some <==> self.roster().contains_key(*node_id),
            node matches Some(n) ==> *n == self.roster()[*node_id],
    {
        self.nodes.get(node_id)
    }

    /// Every record, once, in no particular order.
    pub fn list_nodes(&self) -> (nodes: Vec<&Node>)
        ensures
            nodes@.len() == self.roster().dom().len(),
            forall|i: int| 0 <= i < nodes@.len() ==> self.roster().values().contains(*(#[trigger] nodes@[i])),
            forall|k: u128| #[trigger]
                self.roster().contains_key(k) ==> exists|i: int|
                    0 <= i < nodes@.len() && *(#[trigger] nodes@[i]) == self.roster()[k],
    {
        let mut nodes: Vec<&Node> = Vec::new();
        for pair in iter: self.nodes.iter()
            invariant
                iter.seq() == spec_hash_map_iter(&self.nodes).remaining(),
                nodes@.len() == iter.index(),
                forall|j: int| 0 <= j < nodes@.len() ==> *nodes@[j] == *(#[trigger] iter.seq()[j]).1,
        {
            let (k, v) = pair;
            nodes.push(v);
        }
        proof {
            let s = spec_hash_map_iter(&self.nodes).remaining();
            assert forall|i: int| 0 <= i < nodes@.len() implies self.roster().values().contains(
                *(#[trigger] nodes@[i]),
            ) by {
                let k = *s[i].0;
                assert(self.nodes@.contains_key(k) && self.nodes@[k] == *s[i].1);
            }
            assert forall|k: u128| #[trigger] self.roster().contains_key(k) implies exists|i: int|
                0 <= i < nodes@.len() && *(#[trigger] nodes@[i]) == self.roster()[k] by {
                assert(s.contains((&k, &self.nodes@[k])));
                let i = choose|i: int| 0 <= i < s.len() && s[i] == (&k, &self.nodes@[k]);
                assert(*nodes@[i] == *s[i].1);
            }
        }
        nodes
    }

    /// The record of the node this roster belongs to, if it holds one.
    pub fn get_local_node(&self) -> (node: Option<&Node>)
        ensures
            node is Some <==> self.roster().contains_key(self.local_id()),
            node matches Some(n) ==> *n == self.roster()[self.local_id()],
    {
        self.nodes.get(&self.local_node_id)
    }

    /// Whether the node is known.
    pub fn is_member(&self, node_id: &u128) -> (known: bool)
        ensures
            known == self.roster().contains_key(*node_id),
    {
        self.nodes.contains_key(node_id)
    }

    /// How many nodes are known.
    pub fn node_count(&self) -> (count: usize)
        ensures
            self.roster().dom().finite(),
            count == self.roster().dom().len(),
    {
        self.nodes.len()
    }

    /// Takes in a node that wants to join while the cluster's commit index
    /// is `commit_index`: it is recorded as joining, and has to reach that
    /// index before it may vote.
    pub fn begin_join(&mut self, node: Node, commit_index: u64)
        ensures
            final(self).roster() == old(self).roster().insert(
                node.id,
                Node { status: NodeStatus::Joining, ..node },
            ),
            final(self).targets() == old(self).targets().insert(node.id, commit_index),
            final(self).local_id() == old(self).local_id(),
    {
        let id = node.id;
        let mut node = node;
        node.status = NodeStatus::Joining;
        self.nodes.insert(id, node);
        self.joining.insert(id, commit_index);
    }

    /// The command to propose for a joining node that has applied `applied`
    /// entries: the one that makes it a voting member, once it has passed
    /// the commit index of the moment it joined, and none before that.
    pub fn promotion(&self, node_id: &u128, applied: u64) -> (proposal: Option<Command>)
        ensures
            proposal is Some <==> self.promotable(*node_id, applied),
            proposal is Some ==> proposal == Some(Command::AddNode(*node_id)),
    {
        let joining = match self.nodes.get(node_id) {
            Some(node) => node.status == NodeStatus::Joining,
            None => false,
        };
        let caught_up = match self.joining.get(node_id) {
            Some(target) => applied >= *target,
            None => false,
        };
        if joining && caught_up {
            Some(Command::AddNode(*node_id))
        } else {
            None
        }
    }

    /// Takes in a committed command: see [`MembershipManager::roster_after`]
    /// and [`MembershipManager::targets_after`].
    pub fn apply(&mut self, command: &Command)
        ensures
            final(self).roster() == old(self).roster_after(*command),
            final(self).targets() == old(self).targets_after(*command),
            final(self).local_id() == old(self).local_id(),
    {
        let ghost before = self.nodes@;
        match command {
            Command::AddNode(id) => {
                match self.nodes.remove(id) {
                    Some(node) => {
                        let mut node = node;
                        node.status = NodeStatus::Online;
                        self.nodes.insert(*id, node);
                        assert(self.nodes@ =~= before.insert(
                            *id,
                            Node { status: NodeStatus::Online, ..before[*id] },
                        ));
                    },
                    None => {
                        assert(self.nodes@ =~= before);
                    },
                }
                self.joining.remove(id);
            },
            Command::RemoveNode(id) => {
                self.nodes.remove(id);
                self.joining.remove(id);
            },
            _ => {},
        }
    }

    /// The other nodes that have been silent for longer than `grace`
    /// milliseconds at `now` and about which nothing has been decided yet,
    /// each once, in no particular order.
    pub fn stale_nodes(&self, now: i64, grace: i64) -> (ids: Vec<u128>)
        ensures
            forall|k: u128| ids@.contains(k) <==> self.stale(k, now, grace),
            ids@.no_duplicates(),
    {
        let mut ids: Vec<u128> = Vec::new();
        for pair in iter: self.nodes.iter()
            invariant
                iter.seq() == spec_hash_map_iter(&self.nodes).remaining(),
                iter.seq().no_duplicates(),
                forall|k: u128|
                    ids@.contains(k) <==> (exists|j: int|
                        0 <= j < iter.index() && *(#[trigger] iter.seq()[j]).0 == k && self.stale(k, now, grace)),
                ids@.no_duplicates(),
        {
            let (k, node) = pair;
            let ghost before = ids@;
            let ghost idx = iter.index();
            let ghost s = iter.seq();
            assert(pair == s[idx]);
            assert(self.nodes@.contains_key(*s[idx].0) && self.nodes@[*s[idx].0] == *s[idx].1);
            let silent = now as i128 - node.last_seen as i128 > grace as i128;
            let undecided = node.status == NodeStatus::Online || node.status == NodeStatus::Offline;
            let take = *k != self.local_node_id && silent && undecided;
            assert(take == self.stale(*k, now, grace));
            if take {
                proof {
                    if before.contains(*k) {
                        let j = choose|j: int|
                            0 <= j < idx && *(#[trigger] s[j]).0 == *k && self.stale(*k, now, grace);
                        assert(self.nodes@[*s[j].0] == *s[j].1);
                        assert(s[j] == s[idx]);
                    }
                }
                ids.push(*k);
                proof {
                    assert(ids@[before.len() as int] == *k);
                    assert forall|q: u128| ids@.contains(q) <==> (before.contains(q) || q == *k) by {
                        if before.contains(q) {
                            let i = choose|i: int| 0 <= i < before.len() && before[i] == q;
                            assert(ids@[i] == q);
                        }
                    }
                }
            }
            proof {
                assert forall|q: u128|
                    ids@.contains(q) <==> (exists|j: int|
                        0 <= j < idx + 1 && *(#[trigger] s[j]).0 == q && self.stale(q, now, grace)) by {
                    if ids@.contains(q) {
                        if before.contains(q) {
                            let j = choose|j: int|
                                0 <= j < idx && *(#[trigger] s[j]).0 == q && self.stale(q, now, grace);
                            assert(0 <= j < idx + 1 && *s[j].0 == q);
                        } else {
                            assert(q == *k);
                            assert(0 <= idx < idx + 1 && *s[idx].0 == q);
                        }
                    }
                    if exists|j: int| 0 <= j < idx + 1 && *(#[trigger] s[j]).0 == q && self.stale(q, now, grace) {
                        let j = choose|j: int|
                            0 <= j < idx + 1 && *(#[trigger] s[j]).0 == q && self.stale(q, now, grace);
                        if j < idx {
                            assert(before.contains(q));
                        } else {
                            assert(q == *k);
                        }
                    }
                }
            }
        }
        proof {
            let s = spec_hash_map_iter(&self.nodes).remaining();
            assert forall|k: u128| self.stale(k, now, grace) implies ids@.contains(k) by {
                assert(s.contains((&k, &self.nodes@[k])));
                let j = choose|j: int| 0 <= j < s.len() && s[j] == (&k, &self.nodes@[k]);
                assert(*s[j].0 == k);
            }
        }
        ids
    }

    /// What to propose about the nodes that have been silent too long:
    /// the removal of each. Nothing happens to the roster until such a
    /// proposal is committed.
    pub fn removal_proposals(&self, now: i64, grace: i64) -> (proposals: Vec<Command>)
        ensures
            forall|k: u128| proposals@.contains(Command::RemoveNode(k)) <==> self.stale(k, now, grace),
            forall|i: int| 0 <= i < proposals@.len() ==> (#[trigger] proposals@[i]) is RemoveNode,
            proposals@.no_duplicates(),
    {
        let ids = self.stale_nodes(now, grace);
        let mut proposals: Vec<Command> = Vec::new();
        let mut i: usize = 0;
        while i < ids.len()
            invariant
                i <= ids.len(),
                proposals@.len() == i,
                forall|j: int| 0 <= j < i ==> (#[trigger] proposals@[j]) == Command::RemoveNode(ids@[j]),
            decreases ids.len() - i,
        {
            proposals.push(Command::RemoveNode(ids[i]));
            i = i + 1;
        }
        proof {
            assert forall|k: u128| proposals@.contains(Command::RemoveNode(k)) <==> self.stale(
                k,
                now,
                grace,
            ) by {
                assert(ids@.contains(k) <==> self.stale(k, now, grace));
                if proposals@.contains(Command::RemoveNode(k)) {
                    let j = choose|j: int| 0 <= j < proposals@.len() && proposals@[j] == Command::RemoveNode(k);
                    assert(ids@[j] == k);
                }
                if ids@.contains(k) {
                    let j = choose|j: int| 0 <= j < ids@.len() && ids@[j] == k;
                    assert(proposals@[j] == Command::RemoveNode(k));
                }
            }
        }
        proposals
    }
}

} // verus!
