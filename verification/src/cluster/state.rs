//! The applied state of the cluster and the commands that change it.

use crate::cluster::command::{decode_command, Command};
use crate::cluster::consensus::{contains_id, lemma_remove_keeps_others, position_of, RaftNode, RaftView};
use crate::cluster::log::EntryView;
use std::collections::HashMap;
use vstd::prelude::*;

verus! {

broadcast use vstd::std_specs::hash::group_hash_axioms;

/// The applied state of the cluster: who leads, which containers each node
/// runs and which volumes each pool holds. It is a function of the committed
/// commands, in their order, and of nothing else.
#[derive(Debug)]
pub struct ClusterState {
    pub cluster_id: u128,
    pub leader_id: Option<u128>,
    pub node_assignments: HashMap<u128, Vec<u128>>,
    pub storage_allocations: HashMap<u128, Vec<u128>>,
}

/// The mathematical value of a [`ClusterState`]. Each list is a set in the
/// order in which its members came.
pub struct ClusterStateView {
    pub cluster_id: u128,
    pub leader_id: Option<u128>,
    pub node_assignments: Map<u128, Seq<u128>>,
    pub storage_allocations: Map<u128, Seq<u128>>,
}

/// The lists of a map of vectors.
pub open spec fn lists_view(m: Map<u128, Vec<u128>>) -> Map<u128, Seq<u128>> {
    m.map_values(|v: Vec<u128>| v@)
}

impl View for ClusterState {
    type V = ClusterStateView;

    open spec fn view(&self) -> ClusterStateView {
        ClusterStateView {
            cluster_id: self.cluster_id,
            leader_id: self.leader_id,
            node_assignments: lists_view(self.node_assignments@),
            storage_allocations: lists_view(self.storage_allocations@),
        }
    }
}

/// `list` with `id` in it: at the end if it was not there.
pub open spec fn with_member(list: Seq<u128>, id: u128) -> Seq<u128> {
    if list.contains(id) {
        list
    } else {
        list.push(id)
    }
}

/// `list` without `id`.
pub open spec fn without_member(list: Seq<u128>, id: u128) -> Seq<u128> {
    if list.contains(id) {
        list.remove(list.index_of(id))
    } else {
        list
    }
}

/// The list kept under `key`, empty where there is none.
pub open spec fn members_of(m: Map<u128, Seq<u128>>, key: u128) -> Seq<u128> {
    if m.contains_key(key) {
        m[key]
    } else {
        Seq::empty()
    }
}

/// Every list of `m` holds each member once.
pub open spec fn lists_are_sets(m: Map<u128, Seq<u128>>) -> bool {
    forall|k: u128| #[trigger] m.contains_key(k) ==> m[k].no_duplicates()
}

impl ClusterStateView {
    /// The validity of a state: no container is listed twice under a node,
    /// no volume twice under a pool.
    pub open spec fn wf(self) -> bool {
        lists_are_sets(self.node_assignments) && lists_are_sets(self.storage_allocations)
    }

    /// The state of a new cluster: no leader, nothing assigned.
    pub open spec fn empty(cluster_id: u128) -> ClusterStateView {
        ClusterStateView {
            cluster_id,
            leader_id: None,
            node_assignments: Map::empty(),
            storage_allocations: Map::empty(),
        }
    }

    pub open spec fn set_leader(self, leader_id: u128) -> ClusterStateView {
        ClusterStateView { leader_id: Some(leader_id), ..self }
    }

    /// The container is listed under the node, once.
    pub open spec fn assign_container(self, node_id: u128, container_id: u128) -> ClusterStateView {
        ClusterStateView {
            node_assignments: self.node_assignments.insert(
                node_id,
                with_member(members_of(self.node_assignments, node_id), container_id),
            ),
            ..self
        }
    }

    /// The container is no longer listed under the node.
    pub open spec fn unassign_container(self, node_id: u128, container_id: u128) -> ClusterStateView {
        if self.node_assignments.contains_key(node_id) {
            ClusterStateView {
                node_assignments: self.node_assignments.insert(
                    node_id,
                    without_member(self.node_assignments[node_id], container_id),
                ),
                ..self
            }
        } else {
            self
        }
    }

    /// The volume is listed under the pool, once.
    pub open spec fn allocate_storage(self, pool_id: u128, volume_id: u128) -> ClusterStateView {
        ClusterStateView {
            storage_allocations: self.storage_allocations.insert(
                pool_id,
                with_member(members_of(self.storage_allocations, pool_id), volume_id),
            ),
            ..self
        }
    }

    /// Whether the node is on the roster.
    pub open spec fn has_node(self, node_id: u128) -> bool {
        self.node_assignments.contains_key(node_id)
    }

    /// The node is on the roster; a new one runs nothing yet.
    pub open spec fn add_node(self, node_id: u128) -> ClusterStateView {
        if self.has_node(node_id) {
            self
        } else {
            ClusterStateView { node_assignments: self.node_assignments.insert(node_id, Seq::empty()), ..self }
        }
    }

    /// The node is off the roster, with what was assigned to it.
    pub open spec fn remove_node(self, node_id: u128) -> ClusterStateView {
        ClusterStateView { node_assignments: self.node_assignments.remove(node_id), ..self }
    }

    /// Whether the command can be carried out on this state. A container
    /// cannot be assigned to a node that is not on the roster, and such a
    /// node cannot lead; every other command can always be carried out.
    pub open spec fn applicable(self, command: Command) -> bool {
        match command {
            Command::AssignContainer { node_id, container_id } => self.has_node(node_id),
            Command::SetLeader(node_id) => self.has_node(node_id),
            _ => true,
        }
    }

    /// The state after a command: its effect where it is applicable, the
    /// state itself where it is not.
    pub open spec fn apply(self, command: Command) -> ClusterStateView {
        if !self.applicable(command) {
            self
        } else {
            match command {
                Command::AddNode(node_id) => self.add_node(node_id),
                Command::RemoveNode(node_id) => self.remove_node(node_id),
                Command::AssignContainer { node_id, container_id } => self.assign_container(
                    node_id,
                    container_id,
                ),
                Command::UnassignContainer { node_id, container_id } => self.unassign_container(
                    node_id,
                    container_id,
                ),
                Command::AllocateVolume { pool_id, volume_id } => self.allocate_storage(pool_id, volume_id),
                Command::SetLeader(node_id) => self.set_leader(node_id),
            }
        }
    }

    /// The state after a log entry: that of its command, or the state
    /// itself where the entry holds no command.
    pub open spec fn apply_entry(self, entry: EntryView) -> ClusterStateView {
        match decode_command(entry.command) {
            Some(command) => self.apply(command),
            None => self,
        }
    }

    /// The state after the entries of `log` at positions `from + 1` to `to`,
    /// in their order.
    pub open spec fn replay(self, log: Seq<EntryView>, from: int, to: int) -> ClusterStateView
        decreases to - from,
    {
        if from >= to {
            self
        } else {
            self.replay(log, from, to - 1).apply_entry(log[to - 1])
        }
    }
}

/// Adding a member to a set keeps it a set.
pub proof fn lemma_with_member(list: Seq<u128>, id: u128)
    requires
        list.no_duplicates(),
    ensures
        with_member(list, id).no_duplicates(),
        with_member(list, id).contains(id),
{
    if !list.contains(id) {
        let l = list.push(id);
        assert(l[list.len() as int] == id);
    }
}

/// Taking a member out of a set keeps it a set, without that member.
pub proof fn lemma_without_member(list: Seq<u128>, id: u128)
    requires
        list.no_duplicates(),
    ensures
        without_member(list, id).no_duplicates(),
        !without_member(list, id).contains(id),
{
    if list.contains(id) {
        let at = list.index_of(id);
        lemma_remove_keeps_others(list, at);
    }
}

/// State Machine Safety: two replicas that start from the same state and
/// apply the same prefix of committed entries arrive at the same state,
/// whatever their logs hold behind that prefix.
pub proof fn state_machine_safety(
    start: ClusterStateView,
    first: Seq<EntryView>,
    second: Seq<EntryView>,
    upto: int,
)
    requires
        0 <= upto <= first.len(),
        upto <= second.len(),
        first.take(upto) == second.take(upto),
    ensures
        start.replay(first, 0, upto) == start.replay(second, 0, upto),
    decreases upto,
{
    if upto > 0 {
        assert(first.take(upto - 1) =~= first.take(upto).take(upto - 1));
        assert(second.take(upto - 1) =~= second.take(upto).take(upto - 1));
        state_machine_safety(start, first, second, upto - 1);
        assert(first[upto - 1] == first.take(upto)[upto - 1]);
        assert(second[upto - 1] == second.take(upto)[upto - 1]);
    }
}

/// Carrying out a command keeps a valid state valid.
pub proof fn lemma_apply_valid(state: ClusterStateView, command: Command)
    requires
        state.wf(),
    ensures
        state.apply(command).wf(),
{
    match command {
        Command::AssignContainer { node_id, container_id } => {
            lemma_with_member(members_of(state.node_assignments, node_id), container_id);
        },
        Command::UnassignContainer { node_id, container_id } => {
            if state.node_assignments.contains_key(node_id) {
                lemma_without_member(state.node_assignments[node_id], container_id);
            }
        },
        Command::AllocateVolume { pool_id, volume_id } => {
            lemma_with_member(members_of(state.storage_allocations, pool_id), volume_id);
        },
        _ => {},
    }
}

/// A command that is carried out twice in a row leaves the state it left
/// the first time: a retried proposal does no harm.
pub proof fn lemma_apply_twice(state: ClusterStateView, command: Command)
    requires
        state.wf(),
    ensures
        state.apply(command).apply(command) == state.apply(command),
{
    lemma_apply_valid(state, command);
    let once = state.apply(command);
    match command {
        Command::AssignContainer { node_id, container_id } => {
            if state.has_node(node_id) {
                lemma_with_member(members_of(state.node_assignments, node_id), container_id);
                assert(once.apply(command).node_assignments =~= once.node_assignments);
            }
        },
        Command::UnassignContainer { node_id, container_id } => {
            if state.node_assignments.contains_key(node_id) {
                lemma_without_member(state.node_assignments[node_id], container_id);
                assert(once.apply(command).node_assignments =~= once.node_assignments);
            }
        },
        Command::AllocateVolume { pool_id, volume_id } => {
            lemma_with_member(members_of(state.storage_allocations, pool_id), volume_id);
            assert(once.apply(command).storage_allocations =~= once.storage_allocations);
        },
        Command::AddNode(node_id) => {},
        Command::RemoveNode(node_id) => {
            assert(once.apply(command).node_assignments =~= once.node_assignments);
        },
        Command::SetLeader(node_id) => {},
    }
}

/// Puts `id` into the list kept under `key`, unless it is there.
fn insert_member(map: &mut HashMap<u128, Vec<u128>>, key: u128, id: u128)
    requires
        lists_are_sets(lists_view(old(map)@)),
    ensures
        lists_view(final(map)@) == lists_view(old(map)@).insert(
            key,
            with_member(members_of(lists_view(old(map)@), key), id),
        ),
        lists_are_sets(lists_view(final(map)@)),
{
    let ghost before = lists_view(map@);
    let mut list = match map.remove(&key) {
        Some(v) => v,
        None => Vec::new(),
    };
    proof {
        assert(list@ =~= members_of(before, key));
        lemma_with_member(list@, id);
    }
    if !contains_id(&list, id) {
        list.push(id);
    }
    map.insert(key, list);
    proof {
        assert(lists_view(map@) =~= before.insert(key, with_member(members_of(before, key), id)));
        assert forall|k: u128| #[trigger] lists_view(map@).contains_key(k) implies lists_view(
            map@,
        )[k].no_duplicates() by {
            if k != key {
                assert(before.contains_key(k));
            }
        }
    }
}

impl ClusterState {
    /// The state of a new cluster.
    pub fn new(cluster_id: u128) -> (state: ClusterState)
        ensures
            state@ == ClusterStateView::empty(cluster_id),
            state@.wf(),
    {
        let state = ClusterState {
            cluster_id,
            leader_id: None,
            node_assignments: HashMap::new(),
            storage_allocations: HashMap::new(),
        };
        assert(state@.node_assignments =~= Map::empty());
        assert(state@.storage_allocations =~= Map::empty());
        state
    }

    /// Records who leads the cluster.
    pub fn set_leader(&mut self, leader_id: u128)
        ensures
            final(self)@ == old(self)@.set_leader(leader_id),
    {
        self.leader_id = Some(leader_id);
    }

    /// Lists the container under the node. Assigning it again changes
    /// nothing.
    pub fn assign_container(&mut self, node_id: u128, container_id: u128)
        requires
            old(self)@.wf(),
        ensures
            final(self)@ == old(self)@.assign_container(node_id, container_id),
            final(self)@.wf(),
    {
        insert_member(&mut self.node_assignments, node_id, container_id);
    }

    /// Takes the container off the node's list, if the node has one.
    pub fn unassign_container(&mut self, node_id: &u128, container_id: &u128)
        requires
            old(self)@.wf(),
        ensures
            final(self)@ == old(self)@.unassign_container(*node_id, *container_id),
            final(self)@.wf(),
    {
        let ghost before = self@.node_assignments;
        match self.node_assignments.remove(node_id) {
            Some(mut list) => {
                proof {
                    assert(list@ == before[*node_id]);
                    lemma_without_member(list@, *container_id);
                }
                if contains_id(&list, *container_id) {
                    let at = position_of(&list, *container_id);
                    list.remove(at);
                }
                self.node_assignments.insert(*node_id, list);
                proof {
                    assert(self@.node_assignments =~= before.insert(
                        *node_id,
                        without_member(before[*node_id], *container_id),
                    ));
                    assert forall|k: u128| #[trigger] self@.node_assignments.contains_key(k) implies self@.node_assignments[k].no_duplicates() by {
                        if k != *node_id {
                            assert(before.contains_key(k));
                        }
                    }
                }
            },
            None => {
                proof {
                    assert(self@.node_assignments =~= before);
                }
            },
        }
    }

    /// The containers listed under the node, in the order in which they
    /// were assigned; none for a node that is not known.
    pub fn get_node_containers(&self, node_id: &u128) -> (containers: Vec<u128>)
        ensures
            containers@ == members_of(self@.node_assignments, *node_id),
    {
        match self.node_assignments.get(node_id) {
            Some(list) => {
                let copy = list.clone();
                assert(copy@ =~= list@);
                copy
            },
            None => Vec::new(),
        }
    }

    /// Lists the volume under the pool. Allocating it again changes
    /// nothing.
    pub fn allocate_storage(&mut self, pool_id: u128, volume_id: u128)
        requires
            old(self)@.wf(),
        ensures
            final(self)@ == old(self)@.allocate_storage(pool_id, volume_id),
            final(self)@.wf(),
    {
        insert_member(&mut self.storage_allocations, pool_id, volume_id);
    }

    /// The volumes listed under the pool, in the order in which they were
    /// allocated; none for a pool that is not known.
    pub fn get_pool_volumes(&self, pool_id: &u128) -> (volumes: Vec<u128>)
        ensures
            volumes@ == members_of(self@.storage_allocations, *pool_id),
    {
        match self.storage_allocations.get(pool_id) {
            Some(list) => {
                let copy = list.clone();
                assert(copy@ =~= list@);
                copy
            },
            None => Vec::new(),
        }
    }

    /// Whether the node is on the roster.
    pub fn has_node(&self, node_id: &u128) -> (known: bool)
        ensures
            known == self@.has_node(*node_id),
    {
        self.node_assignments.contains_key(node_id)
    }

    /// Puts the node on the roster, with nothing assigned, unless it is
    /// there.
    pub fn add_node(&mut self, node_id: u128)
        requires
            old(self)@.wf(),
        ensures
            final(self)@ == old(self)@.add_node(node_id),
            final(self)@.wf(),
    {
        let ghost before = self@.node_assignments;
        if !self.node_assignments.contains_key(&node_id) {
            self.node_assignments.insert(node_id, Vec::new());
            proof {
                assert(self@.node_assignments =~= before.insert(node_id, Seq::empty()));
                assert forall|k: u128| #[trigger] self@.node_assignments.contains_key(k) implies self@.node_assignments[k].no_duplicates() by {
                    if k != node_id {
                        assert(before.contains_key(k));
                    }
                }
            }
        }
    }

    /// Takes the node off the roster, with what was assigned to it.
    pub fn remove_node(&mut self, node_id: &u128)
        requires
            old(self)@.wf(),
        ensures
            final(self)@ == old(self)@.remove_node(*node_id),
            final(self)@.wf(),
    {
        let ghost before = self@.node_assignments;
        self.node_assignments.remove(node_id);
        proof {
            assert(self@.node_assignments =~= before.remove(*node_id));
            assert forall|k: u128| #[trigger] self@.node_assignments.contains_key(k) implies self@.node_assignments[k].no_duplicates() by {
                assert(before.contains_key(k));
            }
        }
    }

    /// Whether the command can be carried out on this state; a caller asks
    /// this before it proposes the command.
    pub fn is_applicable(&self, command: &Command) -> (ok: bool)
        ensures
            ok == self@.applicable(*command),
    {
        match command {
            Command::AssignContainer { node_id, container_id } => self.has_node(node_id),
            Command::SetLeader(node_id) => self.has_node(node_id),
            _ => true,
        }
    }

    /// Carries out a committed command. A command that cannot be carried
    /// out leaves the state as it is; the result tells the two apart, so
    /// that the caller can report the second.
    pub fn apply(&mut self, command: &Command) -> (applied: bool)
        requires
            old(self)@.wf(),
        ensures
            final(self)@ == old(self)@.apply(*command),
            final(self)@.wf(),
            applied == old(self)@.applicable(*command),
    {
        if !self.is_applicable(command) {
            return false;
        }
        match command {
            Command::AddNode(node_id) => self.add_node(*node_id),
            Command::RemoveNode(node_id) => self.remove_node(node_id),
            Command::AssignContainer { node_id, container_id } => self.assign_container(
                *node_id,
                *container_id,
            ),
            Command::UnassignContainer { node_id, container_id } => self.unassign_container(
                node_id,
                container_id,
            ),
            Command::AllocateVolume { pool_id, volume_id } => self.allocate_storage(*pool_id, *volume_id),
            Command::SetLeader(node_id) => self.set_leader(*node_id),
        }
        true
    }

    /// A copy of the state as it is now, for readers.
    pub fn snapshot(&self) -> (copy: ClusterState)
        ensures
            copy@ == self@,
    {
        ClusterState {
            cluster_id: self.cluster_id,
            leader_id: self.leader_id,
            node_assignments: self.node_assignments.clone(),
            storage_allocations: self.storage_allocations.clone(),
        }
    }
}

impl RaftNode {
    /// Applies to `state`, in log order, every entry that is committed and
    /// not applied yet, and returns how many there were. An entry that holds
    /// no command, or one that cannot be carried out, leaves the state as it
    /// is and does not stop the others.
    pub fn apply_committed(&mut self, state: &mut ClusterState) -> (count: u64)
        requires
            old(self)@.wf(),
            old(state)@.wf(),
        ensures
            final(self)@ == (RaftView { last_applied: old(self)@.commit_index, ..old(self)@ }),
            final(self)@.wf(),
            old(self)@.in_order() ==> final(self)@.in_order(),
            final(state)@ == old(state)@.replay(
                old(self)@.log,
                old(self)@.last_applied as int,
                old(self)@.commit_index as int,
            ),
            final(state)@.wf(),
            count == old(self)@.commit_index - old(self)@.last_applied,
    {
        let ghost node = self@;
        let ghost start = state@;
        let first = self.last_applied;
        while self.last_applied < self.commit_index
            invariant
                node.wf(),
                first == node.last_applied,
                first <= self.last_applied <= self.commit_index,
                self@ == (RaftView { last_applied: self.last_applied, ..node }),
                state@ == start.replay(node.log, first as int, self.last_applied as int),
                state@.wf(),
            decreases self.commit_index - self.last_applied,
        {
            assert(self@.log.len() == self.log@.len());
            let len = self.log.len();
            assert(self.last_applied < len);
            let at = self.last_applied as usize;
            let ghost entry = node.log[at as int];
            assert(entry == self.log@[at as int]@);
            assert(start.replay(node.log, first as int, at + 1) == start.replay(
                node.log,
                first as int,
                at as int,
            ).apply_entry(entry));
            match Command::decode(self.log[at].command.as_slice()) {
                Some(command) => {
                    state.apply(&command);
                },
                None => {},
            }
            self.last_applied = self.last_applied + 1;
        }
        self.commit_index - first
    }
}

} // verus!
