use arm_hypervisor::cluster::{ClusterState, Command, LogEntry, RaftNode};

const A: u128 = 0xaaaaaaaa_0000_0000_0000_000000000001;
const B: u128 = 0xbbbbbbbb_0000_0000_0000_000000000002;
const X: u128 = 0x11;
const Y: u128 = 0x22;

#[test]
fn new_state_is_empty() {
    let state = ClusterState::new(5);
    assert_eq!(state.cluster_id, 5);
    assert_eq!(state.leader_id, None);
    assert!(state.node_assignments.is_empty());
    assert!(state.storage_allocations.is_empty());
    assert!(state.get_node_containers(&A).is_empty());
    assert!(state.get_pool_volumes(&A).is_empty());
}

#[test]
fn set_leader_replaces_the_leader() {
    let mut state = ClusterState::new(1);
    state.set_leader(A);
    assert_eq!(state.leader_id, Some(A));
    state.set_leader(B);
    assert_eq!(state.leader_id, Some(B));
}

#[test]
fn containers_are_listed_in_the_order_they_came() {
    let mut state = ClusterState::new(1);
    state.assign_container(A, Y);
    state.assign_container(A, X);
    state.assign_container(B, X);
    assert_eq!(state.get_node_containers(&A), vec![Y, X]);
    assert_eq!(state.get_node_containers(&B), vec![X]);
    state.unassign_container(&A, &Y);
    assert_eq!(state.get_node_containers(&A), vec![X]);
    state.unassign_container(&A, &Y);
    state.unassign_container(&0x99, &Y);
    assert_eq!(state.get_node_containers(&A), vec![X]);
    assert!(!state.has_node(&0x99));
}

#[test]
fn scenario_assigning_twice_lists_once() {
    let mut state = ClusterState::new(1);
    assert!(state.apply(&Command::AddNode(A)));
    let assign = Command::AssignContainer { node_id: A, container_id: X };
    assert!(state.apply(&assign));
    assert!(state.apply(&assign));
    assert_eq!(state.get_node_containers(&A), vec![X]);
    // the log holds the command twice, the state holds the container once
    let mut node = RaftNode::new(A);
    node.start_election().unwrap();
    node.propose(Command::AddNode(A).encode()).unwrap();
    node.propose(assign.encode()).unwrap();
    node.propose(assign.encode()).unwrap();
    assert_eq!(node.log.len(), 3);
    let mut replayed = ClusterState::new(1);
    assert_eq!(node.apply_committed(&mut replayed), 3);
    assert_eq!(replayed.get_node_containers(&A), vec![X]);
}

#[test]
fn volumes_are_allocated_once() {
    let mut state = ClusterState::new(1);
    state.allocate_storage(A, X);
    state.allocate_storage(A, X);
    state.allocate_storage(A, Y);
    assert_eq!(state.get_pool_volumes(&A), vec![X, Y]);
    assert!(state.apply(&Command::AllocateVolume { pool_id: B, volume_id: Y }));
    assert_eq!(state.get_pool_volumes(&B), vec![Y]);
}

#[test]
fn impossible_commands_change_nothing() {
    let mut state = ClusterState::new(1);
    let assign = Command::AssignContainer { node_id: A, container_id: X };
    assert!(!state.is_applicable(&assign));
    assert!(!state.apply(&assign));
    assert!(!state.apply(&Command::SetLeader(A)));
    assert!(state.node_assignments.is_empty());
    assert_eq!(state.leader_id, None);
    // what can always be done is done, also twice
    assert!(state.apply(&Command::RemoveNode(A)));
    assert!(state.apply(&Command::UnassignContainer { node_id: A, container_id: X }));
    assert!(state.apply(&Command::AddNode(A)));
    assert!(state.apply(&Command::AddNode(A)));
    assert!(state.has_node(&A));
    assert!(state.apply(&assign));
    assert!(state.apply(&Command::SetLeader(A)));
    assert_eq!(state.leader_id, Some(A));
    assert!(state.apply(&Command::RemoveNode(A)));
    assert!(!state.has_node(&A));
    assert!(state.get_node_containers(&A).is_empty());
    assert!(!state.apply(&assign));
}

#[test]
fn adding_a_node_again_keeps_its_containers() {
    let mut state = ClusterState::new(1);
    state.add_node(A);
    state.assign_container(A, X);
    state.add_node(A);
    assert_eq!(state.get_node_containers(&A), vec![X]);
    state.remove_node(&A);
    state.add_node(A);
    assert!(state.get_node_containers(&A).is_empty());
}

#[test]
fn state_machine_safety_same_prefix_same_state() {
    let commands = [
        Command::AddNode(A),
        Command::AddNode(B),
        Command::AssignContainer { node_id: A, container_id: X },
        Command::AssignContainer { node_id: B, container_id: Y },
        Command::AllocateVolume { pool_id: X, volume_id: Y },
        Command::SetLeader(B),
        Command::UnassignContainer { node_id: A, container_id: X },
        Command::RemoveNode(B),
    ];
    for upto in 0..=commands.len() {
        // two replicas whose logs agree up to `upto` and differ behind it
        let mut first = RaftNode::new(1);
        let mut second = RaftNode::new(2);
        first.become_follower(3);
        second.become_follower(3);
        for (i, c) in commands.iter().enumerate() {
            let index = i as u64 + 1;
            first.append_entry(LogEntry { term: 1, index, command: c.encode() }).unwrap();
            let other = if i < upto { c.encode() } else { Command::AddNode(i as u128).encode() };
            second.append_entry(LogEntry { term: 1, index, command: other }).unwrap();
        }
        first.commit(upto as u64);
        second.commit(upto as u64);
        let mut one = ClusterState::new(9);
        let mut two = ClusterState::new(9);
        assert_eq!(first.apply_committed(&mut one), upto as u64);
        assert_eq!(second.apply_committed(&mut two), upto as u64);
        assert_eq!(one.leader_id, two.leader_id);
        assert_eq!(one.node_assignments, two.node_assignments);
        assert_eq!(one.storage_allocations, two.storage_allocations);
    }
}

#[test]
fn applying_resumes_where_it_stopped() {
    let mut node = RaftNode::new(1);
    node.start_election().unwrap();
    node.propose(Command::AddNode(A).encode()).unwrap();
    node.propose(Command::AssignContainer { node_id: A, container_id: X }.encode()).unwrap();
    let mut state = ClusterState::new(1);
    assert_eq!(node.apply_committed(&mut state), 2);
    node.propose(Command::AssignContainer { node_id: A, container_id: Y }.encode()).unwrap();
    assert_eq!(node.last_applied, 2);
    assert_eq!(node.apply_committed(&mut state), 1);
    assert_eq!(node.last_applied, 3);
    assert_eq!(state.get_node_containers(&A), vec![X, Y]);
}

#[test]
fn snapshot_is_a_copy() {
    let mut state = ClusterState::new(1);
    state.add_node(A);
    state.assign_container(A, X);
    let copy = state.snapshot();
    state.assign_container(A, Y);
    assert_eq!(copy.get_node_containers(&A), vec![X]);
    assert_eq!(state.get_node_containers(&A), vec![X, Y]);
    assert_eq!(copy.cluster_id, 1);
}

#[test]
fn commands_are_read_back_from_their_bytes() {
    let all = [
        Command::AddNode(A),
        Command::RemoveNode(B),
        Command::AssignContainer { node_id: A, container_id: X },
        Command::UnassignContainer { node_id: u128::MAX, container_id: 0 },
        Command::AllocateVolume { pool_id: X, volume_id: Y },
        Command::SetLeader(0),
    ];
    for c in all {
        let bytes = c.encode();
        assert_eq!(Command::decode(&bytes), Some(c));
    }
    let bytes = Command::AddNode(0x0102).encode();
    assert_eq!(bytes.len(), 18);
    assert_eq!(&bytes[..4], &[1, 1, 2, 1]);
    assert!(bytes[4..].iter().all(|b| *b == 0));
    let two = Command::AssignContainer { node_id: 1, container_id: 2 }.encode();
    assert_eq!(two.len(), 34);
    assert_eq!(two[1], 3);
    assert_eq!(two[2], 1);
    assert_eq!(two[18], 2);
}

#[test]
fn bytes_that_are_no_command_are_refused() {
    assert_eq!(Command::decode(&[]), None);
    assert_eq!(Command::decode(&[1]), None);
    let mut bytes = Command::AddNode(A).encode();
    bytes[0] = 2;
    assert_eq!(Command::decode(&bytes), None);
    let mut bytes = Command::AddNode(A).encode();
    bytes[1] = 3;
    assert_eq!(Command::decode(&bytes), None);
    let mut bytes = Command::AddNode(A).encode();
    bytes[1] = 0;
    assert_eq!(Command::decode(&bytes), None);
    let mut bytes = Command::AddNode(A).encode();
    bytes.push(0);
    assert_eq!(Command::decode(&bytes), None);
    let mut bytes = Command::AssignContainer { node_id: A, container_id: X }.encode();
    bytes[1] = 1;
    assert_eq!(Command::decode(&bytes), None);
    bytes.pop();
    assert_eq!(Command::decode(&bytes), None);
}
