use arm_hypervisor::cluster::{ClusterState, Command, MembershipManager, RaftNode};
use arm_hypervisor::models::{Node, NodeResources, NodeStatus};

fn node(id: u128, status: NodeStatus, last_seen: i64) -> Node {
    Node {
        id,
        name: format!("node-{}", id),
        address: "10.0.0.1".to_string(),
        port: 7946,
        status,
        cluster_id: None,
        resources: NodeResources { cpu_cores: 4, memory_total: 8, memory_used: 1, disk_total: 100, disk_used: 10 },
        joined_at: 0,
        last_seen,
    }
}

#[test]
fn nodes_are_added_found_and_removed() {
    let mut members = MembershipManager::new(1);
    assert_eq!(members.node_count(), 0);
    assert!(members.get_local_node().is_none());
    members.add_node(node(1, NodeStatus::Online, 0));
    members.add_node(node(2, NodeStatus::Online, 0));
    assert_eq!(members.node_count(), 2);
    assert!(members.is_member(&2));
    assert!(!members.is_member(&3));
    assert_eq!(members.get_node(&2).unwrap().name, "node-2");
    assert_eq!(members.get_local_node().unwrap().id, 1);
    let mut ids: Vec<u128> = members.list_nodes().iter().map(|n| n.id).collect();
    ids.sort();
    assert_eq!(ids, vec![1, 2]);
    // adding again replaces
    let mut renamed = node(2, NodeStatus::Offline, 5);
    renamed.name = "other".to_string();
    members.add_node(renamed);
    assert_eq!(members.node_count(), 2);
    assert_eq!(members.get_node(&2).unwrap().name, "other");
    members.remove_node(&2);
    members.remove_node(&2);
    assert_eq!(members.node_count(), 1);
    assert!(members.get_node(&2).is_none());
}

#[test]
fn status_and_resources_are_updated_in_place() {
    let mut members = MembershipManager::new(1);
    members.add_node(node(2, NodeStatus::Online, 10));
    members.update_node_status_at(&2, NodeStatus::Offline, 77);
    let seen = members.get_node(&2).unwrap();
    assert_eq!(seen.status, NodeStatus::Offline);
    assert_eq!(seen.last_seen, 77);
    assert_eq!(seen.name, "node-2");
    members.update_node_status_at(&9, NodeStatus::Offline, 77);
    assert_eq!(members.node_count(), 1);
    let resources =
        NodeResources { cpu_cores: 8, memory_total: 16, memory_used: 2, disk_total: 200, disk_used: 20 };
    members.update_node_resources(&2, resources);
    members.update_node_resources(&9, resources);
    assert_eq!(members.get_node(&2).unwrap().resources, resources);
    assert_eq!(members.get_node(&2).unwrap().status, NodeStatus::Offline);
    // with the present time
    members.update_node_status(&2, NodeStatus::Online);
    let now = members.get_node(&2).unwrap();
    assert_eq!(now.status, NodeStatus::Online);
    assert!(now.last_seen > 1_600_000_000_000);
}

#[test]
fn silent_nodes_are_proposed_for_removal() {
    let mut members = MembershipManager::new(1);
    members.add_node(node(1, NodeStatus::Online, 0));
    members.add_node(node(2, NodeStatus::Online, 1_000));
    members.add_node(node(3, NodeStatus::Offline, 4_000));
    members.add_node(node(4, NodeStatus::Joining, 0));
    members.add_node(node(5, NodeStatus::Leaving, 0));
    members.add_node(node(6, NodeStatus::Online, 9_999));
    let mut stale = members.stale_nodes(10_000, 5_000);
    stale.sort();
    assert_eq!(stale, vec![2, 3]);
    assert!(members.stale_nodes(10_000, 9_000).is_empty());
    assert_eq!(members.stale_nodes(6_000, 5_000), Vec::<u128>::new());
    assert_eq!(members.stale_nodes(6_001, 5_000), vec![2]);
    let mut proposals = members.removal_proposals(10_000, 5_000);
    proposals.sort_by_key(|c| match c {
        Command::RemoveNode(id) => *id,
        _ => 0,
    });
    assert_eq!(proposals, vec![Command::RemoveNode(2), Command::RemoveNode(3)]);
    // proposing changes nothing: the roster waits for the commit
    assert_eq!(members.node_count(), 6);
    members.apply(&Command::RemoveNode(2));
    assert_eq!(members.node_count(), 5);
    assert!(!members.is_member(&2));
    assert_eq!(members.stale_nodes(i64::MAX, 0).len(), 2);
    assert!(members.stale_nodes(i64::MIN, i64::MAX).is_empty());
}

#[test]
fn committed_commands_change_the_roster() {
    let mut members = MembershipManager::new(1);
    members.begin_join(node(7, NodeStatus::Online, 0), 3);
    assert_eq!(members.get_node(&7).unwrap().status, NodeStatus::Joining);
    members.apply(&Command::AssignContainer { node_id: 7, container_id: 1 });
    members.apply(&Command::SetLeader(7));
    assert_eq!(members.get_node(&7).unwrap().status, NodeStatus::Joining);
    members.apply(&Command::AddNode(7));
    assert_eq!(members.get_node(&7).unwrap().status, NodeStatus::Online);
    assert_eq!(members.promotion(&7, 100), None);
    members.apply(&Command::AddNode(8));
    assert!(!members.is_member(&8));
    members.apply(&Command::RemoveNode(7));
    assert!(!members.is_member(&7));
}

#[test]
fn scenario_a_joining_node_votes_only_after_catching_up() {
    // a leader with five committed entries
    let mut leader = RaftNode::new(1);
    leader.start_election().unwrap();
    for i in 0..5u8 {
        leader.propose(vec![i]).unwrap();
    }
    assert_eq!(leader.commit_index, 5);
    let mut members = MembershipManager::new(1);
    members.add_node(node(1, NodeStatus::Online, 0));
    // node 2 joins with an empty log
    let mut joiner = RaftNode::new(2);
    members.begin_join(node(2, NodeStatus::Online, 0), leader.commit_index);
    assert_eq!(members.get_node(&2).unwrap().status, NodeStatus::Joining);
    assert_eq!(members.promotion(&2, joiner.last_applied), None);
    assert!(leader.peers.is_empty());
    let mut state = arm_hypervisor::cluster::ClusterState::new(1);
    // it is brought up to date two entries at a time
    let mut rounds = 0;
    while (joiner.log.len() as u64) < leader.commit_index {
        assert_eq!(members.promotion(&2, joiner.last_applied), None);
        let request = leader.catch_up_request(joiner.log.len() as u64, 2).unwrap();
        let reply = joiner.handle_append_entries(&request);
        assert!(reply.success);
        joiner.apply_committed(&mut state);
        rounds += 1;
    }
    assert_eq!(rounds, 3);
    // one more round tells it that everything is committed
    let request = leader.catch_up_request(5, 2).unwrap();
    assert!(joiner.handle_append_entries(&request).success);
    joiner.apply_committed(&mut state);
    assert_eq!(joiner.last_applied, 5);
    assert_eq!(members.promotion(&2, 4), None);
    let proposal = members.promotion(&2, joiner.last_applied);
    assert_eq!(proposal, Some(Command::AddNode(2)));
    // it votes once the proposal is committed
    leader.propose(proposal.unwrap().encode()).unwrap();
    members.apply(&Command::AddNode(2));
    assert!(leader.add_peer(2));
    assert!(joiner.add_peer(1));
    assert_eq!(members.get_node(&2).unwrap().status, NodeStatus::Online);
    assert_eq!(members.promotion(&2, joiner.last_applied), None);
    // from now on the leader needs it for a majority
    leader.propose(vec![9]).unwrap();
    assert_eq!(leader.commit_index, 6);
    for _ in 0..4 {
        let request = leader.append_entries_for(2, 16).unwrap();
        let reply = joiner.handle_append_entries(&request);
        leader.handle_append_reply(2, &reply);
        if reply.success {
            break;
        }
    }
    assert_eq!(joiner.log.len(), 7);
    assert_eq!(leader.commit_index, 7);
    assert!(joiner.catch_up_request(0, 1).is_none());
    assert!(leader.catch_up_request(99, 1).is_none());
}

#[test]
fn the_count_follows_what_is_added_and_removed() {
    let mut manager = MembershipManager::new(1);
    assert_eq!(manager.node_count(), 0);
    manager.add_node(node(1, NodeStatus::Online, 0));
    manager.add_node(node(2, NodeStatus::Online, 0));
    assert_eq!(manager.node_count(), 2);
    // a record in place of an earlier one adds nothing
    manager.add_node(node(2, NodeStatus::Offline, 5));
    assert_eq!(manager.node_count(), 2);
    assert_eq!(manager.get_node(&2).unwrap().status, NodeStatus::Offline);
    manager.add_node(node(3, NodeStatus::Joining, 0));
    assert_eq!(manager.node_count(), 3);
    assert!(manager.is_member(&1) && manager.is_member(&2) && manager.is_member(&3));
    manager.remove_node(&2);
    assert_eq!(manager.node_count(), 2);
    assert!(!manager.is_member(&2));
    // an unknown node is removed without effect
    manager.remove_node(&2);
    manager.remove_node(&99);
    assert_eq!(manager.node_count(), 2);
    assert!(manager.is_member(&1) && manager.is_member(&3));
}

#[test]
fn committed_membership_commands_change_state_roster_and_peers() {
    let mut leader = RaftNode::new(1);
    let mut state = ClusterState::new(9);
    let mut members = MembershipManager::new(1);
    members.add_node(node(1, NodeStatus::Online, 0));
    members.begin_join(node(2, NodeStatus::Offline, 0), 0);
    members.begin_join(node(3, NodeStatus::Offline, 0), 0);
    leader.start_election().unwrap();
    let commands = [
        Command::AddNode(1).encode(),
        Command::AddNode(2).encode(),
        vec![0xff],
        Command::AddNode(3).encode(),
        Command::AssignContainer { node_id: 2, container_id: 70 }.encode(),
        Command::AddNode(2).encode(),
        Command::RemoveNode(3).encode(),
        Command::RemoveNode(8).encode(),
    ];
    for c in commands {
        leader.propose(c).unwrap();
    }
    // a single node commits at once
    assert_eq!(leader.commit_index, 8);
    assert_eq!(leader.last_applied, 0);
    assert_eq!(leader.apply_membership(&mut members, &mut state), 8);
    assert_eq!(leader.last_applied, 8);
    assert_eq!(leader.peers, vec![2]);
    assert_eq!(leader.state, arm_hypervisor::cluster::RaftState::Leader);
    assert!(state.has_node(&1) && state.has_node(&2) && !state.has_node(&3));
    assert_eq!(state.get_node_containers(&2), vec![70]);
    assert_eq!(members.node_count(), 2);
    assert_eq!(members.get_node(&2).unwrap().status, NodeStatus::Online);
    assert!(!members.is_member(&3));
    assert_eq!(members.promotion(&2, 100), None);
    // nothing is left to do
    assert_eq!(leader.apply_membership(&mut members, &mut state), 0);
    assert_eq!(leader.peers, vec![2]);
    // with a peer the leader needs its answer before it commits and applies more
    assert_eq!(leader.propose(Command::RemoveNode(2).encode()), Some(9));
    assert_eq!(leader.commit_index, 8);
    assert_eq!(leader.apply_membership(&mut members, &mut state), 0);
    assert!(members.is_member(&2));
}
