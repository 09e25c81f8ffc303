use arm_hypervisor::cluster::consensus::{contains_id, quorum_of};
use arm_hypervisor::cluster::replication::{check_batch, first_divergence};
use arm_hypervisor::cluster::{
    AppendReply, AppendRequest, ClusterError, ClusterState, Command, CommandRouter, LogEntry, Message,
    Progress, Proposal, RaftNode, RaftState, Rejection, Route, VoteReply, VoteRequest,
};

/// A cluster in memory: the nodes, and which of them can be reached.
struct Net {
    nodes: Vec<RaftNode>,
    up: Vec<bool>,
    side: Vec<u8>,
}

fn cluster(size: usize) -> Net {
    let mut nodes = Vec::new();
    for i in 0..size {
        let mut node = RaftNode::new(i as u128 + 1);
        for j in 0..size {
            if i != j {
                assert!(node.add_peer(j as u128 + 1));
            }
        }
        nodes.push(node);
    }
    Net { nodes, up: vec![true; size], side: vec![0; size] }
}

impl Net {
    fn reach(&self, a: usize, b: usize) -> bool {
        self.up[a] && self.up[b] && self.side[a] == self.side[b]
    }

    /// Node `c` stands for election; every node it reaches answers.
    fn elect(&mut self, c: usize) -> bool {
        let request = self.nodes[c].start_election().unwrap();
        for j in 0..self.nodes.len() {
            if j != c && self.reach(c, j) {
                let reply = self.nodes[j].handle_request_vote(&request);
                let from = self.nodes[j].node_id;
                self.nodes[c].handle_vote_reply(from, &reply);
            }
        }
        self.nodes[c].state == RaftState::Leader
    }

    /// The leader `l` sends to every node it reaches until nothing changes.
    fn replicate(&mut self, l: usize) {
        for j in 0..self.nodes.len() {
            if j == l || !self.reach(l, j) {
                continue;
            }
            let peer = self.nodes[j].node_id;
            for _ in 0..64 {
                let request = match self.nodes[l].append_entries_for(peer, 16) {
                    Some(r) => r,
                    None => break,
                };
                let reply = self.nodes[j].handle_append_entries(&request);
                let from = self.nodes[j].node_id;
                self.nodes[l].handle_append_reply(from, &reply);
                if reply.success && reply.match_index as usize == self.nodes[l].log.len() {
                    break;
                }
                if self.nodes[l].state != RaftState::Leader {
                    break;
                }
            }
        }
    }

    fn leaders_of_term(&self, term: u64) -> usize {
        self.nodes.iter().filter(|n| n.state == RaftState::Leader && n.current_term == term).count()
    }
}

fn commands(node: &RaftNode) -> Vec<Vec<u8>> {
    node.log.iter().map(|e| e.command.clone()).collect()
}

fn entry(term: u64, index: u64, byte: u8) -> LogEntry {
    LogEntry { term, index, command: vec![byte] }
}

#[test]
fn new_node_is_a_follower_of_term_zero() {
    let node = RaftNode::new(7);
    assert_eq!(node.node_id, 7);
    assert_eq!(node.state, RaftState::Follower);
    assert_eq!(node.current_term, 0);
    assert_eq!(node.voted_for, None);
    assert!(node.log.is_empty());
    assert_eq!(node.commit_index, 0);
    assert_eq!(node.last_applied, 0);
    assert!(node.peers.is_empty());
    let status = node.status();
    assert_eq!(status.role, RaftState::Follower);
    assert_eq!(status.term, 0);
    assert_eq!(status.commit_index, 0);
    assert_eq!(status.leader_id, None);
}

#[test]
fn quorum_is_half_plus_one() {
    assert_eq!(quorum_of(0), 1);
    assert_eq!(quorum_of(1), 2);
    assert_eq!(quorum_of(2), 2);
    assert_eq!(quorum_of(3), 3);
    assert_eq!(quorum_of(4), 3);
    assert_eq!(arm_hypervisor::cluster::quorum_threshold(5), 3);
    assert_eq!(arm_hypervisor::cluster::quorum_threshold(4), 3);
    assert_eq!(arm_hypervisor::cluster::quorum_threshold(1), 1);
}

#[test]
fn become_candidate_votes_for_itself_in_the_next_term() {
    let mut node = RaftNode::new(1);
    node.add_peer(2);
    node.add_peer(3);
    assert!(node.become_candidate().is_ok());
    assert_eq!(node.state, RaftState::Candidate);
    assert_eq!(node.current_term, 1);
    assert_eq!(node.voted_for, Some(1));
    assert_eq!(node.votes_received, vec![1]);
    assert_eq!(node.leader_id, None);
}

#[test]
fn become_candidate_fails_when_the_term_cannot_grow() {
    let mut node = RaftNode::new(1);
    node.become_follower(u64::MAX);
    assert_eq!(node.current_term, u64::MAX);
    match node.become_candidate() {
        Err(ClusterError::Consensus(_)) => {}
        other => panic!("unexpected {:?}", other),
    }
    assert_eq!(node.current_term, u64::MAX);
    assert_eq!(node.state, RaftState::Follower);
}

#[test]
fn become_leader_needs_a_majority() {
    let mut node = RaftNode::new(1);
    node.add_peer(2);
    node.add_peer(3);
    assert!(node.become_leader().is_err());
    node.become_candidate().unwrap();
    assert!(node.become_leader().is_err());
    assert_eq!(node.state, RaftState::Candidate);
    node.handle_vote_reply(2, &VoteReply { term: 1, granted: true });
    assert_eq!(node.state, RaftState::Leader);
    assert_eq!(node.leader_id, Some(1));
    assert_eq!(node.next_index.get(&2), Some(&1));
    assert_eq!(node.next_index.get(&3), Some(&1));
    assert_eq!(node.match_index.get(&2), Some(&0));
}

#[test]
fn a_single_node_leads_at_once() {
    let mut node = RaftNode::new(9);
    let request = node.start_election().unwrap();
    assert_eq!(request, VoteRequest { term: 1, candidate_id: 9, last_log_index: 0, last_log_term: 0 });
    assert_eq!(node.state, RaftState::Leader);
    assert_eq!(node.propose(vec![1, 2, 3]), Some(1));
    assert_eq!(node.commit_index, 1);
}

#[test]
fn become_follower_only_moves_forward() {
    let mut node = RaftNode::new(1);
    node.add_peer(2);
    node.become_candidate().unwrap();
    node.become_follower(1);
    assert_eq!(node.state, RaftState::Candidate);
    assert_eq!(node.voted_for, Some(1));
    node.become_follower(5);
    assert_eq!(node.state, RaftState::Follower);
    assert_eq!(node.current_term, 5);
    assert_eq!(node.voted_for, None);
    node.become_follower(3);
    assert_eq!(node.current_term, 5);
}

#[test]
fn append_entry_takes_what_continues_the_numbering() {
    let mut node = RaftNode::new(1);
    node.become_follower(3);
    assert!(node.append_entry(entry(1, 1, 0)).is_ok());
    // a gap, a position taken, a position before the start
    for refused in [entry(1, 3, 0), entry(1, 1, 0), entry(1, 0, 0)] {
        match node.append_entry(refused) {
            Err(ClusterError::Consensus(_)) => {}
            _ => panic!("an entry that leaves a gap was taken"),
        }
        assert_eq!(node.log.len(), 1);
    }
    // the term of an entry is not held against the node's or the last entry's
    assert!(node.append_entry(entry(4, 2, 5)).is_ok());
    assert!(node.append_entry(entry(2, 3, 6)).is_ok());
    assert_eq!(node.log.len(), 3);
    assert_eq!(commands(&node), vec![vec![0], vec![5], vec![6]]);
    assert_eq!(node.last_log_term(), 2);
    assert_eq!(node.term_at(0), 0);
    assert_eq!(node.term_at(1), 1);
    assert_eq!(node.term_at(2), 4);
    assert_eq!(node.term_at(3), 2);
    assert_eq!(node.term_at(4), 0);
    // nothing else changed
    assert_eq!(node.current_term, 3);
    assert_eq!(node.state, RaftState::Follower);
    assert_eq!(node.voted_for, None);
    assert_eq!((node.commit_index, node.last_applied), (0, 0));
}

#[test]
fn entries_on_a_fresh_node_are_appended_and_committed() {
    let mut node = RaftNode::new(0);
    assert!(node.append_entry(LogEntry { term: 1, index: 1, command: vec![] }).is_ok());
    assert!(node.append_entry(LogEntry { term: 1, index: 2, command: vec![] }).is_ok());
    node.commit(2);
    node.commit(1);
    assert_eq!(node.commit_index, 2);
    assert_eq!(node.log.len(), 2);
    assert_eq!(node.current_term, 0);
}

#[test]
fn a_leader_finds_what_it_may_commit_in_a_log_out_of_order() {
    // entries put in from outside, their terms not in order
    let mut node = RaftNode::new(1);
    node.become_follower(1);
    assert!(node.append_entry(entry(2, 1, 1)).is_ok());
    assert!(node.append_entry(entry(1, 2, 2)).is_ok());
    node.start_election().unwrap();
    assert_eq!((node.state, node.current_term), (RaftState::Leader, 2));
    node.advance_commit_index();
    assert_eq!(node.commit_index, 1);
}

#[test]
fn commit_never_moves_back_nor_past_the_log() {
    let mut node = RaftNode::new(1);
    node.become_follower(1);
    node.append_entry(entry(1, 1, 0)).unwrap();
    node.append_entry(entry(1, 2, 0)).unwrap();
    node.commit(1);
    assert_eq!(node.commit_index, 1);
    node.commit(0);
    assert_eq!(node.commit_index, 1);
    node.commit(10);
    assert_eq!(node.commit_index, 2);
}

#[test]
fn peers_are_added_and_removed_once() {
    let mut node = RaftNode::new(1);
    assert!(!node.add_peer(1));
    assert!(node.add_peer(2));
    assert!(!node.add_peer(2));
    assert!(node.add_peer(3));
    assert_eq!(node.peers, vec![2, 3]);
    assert!(contains_id(&node.peers, 3));
    assert!(node.remove_peer(2));
    assert!(!node.remove_peer(2));
    assert_eq!(node.peers, vec![3]);
}

#[test]
fn a_vote_is_granted_once_per_term() {
    let mut node = RaftNode::new(1);
    node.add_peer(2);
    node.add_peer(3);
    let first = VoteRequest { term: 1, candidate_id: 2, last_log_index: 0, last_log_term: 0 };
    let second = VoteRequest { term: 1, candidate_id: 3, last_log_index: 0, last_log_term: 0 };
    assert_eq!(node.handle_request_vote(&first), VoteReply { term: 1, granted: true });
    assert_eq!(node.handle_request_vote(&second), VoteReply { term: 1, granted: false });
    assert_eq!(node.handle_request_vote(&first), VoteReply { term: 1, granted: true });
    assert_eq!(node.voted_for, Some(2));
    let later = VoteRequest { term: 2, candidate_id: 3, last_log_index: 0, last_log_term: 0 };
    assert_eq!(node.handle_request_vote(&later), VoteReply { term: 2, granted: true });
    assert_eq!(node.voted_for, Some(3));
}

#[test]
fn a_stale_candidate_is_told_the_term() {
    let mut node = RaftNode::new(1);
    node.become_follower(4);
    let request = VoteRequest { term: 2, candidate_id: 2, last_log_index: 9, last_log_term: 2 };
    assert_eq!(node.handle_request_vote(&request), VoteReply { term: 4, granted: false });
    assert_eq!(node.current_term, 4);
    assert_eq!(node.voted_for, None);
}

#[test]
fn a_vote_needs_an_up_to_date_log() {
    let mut node = RaftNode::new(1);
    node.become_follower(2);
    node.append_entry(entry(1, 1, 0)).unwrap();
    node.append_entry(entry(2, 2, 0)).unwrap();
    let shorter = VoteRequest { term: 3, candidate_id: 2, last_log_index: 1, last_log_term: 2 };
    assert!(!node.handle_request_vote(&shorter).granted);
    let older = VoteRequest { term: 3, candidate_id: 2, last_log_index: 5, last_log_term: 1 };
    assert!(!node.handle_request_vote(&older).granted);
    let equal = VoteRequest { term: 3, candidate_id: 2, last_log_index: 2, last_log_term: 2 };
    assert!(node.handle_request_vote(&equal).granted);
    let mut other = RaftNode::new(5);
    other.become_follower(2);
    other.append_entry(entry(2, 1, 0)).unwrap();
    let newer = VoteRequest { term: 3, candidate_id: 2, last_log_index: 1, last_log_term: 3 };
    assert!(other.handle_request_vote(&newer).granted);
}

#[test]
fn votes_of_other_terms_and_strangers_do_not_count() {
    let mut node = RaftNode::new(1);
    for p in 2..=5 {
        node.add_peer(p);
    }
    node.become_candidate().unwrap();
    node.handle_vote_reply(2, &VoteReply { term: 0, granted: true });
    node.handle_vote_reply(9, &VoteReply { term: 1, granted: true });
    node.handle_vote_reply(2, &VoteReply { term: 1, granted: false });
    assert_eq!(node.votes_received, vec![1]);
    node.handle_vote_reply(2, &VoteReply { term: 1, granted: true });
    node.handle_vote_reply(2, &VoteReply { term: 1, granted: true });
    assert_eq!(node.votes_received, vec![1, 2]);
    assert_eq!(node.state, RaftState::Candidate);
    node.handle_vote_reply(3, &VoteReply { term: 1, granted: true });
    assert_eq!(node.state, RaftState::Leader);
}

#[test]
fn a_candidate_steps_down_on_a_later_term() {
    let mut node = RaftNode::new(1);
    node.add_peer(2);
    node.add_peer(3);
    node.become_candidate().unwrap();
    node.handle_vote_reply(2, &VoteReply { term: 7, granted: false });
    assert_eq!(node.state, RaftState::Follower);
    assert_eq!(node.current_term, 7);
    assert_eq!(node.voted_for, None);
    assert!(node.votes_received.is_empty());
}

#[test]
fn election_safety_on_a_split_vote() {
    // Two candidates of the same term: at most one of them can win.
    let mut net = cluster(5);
    let a = net.nodes[0].start_election().unwrap();
    let b = net.nodes[1].start_election().unwrap();
    assert_eq!(a.term, b.term);
    // nodes 3 and 4 hear of node 1 first, node 5 of node 2 first
    for (voter, first, second) in [(2usize, &a, &b), (3, &a, &b), (4, &b, &a)] {
        let r1 = net.nodes[voter].handle_request_vote(first);
        let r2 = net.nodes[voter].handle_request_vote(second);
        assert!(r1.granted);
        assert!(!r2.granted);
        let id = net.nodes[voter].node_id;
        let (c1, c2) = if first.candidate_id == 1 { (0, 1) } else { (1, 0) };
        net.nodes[c1].handle_vote_reply(id, &r1);
        net.nodes[c2].handle_vote_reply(id, &r2);
    }
    assert_eq!(net.nodes[0].state, RaftState::Leader);
    assert_eq!(net.nodes[1].state, RaftState::Candidate);
    assert_eq!(net.leaders_of_term(1), 1);
}

#[test]
fn heartbeat_makes_a_candidate_follow() {
    let mut node = RaftNode::new(2);
    node.add_peer(1);
    node.add_peer(3);
    node.become_candidate().unwrap();
    let heartbeat = AppendRequest {
        term: 1,
        leader_id: 1,
        prev_log_index: 0,
        prev_log_term: 0,
        entries: vec![],
        leader_commit: 0,
    };
    let reply = node.handle_append_entries(&heartbeat);
    assert_eq!(reply, AppendReply { term: 1, success: true, match_index: 0 });
    assert_eq!(node.state, RaftState::Follower);
    assert_eq!(node.leader_id, Some(1));
    assert_eq!(node.voted_for, Some(2));
}

#[test]
fn stale_append_is_refused_with_the_term() {
    let mut node = RaftNode::new(2);
    node.become_follower(5);
    let request = AppendRequest {
        term: 3,
        leader_id: 1,
        prev_log_index: 0,
        prev_log_term: 0,
        entries: vec![entry(3, 1, 1)],
        leader_commit: 1,
    };
    let reply = node.handle_append_entries(&request);
    assert_eq!(reply, AppendReply { term: 5, success: false, match_index: 0 });
    assert!(node.log.is_empty());
    assert_eq!(node.leader_id, None);
}

#[test]
fn append_needs_the_previous_entry() {
    let mut node = RaftNode::new(2);
    let request = AppendRequest {
        term: 1,
        leader_id: 1,
        prev_log_index: 1,
        prev_log_term: 1,
        entries: vec![entry(1, 2, 1)],
        leader_commit: 0,
    };
    let reply = node.handle_append_entries(&request);
    assert_eq!(reply, AppendReply { term: 1, success: false, match_index: 0 });
    assert!(node.log.is_empty());
    // the sender is followed all the same
    assert_eq!(node.current_term, 1);
    assert_eq!(node.leader_id, Some(1));
}

#[test]
fn malformed_batches_are_refused() {
    let base = |entries: Vec<LogEntry>| AppendRequest {
        term: 2,
        leader_id: 1,
        prev_log_index: 0,
        prev_log_term: 0,
        entries,
        leader_commit: 0,
    };
    assert!(check_batch(&base(vec![entry(1, 1, 0), entry(2, 2, 0)])));
    assert!(!check_batch(&base(vec![entry(1, 2, 0)])));
    assert!(!check_batch(&base(vec![entry(1, 1, 0), entry(1, 3, 0)])));
    assert!(!check_batch(&base(vec![entry(2, 1, 0), entry(1, 2, 0)])));
    assert!(!check_batch(&base(vec![entry(3, 1, 0)])));
    let mut bad_prev = base(vec![]);
    bad_prev.prev_log_term = 3;
    assert!(!check_batch(&bad_prev));
    let mut node = RaftNode::new(2);
    let reply = node.handle_append_entries(&base(vec![entry(1, 2, 0)]));
    assert!(!reply.success);
    assert!(node.log.is_empty());
}

#[test]
fn conflicting_suffix_is_replaced() {
    let mut node = RaftNode::new(2);
    node.become_follower(2);
    node.append_entry(entry(1, 1, 10)).unwrap();
    node.append_entry(entry(1, 2, 11)).unwrap();
    node.append_entry(entry(2, 3, 12)).unwrap();
    let log = vec![entry(1, 1, 10), entry(1, 2, 11), entry(2, 3, 12)];
    let theirs = vec![entry(1, 2, 11), entry(3, 3, 20), entry(3, 4, 21)];
    assert_eq!(first_divergence(&log, 1, &theirs), 1);
    let request = AppendRequest {
        term: 3,
        leader_id: 1,
        prev_log_index: 1,
        prev_log_term: 1,
        entries: theirs,
        leader_commit: 3,
    };
    let reply = node.handle_append_entries(&request);
    assert_eq!(reply, AppendReply { term: 3, success: true, match_index: 4 });
    assert_eq!(commands(&node), vec![vec![10], vec![11], vec![20], vec![21]]);
    assert_eq!(node.log[2].term, 3);
    assert_eq!(node.commit_index, 3);
}

#[test]
fn entries_already_held_leave_the_log_alone() {
    let mut node = RaftNode::new(2);
    node.become_follower(1);
    for i in 1..=4 {
        node.append_entry(entry(1, i, i as u8)).unwrap();
    }
    // an old, shorter request arrives late: nothing is cut off
    let request = AppendRequest {
        term: 1,
        leader_id: 1,
        prev_log_index: 1,
        prev_log_term: 1,
        entries: vec![entry(1, 2, 2)],
        leader_commit: 2,
    };
    let reply = node.handle_append_entries(&request);
    assert_eq!(reply, AppendReply { term: 1, success: true, match_index: 2 });
    assert_eq!(node.log.len(), 4);
    assert_eq!(node.commit_index, 2);
}

#[test]
fn committed_entries_are_never_cut_off() {
    let mut node = RaftNode::new(2);
    node.become_follower(1);
    node.append_entry(entry(1, 1, 1)).unwrap();
    node.append_entry(entry(1, 2, 2)).unwrap();
    node.commit(2);
    let request = AppendRequest {
        term: 2,
        leader_id: 3,
        prev_log_index: 1,
        prev_log_term: 1,
        entries: vec![entry(2, 2, 9)],
        leader_commit: 0,
    };
    let reply = node.handle_append_entries(&request);
    assert!(!reply.success);
    assert_eq!(commands(&node), vec![vec![1], vec![2]]);
    assert_eq!(node.commit_index, 2);
}

#[test]
fn a_leader_refuses_appends_of_its_own_term() {
    let mut net = cluster(3);
    assert!(net.elect(0));
    net.nodes[0].propose(vec![1]).unwrap();
    let request = AppendRequest {
        term: 1,
        leader_id: 2,
        prev_log_index: 0,
        prev_log_term: 0,
        entries: vec![entry(1, 1, 9)],
        leader_commit: 0,
    };
    let reply = net.nodes[0].handle_append_entries(&request);
    assert_eq!(reply, AppendReply { term: 1, success: false, match_index: 0 });
    assert_eq!(net.nodes[0].state, RaftState::Leader);
    assert_eq!(commands(&net.nodes[0]), vec![vec![1]]);
}

#[test]
fn leader_append_only_while_it_leads() {
    let mut net = cluster(3);
    assert!(net.elect(0));
    let mut seen: Vec<Vec<u8>> = Vec::new();
    for round in 0..5u8 {
        net.nodes[0].propose(vec![round]).unwrap();
        net.replicate(0);
        // a vote request of its own term, a stale answer, a refusal
        let term = net.nodes[0].current_term;
        net.nodes[0].handle_request_vote(&VoteRequest {
            term,
            candidate_id: 2,
            last_log_index: 99,
            last_log_term: 99,
        });
        net.nodes[0].handle_append_reply(2, &AppendReply { term, success: false, match_index: 0 });
        let now = commands(&net.nodes[0]);
        assert!(now.len() > seen.len());
        assert_eq!(&now[..seen.len()], &seen[..]);
        seen = now;
        assert_eq!(net.nodes[0].state, RaftState::Leader);
    }
}

#[test]
fn commit_needs_a_majority_and_the_own_term() {
    let mut net = cluster(5);
    assert!(net.elect(0));
    assert_eq!(net.nodes[0].propose(vec![1]), Some(1));
    assert_eq!(net.nodes[0].commit_index, 0);
    assert!(!net.nodes[0].is_committable(1));
    net.nodes[0].handle_append_reply(2, &AppendReply { term: 1, success: true, match_index: 1 });
    assert_eq!(net.nodes[0].count_holders(1), 1);
    assert_eq!(net.nodes[0].commit_index, 0);
    net.nodes[0].handle_append_reply(3, &AppendReply { term: 1, success: true, match_index: 1 });
    assert_eq!(net.nodes[0].count_holders(1), 2);
    assert_eq!(net.nodes[0].commit_index, 1);
    assert_eq!(net.nodes[0].next_index.get(&3), Some(&2));
    assert_eq!(net.nodes[0].match_index.get(&3), Some(&1));
}

#[test]
fn entries_of_earlier_terms_commit_only_with_a_new_one() {
    // node 1 leads term 1 and replicates an entry to node 2 only
    let mut net = cluster(3);
    assert!(net.elect(0));
    net.nodes[0].propose(vec![1]).unwrap();
    net.up[2] = false;
    net.up[1] = false;
    // node 1 stands again after losing contact: term 2, same log
    net.up[1] = true;
    let request = net.nodes[0].append_entries_for(2, 16).unwrap();
    let reply = net.nodes[1].handle_append_entries(&request);
    assert!(reply.success);
    // the answer is lost; node 1 is elected for term 2 by node 3
    net.up[2] = true;
    net.up[1] = false;
    assert!(net.elect(0));
    assert_eq!(net.nodes[0].current_term, 2);
    assert_eq!(net.nodes[0].log[0].term, 1);
    // node 3 takes the old entry: it is on a majority, yet not committed
    net.replicate(0);
    assert_eq!(net.nodes[0].match_index.get(&3), Some(&1));
    assert_eq!(net.nodes[0].commit_index, 0);
    // an entry of the leader's own term commits both
    net.nodes[0].propose(vec![2]).unwrap();
    net.replicate(0);
    assert_eq!(net.nodes[0].commit_index, 2);
}

#[test]
fn a_refusal_steps_the_next_index_back() {
    let mut net = cluster(3);
    assert!(net.elect(0));
    for i in 0..3u8 {
        net.nodes[0].propose(vec![i]).unwrap();
    }
    net.nodes[0].next_index.insert(2, 4);
    let term = net.nodes[0].current_term;
    net.nodes[0].handle_append_reply(2, &AppendReply { term, success: false, match_index: 0 });
    assert_eq!(net.nodes[0].next_index.get(&2), Some(&3));
    net.nodes[0].handle_append_reply(2, &AppendReply { term, success: false, match_index: 0 });
    net.nodes[0].handle_append_reply(2, &AppendReply { term, success: false, match_index: 0 });
    net.nodes[0].handle_append_reply(2, &AppendReply { term, success: false, match_index: 0 });
    assert_eq!(net.nodes[0].next_index.get(&2), Some(&1));
    // answers of other terms and of strangers are dropped
    net.nodes[0].handle_append_reply(9, &AppendReply { term, success: true, match_index: 3 });
    net.nodes[0].handle_append_reply(2, &AppendReply { term: 0, success: true, match_index: 3 });
    assert_eq!(net.nodes[0].match_index.get(&2), Some(&0));
    // a reported position past the log is cut down to the log
    net.nodes[0].handle_append_reply(2, &AppendReply { term, success: true, match_index: 50 });
    assert_eq!(net.nodes[0].match_index.get(&2), Some(&3));
    assert_eq!(net.nodes[0].next_index.get(&2), Some(&4));
}

#[test]
fn append_requests_hold_what_the_peer_needs() {
    let mut net = cluster(3);
    assert!(net.elect(0));
    assert!(net.nodes[1].append_entries_for(1, 8).is_none());
    assert!(net.nodes[0].append_entries_for(9, 8).is_none());
    let heartbeat = net.nodes[0].append_entries_for(2, 8).unwrap();
    assert_eq!(heartbeat.entries.len(), 0);
    assert_eq!(heartbeat.prev_log_index, 0);
    for i in 0..5u8 {
        net.nodes[0].propose(vec![i]).unwrap();
    }
    let batch = net.nodes[0].append_entries_for(2, 2).unwrap();
    assert_eq!(batch.term, 1);
    assert_eq!(batch.leader_id, 1);
    assert_eq!(batch.prev_log_index, 0);
    assert_eq!(batch.prev_log_term, 0);
    assert_eq!(batch.entries.len(), 2);
    assert_eq!(batch.entries[1].index, 2);
    net.nodes[0].next_index.insert(2, 4);
    let tail = net.nodes[0].append_entries_for(2, 100).unwrap();
    assert_eq!(tail.prev_log_index, 3);
    assert_eq!(tail.prev_log_term, 1);
    assert_eq!(tail.entries.len(), 2);
    assert_eq!(tail.entries[0].command, vec![3]);
}

#[test]
fn log_matching_after_divergence_and_repair() {
    let mut net = cluster(3);
    assert!(net.elect(0));
    net.nodes[0].propose(vec![1]).unwrap();
    net.replicate(0);
    // node 1 is cut off and takes two commands nobody else sees
    net.side[0] = 1;
    net.nodes[0].propose(vec![2]).unwrap();
    net.nodes[0].propose(vec![3]).unwrap();
    // the others go on in term 2
    assert!(net.elect(1));
    net.nodes[1].propose(vec![4]).unwrap();
    net.replicate(1);
    assert_eq!(commands(&net.nodes[0]), vec![vec![1], vec![2], vec![3]]);
    assert_eq!(commands(&net.nodes[1]), vec![vec![1], vec![4]]);
    // wherever two logs hold the same term at a position, they agree up to it
    for a in 0..3 {
        for b in 0..3 {
            let (x, y) = (&net.nodes[a].log, &net.nodes[b].log);
            for i in 0..x.len().min(y.len()) {
                if x[i].term == y[i].term {
                    assert_eq!(commands(&net.nodes[a])[..=i], commands(&net.nodes[b])[..=i]);
                }
            }
        }
    }
    net.side[0] = 0;
    net.replicate(1);
    assert_eq!(commands(&net.nodes[0]), vec![vec![1], vec![4]]);
    assert_eq!(net.nodes[0].state, RaftState::Follower);
}

#[test]
fn scenario_leader_killed_in_a_cluster_of_five() {
    let mut net = cluster(5);
    assert!(net.elect(0));
    assert_eq!(net.nodes[0].propose(vec![1]), Some(1));
    net.replicate(0);
    assert_eq!(net.nodes[0].commit_index, 1);
    // the second command reaches node 2 only, the third nobody
    net.nodes[0].propose(vec![2]).unwrap();
    let request = net.nodes[0].append_entries_for(2, 16).unwrap();
    assert!(net.nodes[1].handle_append_entries(&request).success);
    net.nodes[0].propose(vec![3]).unwrap();
    assert_eq!(net.nodes[0].commit_index, 1);
    net.up[0] = false;
    // node 3 cannot win: node 2 holds more than it does, but 4 and 5 vote for it
    // node 2 stands first and wins in one round
    assert!(net.elect(1));
    assert_eq!(net.nodes[1].current_term, 2);
    assert_eq!(net.leaders_of_term(2), 1);
    net.nodes[1].propose(vec![4]).unwrap();
    net.replicate(1);
    assert_eq!(net.nodes[1].commit_index, 3);
    for i in 1..5 {
        assert_eq!(commands(&net.nodes[i]), vec![vec![1], vec![2], vec![4]]);
    }
    // the old leader comes back: what nobody took is discarded
    net.up[0] = true;
    net.replicate(1);
    assert_eq!(net.nodes[0].state, RaftState::Follower);
    assert_eq!(commands(&net.nodes[0]), vec![vec![1], vec![2], vec![4]]);
    assert_eq!(net.nodes[0].commit_index, 3);
}

#[test]
fn scenario_leader_killed_and_the_unreplicated_is_discarded() {
    let mut net = cluster(5);
    assert!(net.elect(0));
    net.nodes[0].propose(vec![1]).unwrap();
    net.replicate(0);
    net.nodes[0].propose(vec![2]).unwrap();
    let request = net.nodes[0].append_entries_for(2, 16).unwrap();
    assert!(net.nodes[1].handle_append_entries(&request).success);
    net.up[0] = false;
    // node 3 stands: node 2 refuses (its log holds more), 4 and 5 grant
    let request = net.nodes[2].start_election().unwrap();
    assert!(!net.nodes[1].handle_request_vote(&request).granted);
    for j in [3usize, 4] {
        let reply = net.nodes[j].handle_request_vote(&request);
        assert!(reply.granted);
        let id = net.nodes[j].node_id;
        net.nodes[2].handle_vote_reply(id, &reply);
    }
    assert_eq!(net.nodes[2].state, RaftState::Leader);
    net.nodes[2].propose(vec![5]).unwrap();
    net.replicate(2);
    assert_eq!(net.nodes[2].commit_index, 2);
    assert_eq!(commands(&net.nodes[1]), vec![vec![1], vec![5]]);
    // what was committed before is still where it was
    for i in 1..5 {
        assert_eq!(net.nodes[i].log[0].command, vec![1]);
    }
}

#[test]
fn scenario_partition_of_two_from_five() {
    let mut net = cluster(5);
    assert!(net.elect(0));
    net.nodes[0].propose(vec![1]).unwrap();
    net.replicate(0);
    assert_eq!(net.nodes[0].commit_index, 1);
    // nodes 1 and 2 on one side, 3, 4 and 5 on the other
    net.side = vec![1, 1, 0, 0, 0];
    let handle = CommandRouter::submit(&mut net.nodes[0], vec![9]).unwrap();
    net.replicate(0);
    assert_eq!(net.nodes[0].commit_index, 1);
    assert_eq!(CommandRouter::progress(&net.nodes[0], &handle), Progress::Pending);
    assert_eq!(CommandRouter::outcome(&net.nodes[0], &handle, false), None);
    assert_eq!(CommandRouter::outcome(&net.nodes[0], &handle, true), Some(Err(Rejection::NoQuorum)));
    // the minority cannot elect
    assert!(!net.elect(1));
    assert_eq!(net.nodes[1].state, RaftState::Candidate);
    // the majority elects and commits
    assert!(net.elect(2));
    net.nodes[2].propose(vec![2]).unwrap();
    net.nodes[2].propose(vec![3]).unwrap();
    net.replicate(2);
    assert_eq!(net.nodes[2].commit_index, 3);
    assert_eq!(net.nodes[0].commit_index, 1);
    // the partition heals
    net.side = vec![0; 5];
    net.replicate(2);
    for i in 0..5 {
        assert_eq!(commands(&net.nodes[i]), vec![vec![1], vec![2], vec![3]]);
        assert_eq!(net.nodes[i].commit_index, 3);
    }
    assert_eq!(net.nodes[0].state, RaftState::Follower);
    assert_eq!(net.nodes[1].state, RaftState::Follower);
    assert_eq!(CommandRouter::progress(&net.nodes[0], &handle), Progress::Discarded);
    assert_eq!(
        CommandRouter::outcome(&net.nodes[0], &handle, false),
        Some(Err(Rejection::NotLeader(3)))
    );
}

#[test]
fn leader_completeness_over_changes_of_leader() {
    let mut net = cluster(5);
    let mut committed: Vec<Vec<u8>> = Vec::new();
    let mut byte = 0u8;
    for round in 0..6usize {
        // some node that the majority can elect stands: the one with the longest log
        let down = round % 5;
        net.up = vec![true; 5];
        net.up[down] = false;
        let mut best = (down + 1) % 5;
        for i in 0..5 {
            if net.up[i] {
                let a = (net.nodes[i].last_log_term(), net.nodes[i].log.len());
                let b = (net.nodes[best].last_log_term(), net.nodes[best].log.len());
                if a > b {
                    best = i;
                }
            }
        }
        assert!(net.elect(best));
        // every entry committed so far is in the new leader's log, in place
        let held = commands(&net.nodes[best]);
        assert!(held.len() >= committed.len());
        assert_eq!(&held[..committed.len()], &committed[..]);
        byte += 1;
        net.nodes[best].propose(vec![byte]).unwrap();
        net.replicate(best);
        let upto = net.nodes[best].commit_index as usize;
        committed = commands(&net.nodes[best])[..upto].to_vec();
        assert_eq!(upto, net.nodes[best].log.len());
    }
}

#[test]
fn proposals_are_routed_to_the_leader() {
    let mut net = cluster(3);
    assert_eq!(CommandRouter::route(&net.nodes[1]), Route::NoLeader);
    assert_eq!(CommandRouter::submit(&mut net.nodes[1], vec![1]), Err(Rejection::NoLeader));
    assert!(net.elect(0));
    net.replicate(0);
    assert_eq!(CommandRouter::route(&net.nodes[0]), Route::Local);
    assert_eq!(CommandRouter::route(&net.nodes[1]), Route::Forward(1));
    assert_eq!(CommandRouter::submit(&mut net.nodes[1], vec![1]), Err(Rejection::NotLeader(1)));
    assert!(net.nodes[1].log.is_empty());
    assert_eq!(net.nodes[1].propose(vec![1]), None);
    let handle = CommandRouter::submit(&mut net.nodes[0], vec![7]).unwrap();
    assert_eq!(handle, Proposal { index: 1, term: 1 });
    assert_eq!(CommandRouter::outcome(&net.nodes[0], &handle, false), None);
    net.replicate(0);
    assert_eq!(CommandRouter::progress(&net.nodes[0], &handle), Progress::Committed);
    assert_eq!(CommandRouter::outcome(&net.nodes[0], &handle, true), Some(Ok(1)));
    let never = Proposal { index: 0, term: 1 };
    assert_eq!(CommandRouter::progress(&net.nodes[0], &never), Progress::Discarded);
    let other_term = Proposal { index: 1, term: 9 };
    assert_eq!(CommandRouter::progress(&net.nodes[0], &other_term), Progress::Discarded);
}

#[test]
fn committed_commands_are_applied_in_order() {
    let mut net = cluster(3);
    assert!(net.elect(0));
    let a = 0xa1u128;
    for command in [
        Command::AddNode(a),
        Command::AssignContainer { node_id: a, container_id: 1 },
        Command::AssignContainer { node_id: a, container_id: 2 },
        Command::UnassignContainer { node_id: a, container_id: 1 },
        Command::SetLeader(a),
    ] {
        net.nodes[0].propose(command.encode()).unwrap();
    }
    net.nodes[0].propose(vec![0xff, 0xff]).unwrap();
    net.replicate(0);
    net.replicate(0);
    let mut states = Vec::new();
    for i in 0..3 {
        let mut state = ClusterState::new(42);
        let applied = net.nodes[i].apply_committed(&mut state);
        assert_eq!(applied, 6);
        assert_eq!(net.nodes[i].last_applied, 6);
        assert_eq!(net.nodes[i].apply_committed(&mut state), 0);
        assert_eq!(state.get_node_containers(&a), vec![2]);
        assert_eq!(state.leader_id, Some(a));
        states.push(state);
    }
    assert_eq!(states[0].node_assignments, states[1].node_assignments);
    assert_eq!(states[1].node_assignments, states[2].node_assignments);
}

#[test]
fn a_damaged_log_is_refused_on_startup() {
    let good = vec![entry(1, 1, 1), entry(1, 2, 2), entry(3, 3, 3)];
    let node = RaftNode::restore(7, 3, Some(2), good).unwrap();
    assert_eq!(node.node_id, 7);
    assert_eq!(node.state, RaftState::Follower);
    assert_eq!(node.current_term, 3);
    assert_eq!(node.voted_for, Some(2));
    assert_eq!(node.log.len(), 3);
    assert_eq!((node.commit_index, node.last_applied), (0, 0));
    assert!(RaftNode::restore(7, 0, None, vec![]).is_ok());
    let damaged = [
        vec![entry(1, 2, 0)],
        vec![entry(1, 1, 0), entry(1, 3, 0)],
        vec![entry(1, 1, 0), entry(1, 1, 0)],
        vec![entry(2, 1, 0), entry(1, 2, 0)],
        vec![entry(1, 1, 0), entry(4, 2, 0)],
        vec![entry(1, 0, 0)],
    ];
    for log in damaged {
        match RaftNode::restore(7, 3, None, log) {
            Err(ClusterError::Consensus(_)) => {}
            _ => panic!("a damaged log was taken"),
        }
    }
    assert!(arm_hypervisor::cluster::recovery::check_log(&vec![entry(1, 1, 0)], 1));
    assert!(!arm_hypervisor::cluster::recovery::check_log(&vec![entry(2, 1, 0)], 1));
}

#[test]
fn contact_with_a_leader_is_told_from_noise() {
    let mut net = cluster(3);
    assert!(net.nodes[1].hears_leader(0));
    assert!(net.nodes[1].hears_leader(5));
    assert!(net.elect(0));
    assert!(!net.nodes[0].hears_leader(0));
    assert!(!net.nodes[0].hears_leader(1));
    assert!(net.nodes[0].hears_leader(2));
    assert!(!net.nodes[1].hears_leader(0));
    assert!(net.nodes[1].hears_leader(1));
}

#[test]
fn pending_commands_are_what_is_committed_and_not_applied() {
    let mut node = RaftNode::new(1);
    node.start_election().unwrap();
    assert!(node.pending_commands().is_empty());
    node.propose(Command::AddNode(5).encode()).unwrap();
    node.propose(vec![9, 9, 9]).unwrap();
    node.propose(Command::SetLeader(5).encode()).unwrap();
    assert_eq!(node.pending_commands(), vec![(1, Command::AddNode(5)), (3, Command::SetLeader(5))]);
    let mut state = ClusterState::new(1);
    node.apply_committed(&mut state);
    assert!(node.pending_commands().is_empty());
    node.propose(Command::RemoveNode(5).encode()).unwrap();
    assert_eq!(node.pending_commands(), vec![(4, Command::RemoveNode(5))]);
}

#[test]
fn messages_are_dispatched_to_their_handlers() {
    let mut a = RaftNode::new(1);
    let mut b = RaftNode::new(2);
    a.add_peer(2);
    a.add_peer(3);
    b.add_peer(1);
    b.add_peer(3);
    assert!(a.vote_requests().is_empty());
    assert!(a.heartbeats(8).is_empty());
    a.start_election().unwrap();
    let requests = a.vote_requests();
    assert_eq!(requests.len(), 2);
    assert_eq!(requests[0].0, 2);
    assert_eq!(requests[1].0, 3);
    assert_eq!(requests[0].1, VoteRequest { term: 1, candidate_id: 1, last_log_index: 0, last_log_term: 0 });
    let answer = b.receive(1, &Message::RequestVote(requests[0].1)).unwrap();
    match &answer {
        Message::RequestVoteResponse(reply) => assert_eq!(*reply, VoteReply { term: 1, granted: true }),
        _ => panic!("a vote request is answered by a vote"),
    }
    assert!(a.receive(2, &answer).is_none());
    assert_eq!(a.state, RaftState::Leader);
    assert!(a.vote_requests().is_empty());
    a.propose(vec![7]).unwrap();
    let beats = a.heartbeats(8);
    assert_eq!(beats.len(), 2);
    assert_eq!((beats[0].0, beats[1].0), (2, 3));
    assert_eq!(beats[0].1.entries.len(), 1);
    let sent = std::mem::replace(&mut a.heartbeats(8)[0].1.entries, vec![]);
    assert_eq!(sent[0].command, vec![7]);
    let request = a.append_entries_for(2, 8).unwrap();
    let answer = b.receive(1, &Message::AppendEntries(request)).unwrap();
    match &answer {
        Message::AppendEntriesResponse(reply) => {
            assert_eq!(*reply, AppendReply { term: 1, success: true, match_index: 1 })
        }
        _ => panic!("an append request is answered by an append answer"),
    }
    assert!(a.receive(2, &answer).is_none());
    assert_eq!(a.commit_index, 1);
    assert_eq!(b.log.len(), 1);
}

/// Stops node `i` and brings it back from what it kept: term, vote and log.
fn restart(net: &mut Net, i: usize) {
    let old = &net.nodes[i];
    let peers = old.peers.clone();
    let mut node = RaftNode::restore(old.node_id, old.current_term, old.voted_for, old.log.clone()).unwrap();
    for p in peers {
        assert!(node.add_peer(p));
    }
    net.nodes[i] = node;
}

#[test]
fn a_restarted_leader_comes_back_as_a_follower_with_its_log() {
    let mut net = cluster(3);
    assert!(net.elect(0));
    net.nodes[0].propose(vec![1]).unwrap();
    net.replicate(0);
    net.nodes[0].propose(vec![2]).unwrap();
    assert_eq!(net.nodes[0].commit_index, 1);
    restart(&mut net, 0);
    let node = &net.nodes[0];
    assert_eq!(node.state, RaftState::Follower);
    assert_eq!(node.current_term, 1);
    assert_eq!(node.voted_for, Some(1));
    assert_eq!(commands(node), vec![vec![1], vec![2]]);
    assert_eq!((node.commit_index, node.last_applied), (0, 0));
    assert_eq!(node.leader_id, None);
    assert_eq!(node.peers.len(), 2);
    // nobody leads term 1 any more, and it cannot be led again
    assert_eq!(net.leaders_of_term(1), 0);
    assert!(net.nodes[0].propose(vec![3]).is_none());
    // it gave its vote of term 1 to itself and keeps to that
    let request = VoteRequest { term: 1, candidate_id: 2, last_log_index: 9, last_log_term: 9 };
    assert!(!net.nodes[0].handle_request_vote(&request).granted);
    // the next leader has a later term and keeps what was committed
    assert!(net.elect(0));
    assert_eq!(net.nodes[0].current_term, 2);
    assert_eq!(net.leaders_of_term(2), 1);
    net.nodes[0].propose(vec![4]).unwrap();
    net.replicate(0);
    assert_eq!(net.nodes[0].commit_index, 3);
    for i in 0..3 {
        assert_eq!(commands(&net.nodes[i]), vec![vec![1], vec![2], vec![4]]);
    }
}

#[test]
fn a_restarted_follower_learns_again_what_is_committed() {
    let mut net = cluster(3);
    assert!(net.elect(0));
    net.nodes[0].propose(vec![1]).unwrap();
    net.nodes[0].propose(vec![2]).unwrap();
    net.replicate(0);
    net.replicate(0);
    assert_eq!(net.nodes[1].commit_index, 2);
    restart(&mut net, 1);
    assert_eq!(net.nodes[1].commit_index, 0);
    assert_eq!(commands(&net.nodes[1]), vec![vec![1], vec![2]]);
    net.replicate(0);
    assert_eq!(net.nodes[1].state, RaftState::Follower);
    assert_eq!(net.nodes[1].leader_id, Some(1));
    assert_eq!(net.nodes[1].commit_index, 2);
    assert_eq!(commands(&net.nodes[1]), vec![vec![1], vec![2]]);
}

#[test]
fn a_leader_commits_nothing_of_an_earlier_term_by_itself() {
    // a node of five that holds one entry of term 1 wins term 2 with two votes
    let mut net = cluster(5);
    net.nodes[0].become_follower(1);
    net.nodes[0].append_entry(entry(1, 1, 7)).unwrap();
    net.side = vec![0, 0, 0, 1, 1];
    assert!(net.elect(0));
    assert_eq!(net.nodes[0].current_term, 2);
    net.nodes[0].commit(1);
    assert_eq!(net.nodes[0].state, RaftState::Leader);
    assert_eq!(net.nodes[0].commit_index, 0);
    // even where the whole cluster is known to hold it
    for peer in 2..=5u128 {
        net.nodes[0].match_index.insert(peer, 1);
    }
    net.nodes[0].commit(1);
    assert_eq!(net.nodes[0].commit_index, 0);
    // an entry of its own term takes the earlier one with it
    assert_eq!(net.nodes[0].propose(vec![8]), Some(2));
    net.nodes[0].match_index.insert(2, 2);
    net.nodes[0].match_index.insert(3, 2);
    net.nodes[0].commit(1);
    assert_eq!(net.nodes[0].commit_index, 0);
    net.nodes[0].commit(2);
    assert_eq!(net.nodes[0].commit_index, 2);
}

#[test]
fn a_leader_commits_nothing_without_a_majority() {
    let mut net = cluster(5);
    assert!(net.elect(0));
    assert_eq!(net.nodes[0].propose(vec![1]), Some(1));
    // cut off with one other node: two of five hold the entry
    net.side = vec![0, 0, 1, 1, 1];
    net.replicate(0);
    assert_eq!(net.nodes[1].log.len(), 1);
    net.nodes[0].commit(1);
    assert_eq!(net.nodes[0].commit_index, 0);
    net.nodes[0].commit(9);
    assert_eq!(net.nodes[0].commit_index, 0);
    assert!(!net.nodes[0].is_committable(1));
    // a third node makes the majority
    net.side = vec![0, 0, 0, 1, 1];
    let request = net.nodes[0].append_entries_for(3, 16).unwrap();
    let reply = net.nodes[2].handle_append_entries(&request);
    assert!(reply.success);
    net.nodes[0].match_index.insert(3, reply.match_index);
    assert!(net.nodes[0].is_committable(1));
    net.nodes[0].commit(1);
    assert_eq!(net.nodes[0].commit_index, 1);
    // and it never moves back
    net.nodes[0].commit(0);
    assert_eq!(net.nodes[0].commit_index, 1);
}
