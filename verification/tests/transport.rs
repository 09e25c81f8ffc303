use arm_hypervisor::cluster::network::announced_length;
use arm_hypervisor::cluster::wire::{get_u128, get_u32, get_u64, put_bool, put_bytes, put_u128, put_u32, put_u64, put_u8};
use arm_hypervisor::cluster::{
    frame_message, unframe_message, AppendReply, AppendRequest, LogEntry, Message, RaftConfig, VoteReply,
    VoteRequest,
};

fn same(a: &Message, b: &Message) -> bool {
    match (a, b) {
        (Message::RequestVote(x), Message::RequestVote(y)) => x == y,
        (Message::RequestVoteResponse(x), Message::RequestVoteResponse(y)) => x == y,
        (Message::AppendEntriesResponse(x), Message::AppendEntriesResponse(y)) => x == y,
        (Message::AppendEntries(x), Message::AppendEntries(y)) => {
            x.term == y.term
                && x.leader_id == y.leader_id
                && x.prev_log_index == y.prev_log_index
                && x.prev_log_term == y.prev_log_term
                && x.leader_commit == y.leader_commit
                && x.entries.len() == y.entries.len()
                && x.entries.iter().zip(y.entries.iter()).all(|(e, f)| {
                    e.term == f.term && e.index == f.index && e.command == f.command
                })
        }
        _ => false,
    }
}

fn append(entries: Vec<LogEntry>) -> Message {
    Message::AppendEntries(AppendRequest {
        term: 7,
        leader_id: 0x0102030405060708090a0b0c0d0e0f10,
        prev_log_index: 3,
        prev_log_term: 2,
        entries,
        leader_commit: 1,
    })
}

#[test]
fn frames_carry_their_length_big_endian() {
    let framed = frame_message(&[10, 20, 30, 40, 50]).unwrap();
    assert_eq!(framed, vec![0, 0, 0, 5, 10, 20, 30, 40, 50]);
    let long = vec![7u8; 0x0102_03];
    let framed = frame_message(&long).unwrap();
    assert_eq!(&framed[..4], &[0, 1, 2, 3]);
    assert_eq!(framed.len(), 4 + long.len());
    assert_eq!(frame_message(&[]).unwrap(), vec![0, 0, 0, 0]);
    assert_eq!(announced_length(&[0, 0, 1, 2]), 258);
    assert_eq!(announced_length(&[0xff, 0, 0, 0]), 0xff00_0000);
}

#[test]
fn frames_are_read_back_when_complete() {
    let payload = vec![1u8, 2, 3];
    let mut stream = frame_message(&payload).unwrap();
    for cut in 0..stream.len() {
        assert_eq!(unframe_message(&stream[..cut]), None);
    }
    assert_eq!(unframe_message(&stream), Some(payload.clone()));
    stream.extend_from_slice(&[9, 9, 9]);
    assert_eq!(unframe_message(&stream), Some(payload));
    assert_eq!(unframe_message(&[0, 0, 0, 0]), Some(vec![]));
}

#[test]
fn messages_are_read_back_from_their_bytes() {
    let messages = vec![
        Message::RequestVote(VoteRequest {
            term: 3,
            candidate_id: u128::MAX - 5,
            last_log_index: 11,
            last_log_term: 2,
        }),
        Message::RequestVoteResponse(VoteReply { term: 3, granted: true }),
        Message::RequestVoteResponse(VoteReply { term: u64::MAX, granted: false }),
        Message::AppendEntriesResponse(AppendReply { term: 4, success: true, match_index: 99 }),
        append(vec![]),
        append(vec![
            LogEntry { term: 2, index: 4, command: vec![] },
            LogEntry { term: 7, index: 5, command: vec![1, 2, 3, 4, 5] },
            LogEntry { term: 7, index: 6, command: vec![0; 300] },
        ]),
    ];
    for m in &messages {
        let bytes = m.encode().unwrap();
        let back = Message::decode(&bytes).unwrap();
        assert!(same(m, &back));
        // through a frame as well
        let framed = frame_message(&bytes).unwrap();
        let payload = unframe_message(&framed).unwrap();
        assert!(same(m, &Message::decode(&payload).unwrap()));
    }
}

#[test]
fn the_wire_format_is_fixed() {
    let vote = Message::RequestVote(VoteRequest {
        term: 0x0102,
        candidate_id: 0x0a,
        last_log_index: 3,
        last_log_term: 1,
    });
    let bytes = vote.encode().unwrap();
    assert_eq!(bytes.len(), 42);
    assert_eq!(&bytes[..4], &[1, 1, 2, 1]);
    assert_eq!(bytes[10], 0x0a);
    assert_eq!(bytes[26], 3);
    assert_eq!(bytes[34], 1);
    let reply = Message::RequestVoteResponse(VoteReply { term: 5, granted: true }).encode().unwrap();
    assert_eq!(reply, vec![1, 2, 5, 0, 0, 0, 0, 0, 0, 0, 1]);
    let answer = Message::AppendEntriesResponse(AppendReply { term: 1, success: false, match_index: 2 })
        .encode()
        .unwrap();
    assert_eq!(answer, vec![1, 4, 1, 0, 0, 0, 0, 0, 0, 0, 0, 2, 0, 0, 0, 0, 0, 0, 0]);
    let one = append(vec![LogEntry { term: 7, index: 4, command: vec![0xab, 0xcd] }]).encode().unwrap();
    assert_eq!(one.len(), 54 + 20 + 2);
    assert_eq!(one[1], 3);
    assert_eq!(&one[50..54], &[1, 0, 0, 0]);
    assert_eq!(one[54], 7);
    assert_eq!(one[62], 4);
    assert_eq!(&one[70..74], &[2, 0, 0, 0]);
    assert_eq!(&one[74..], &[0xab, 0xcd]);
}

#[test]
fn malformed_messages_are_refused() {
    assert!(Message::decode(&[]).is_none());
    assert!(Message::decode(&[1]).is_none());
    assert!(Message::decode(&[1, 9, 0, 0]).is_none());
    let good = Message::RequestVoteResponse(VoteReply { term: 5, granted: true }).encode().unwrap();
    let mut wrong_version = good.clone();
    wrong_version[0] = 2;
    assert!(Message::decode(&wrong_version).is_none());
    let mut wrong_bool = good.clone();
    wrong_bool[10] = 2;
    assert!(Message::decode(&wrong_bool).is_none());
    let mut long = good.clone();
    long.push(0);
    assert!(Message::decode(&long).is_none());
    assert!(Message::decode(&good[..10]).is_none());
    let one = append(vec![LogEntry { term: 7, index: 4, command: vec![1, 2] }]).encode().unwrap();
    assert!(Message::decode(&one[..one.len() - 1]).is_none());
    let mut more = one.clone();
    more.push(0);
    assert!(Message::decode(&more).is_none());
    let mut count = one.clone();
    count[50] = 2;
    assert!(Message::decode(&count).is_none());
    let mut length = one.clone();
    length[70] = 3;
    assert!(Message::decode(&length).is_none());
    assert!(Message::decode(&one[..53]).is_none());
}

#[test]
fn numbers_are_written_lowest_byte_first() {
    let mut buf = Vec::new();
    put_u8(&mut buf, 0xfe);
    put_bool(&mut buf, true);
    put_bool(&mut buf, false);
    put_u32(&mut buf, 0x01020304);
    put_u64(&mut buf, 0x0102030405060708);
    put_u128(&mut buf, 1);
    put_bytes(&mut buf, &[9, 8]);
    assert_eq!(&buf[..7], &[0xfe, 1, 0, 4, 3, 2, 1]);
    assert_eq!(&buf[7..15], &[8, 7, 6, 5, 4, 3, 2, 1]);
    assert_eq!(buf[15], 1);
    assert_eq!(&buf[31..], &[9, 8]);
    assert_eq!(get_u32(&buf, 3), 0x01020304);
    assert_eq!(get_u64(&buf, 7), 0x0102030405060708);
    assert_eq!(get_u128(&buf, 15), 1);
}

#[test]
fn timing_is_held_against_its_rules() {
    let good = RaftConfig {
        election_timeout_min: 150,
        election_timeout_max: 300,
        heartbeat_interval: 50,
        request_timeout: 100,
    };
    assert!(good.validate(20).is_ok());
    assert!(good.validate(149).is_ok());
    assert!(good.validate(150).is_err());
    assert!(RaftConfig { heartbeat_interval: 150, ..good }.validate(20).is_err());
    assert!(RaftConfig { heartbeat_interval: 0, ..good }.validate(20).is_err());
    assert!(RaftConfig { request_timeout: 150, ..good }.validate(20).is_err());
    assert!(RaftConfig { request_timeout: 0, ..good }.validate(20).is_err());
    assert!(RaftConfig { election_timeout_max: 100, ..good }.validate(0).is_err());
    assert!(RaftConfig { election_timeout_max: 150, ..good }.validate(0).is_err());
}

#[test]
fn election_timeouts_stay_in_their_range() {
    let config = RaftConfig {
        election_timeout_min: 150,
        election_timeout_max: 300,
        heartbeat_interval: 50,
        request_timeout: 100,
    };
    assert_eq!(config.election_timeout(0), 150);
    assert_eq!(config.election_timeout(150), 300);
    assert_eq!(config.election_timeout(151), 150);
    assert_eq!(config.election_timeout(1000), 150 + 1000 % 151);
    for r in [1u64, 7, 12345, u64::MAX] {
        let t = config.election_timeout(r);
        assert!((150..=300).contains(&t));
    }
    let whole = RaftConfig { election_timeout_min: 0, election_timeout_max: u64::MAX, ..config };
    assert_eq!(whole.election_timeout(77), 77);
    let point = RaftConfig { election_timeout_min: 9, election_timeout_max: 9, ..config };
    assert_eq!(point.election_timeout(12345), 9);
}

#[test]
fn the_length_is_written_highest_byte_first() {
    let payload = vec![7u8; 0x0102];
    let framed = frame_message(&payload).unwrap();
    assert_eq!(&framed[..4], &[0, 0, 1, 2]);
    assert_eq!(&framed[4..], &payload[..]);
    assert_eq!(frame_message(&[]).unwrap(), vec![0, 0, 0, 0]);
    let big = vec![0u8; 0x0001_0203];
    assert_eq!(&frame_message(&big).unwrap()[..4], &[0, 1, 2, 3]);
    assert_eq!(announced_length(&[1, 2, 3, 4]), 0x0102_0304);
    assert_eq!(announced_length(&[0, 0, 0, 3]), 3);
    assert_eq!(announced_length(&[0xff, 0xff, 0xff, 0xff]), u32::MAX);
    assert_eq!(announced_length(&[0x80, 0, 0, 0]), 0x8000_0000);
}
