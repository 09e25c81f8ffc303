//! The messages between nodes and their payloads.

use crate::cluster::consensus::{AppendReply, AppendRequest, AppendRequestView, VoteReply, VoteRequest};
use crate::cluster::log::{log_view, EntryView, LogEntry};
use crate::cluster::wire::{
    bool_byte, get_u128, get_u32, get_u64, put_bool, put_bytes, put_u128, put_u32, put_u64, put_u8,
    WIRE_VERSION,
};
use vstd::bytes::*;
use vstd::prelude::*;
use vstd::slice::*;

verus! {

/// What nodes say to each other.
#[derive(Debug)]
pub enum Message {
    RequestVote(VoteRequest),
    RequestVoteResponse(VoteReply),
    AppendEntries(AppendRequest),
    AppendEntriesResponse(AppendReply),
}

/// The mathematical value of a [`Message`].
pub enum MessageView {
    RequestVote(VoteRequest),
    RequestVoteResponse(VoteReply),
    AppendEntries(AppendRequestView),
    AppendEntriesResponse(AppendReply),
}

impl View for Message {
    type V = MessageView;

    open spec fn view(&self) -> MessageView {
        match self {
            Message::RequestVote(r) => MessageView::RequestVote(*r),
            Message::RequestVoteResponse(r) => MessageView::RequestVoteResponse(*r),
            Message::AppendEntries(r) => MessageView::AppendEntries(r@),
            Message::AppendEntriesResponse(r) => MessageView::AppendEntriesResponse(*r),
        }
    }
}

pub const TAG_REQUEST_VOTE: u8 = 1;

pub const TAG_REQUEST_VOTE_RESPONSE: u8 = 2;

pub const TAG_APPEND_ENTRIES: u8 = 3;

pub const TAG_APPEND_ENTRIES_RESPONSE: u8 = 4;

/// The bytes of one log entry: term, index, length of the command, command.
pub open spec fn encode_entry(entry: EntryView) -> Seq<u8> {
    spec_u64_to_le_bytes(entry.term) + spec_u64_to_le_bytes(entry.index) + spec_u32_to_le_bytes(
        entry.command.len() as u32,
    ) + entry.command
}

/// The bytes of a run of log entries, one after the other.
pub open spec fn encode_entries(entries: Seq<EntryView>) -> Seq<u8>
    decreases entries.len(),
{
    if entries.len() == 0 {
        Seq::empty()
    } else {
        encode_entry(entries[0]) + encode_entries(entries.drop_first())
    }
}

/// The `count` entries that `bytes` are made of, if they are made of
/// exactly that many.
pub open spec fn decode_entries(bytes: Seq<u8>, count: nat) -> Option<Seq<EntryView>>
    decreases count,
{
    if count == 0 {
        if bytes.len() == 0 {
            Some(Seq::empty())
        } else {
            None
        }
    } else if bytes.len() < 20 {
        None
    } else {
        let n = spec_u32_from_le_bytes(bytes.subrange(16, 20)) as int;
        if bytes.len() < 20 + n {
            None
        } else {
            match decode_entries(bytes.skip(20 + n), (count - 1) as nat) {
                Some(rest) => Some(
                    seq![
                        EntryView {
                            term: spec_u64_from_le_bytes(bytes.subrange(0, 8)),
                            index: spec_u64_from_le_bytes(bytes.subrange(8, 16)),
                            command: bytes.subrange(20, 20 + n),
                        },
                    ] + rest,
                ),
                None => None,
            }
        }
    }
}

/// Whether every command, and the number of entries, fits the four bytes
/// that carry a length.
pub open spec fn entries_encodable(entries: Seq<EntryView>) -> bool {
    &&& entries.len() <= u32::MAX
    &&& forall|i: int| 0 <= i < entries.len() ==> (#[trigger] entries[i]).command.len() <= u32::MAX
}

/// Whether a message can be written as bytes.
pub open spec fn encodable(message: MessageView) -> bool {
    match message {
        MessageView::AppendEntries(r) => entries_encodable(r.entries),
        _ => true,
    }
}

/// The payload that stands for a message: the version, a tag that names
/// the kind, and the fields in a fixed order, numbers lowest byte first.
pub open spec fn encode_message(message: MessageView) -> Seq<u8> {
    match message {
        MessageView::RequestVote(r) => seq![WIRE_VERSION, TAG_REQUEST_VOTE] + spec_u64_to_le_bytes(r.term)
            + spec_u128_to_le_bytes(r.candidate_id) + spec_u64_to_le_bytes(r.last_log_index)
            + spec_u64_to_le_bytes(r.last_log_term),
        MessageView::RequestVoteResponse(r) => seq![WIRE_VERSION, TAG_REQUEST_VOTE_RESPONSE]
            + spec_u64_to_le_bytes(r.term) + seq![bool_byte(r.granted)],
        MessageView::AppendEntries(r) => seq![WIRE_VERSION, TAG_APPEND_ENTRIES] + spec_u64_to_le_bytes(r.term)
            + spec_u128_to_le_bytes(r.leader_id) + spec_u64_to_le_bytes(r.prev_log_index)
            + spec_u64_to_le_bytes(r.prev_log_term) + spec_u64_to_le_bytes(r.leader_commit)
            + spec_u32_to_le_bytes(r.entries.len() as u32) + encode_entries(r.entries),
        MessageView::AppendEntriesResponse(r) => seq![WIRE_VERSION, TAG_APPEND_ENTRIES_RESPONSE]
            + spec_u64_to_le_bytes(r.term) + seq![bool_byte(r.success)] + spec_u64_to_le_bytes(r.match_index),
    }
}

/// The truth value a byte stands for, if it stands for one.
pub open spec fn decode_bool(byte: u8) -> Option<bool> {
    if byte == 0 {
        Some(false)
    } else if byte == 1 {
        Some(true)
    } else {
        None
    }
}

/// The message that a payload stands for, if it stands for one: the
/// version, a known tag, and exactly the bytes of that kind's fields.
pub open spec fn decode_message(bytes: Seq<u8>) -> Option<MessageView> {
    if bytes.len() < 2 || bytes[0] != WIRE_VERSION {
        None
    } else if bytes[1] == TAG_REQUEST_VOTE {
        if bytes.len() != 42 {
            None
        } else {
            Some(
                MessageView::RequestVote(
                    VoteRequest {
                        term: spec_u64_from_le_bytes(bytes.subrange(2, 10)),
                        candidate_id: spec_u128_from_le_bytes(bytes.subrange(10, 26)),
                        last_log_index: spec_u64_from_le_bytes(bytes.subrange(26, 34)),
                        last_log_term: spec_u64_from_le_bytes(bytes.subrange(34, 42)),
                    },
                ),
            )
        }
    } else if bytes[1] == TAG_REQUEST_VOTE_RESPONSE {
        if bytes.len() != 11 {
            None
        } else {
            match decode_bool(bytes[10]) {
                Some(granted) => Some(
                    MessageView::RequestVoteResponse(
                        VoteReply { term: spec_u64_from_le_bytes(bytes.subrange(2, 10)), granted },
                    ),
                ),
                None => None,
            }
        }
    } else if bytes[1] == TAG_APPEND_ENTRIES {
        if bytes.len() < 54 {
            None
        } else {
            let count = spec_u32_from_le_bytes(bytes.subrange(50, 54));
            match decode_entries(bytes.skip(54), count as nat) {
                Some(entries) => Some(
                    MessageView::AppendEntries(
                        AppendRequestView {
                            term: spec_u64_from_le_bytes(bytes.subrange(2, 10)),
                            leader_id: spec_u128_from_le_bytes(bytes.subrange(10, 26)),
                            prev_log_index: spec_u64_from_le_bytes(bytes.subrange(26, 34)),
                            prev_log_term: spec_u64_from_le_bytes(bytes.subrange(34, 42)),
                            entries,
                            leader_commit: spec_u64_from_le_bytes(bytes.subrange(42, 50)),
                        },
                    ),
                ),
                None => None,
            }
        }
    } else if bytes[1] == TAG_APPEND_ENTRIES_RESPONSE {
        if bytes.len() != 19 {
            None
        } else {
            match decode_bool(bytes[10]) {
                Some(success) => Some(
                    MessageView::AppendEntriesResponse(
                        AppendReply {
                            term: spec_u64_from_le_bytes(bytes.subrange(2, 10)),
                            success,
                            match_index: spec_u64_from_le_bytes(bytes.subrange(11, 19)),
                        },
                    ),
                ),
                None => None,
            }
        }
    } else {
        None
    }
}

/// The bytes of a run of entries continue with the bytes of the next one.
pub proof fn lemma_encode_entries_push(entries: Seq<EntryView>, entry: EntryView)
    ensures
        encode_entries(entries.push(entry)) == encode_entries(entries) + encode_entry(entry),
    decreases entries.len(),
{
    let all = entries.push(entry);
    if entries.len() == 0 {
        assert(all.drop_first() =~= Seq::<EntryView>::empty());
        assert(encode_entries(all.drop_first()) =~= Seq::<u8>::empty());
        assert(encode_entries(all) =~= encode_entry(entry));
        assert(encode_entries(entries) + encode_entry(entry) =~= encode_entry(entry));
    } else {
        assert(all.drop_first() =~= entries.drop_first().push(entry));
        lemma_encode_entries_push(entries.drop_first(), entry);
        assert(encode_entries(all) =~= encode_entries(entries) + encode_entry(entry));
    }
}

/// A run of entries is read back from its bytes.
pub proof fn lemma_entries_round_trip(entries: Seq<EntryView>)
    requires
        entries_encodable(entries),
    ensures
        decode_entries(encode_entries(entries), entries.len()) == Some(entries),
    decreases entries.len(),
{
    lemma_auto_spec_u64_to_from_le_bytes();
    lemma_auto_spec_u32_to_from_le_bytes();
    if entries.len() > 0 {
        let e = entries[0];
        let tail = entries.drop_first();
        let bytes = encode_entries(entries);
        let n = e.command.len() as int;
        assert(entries_encodable(tail)) by {
            assert forall|i: int| 0 <= i < tail.len() implies (#[trigger] tail[i]).command.len() <= u32::MAX by {
                assert(tail[i] == entries[i + 1]);
            }
        }
        lemma_entries_round_trip(tail);
        assert(bytes.subrange(0, 8) =~= spec_u64_to_le_bytes(e.term));
        assert(bytes.subrange(8, 16) =~= spec_u64_to_le_bytes(e.index));
        assert(bytes.subrange(16, 20) =~= spec_u32_to_le_bytes(n as u32));
        assert(bytes.subrange(20, 20 + n) =~= e.command);
        assert(bytes.skip(20 + n) =~= encode_entries(tail));
        assert(seq![e] + tail =~= entries);
    }
}

/// Every message that can be written is read back from its bytes.
pub proof fn lemma_message_round_trip(message: MessageView)
    requires
        encodable(message),
    ensures
        decode_message(encode_message(message)) == Some(message),
{
    lemma_auto_spec_u64_to_from_le_bytes();
    lemma_auto_spec_u32_to_from_le_bytes();
    lemma_auto_spec_u128_to_from_le_bytes();
    let bytes = encode_message(message);
    match message {
        MessageView::RequestVote(r) => {
            assert(bytes.subrange(2, 10) =~= spec_u64_to_le_bytes(r.term));
            assert(bytes.subrange(10, 26) =~= spec_u128_to_le_bytes(r.candidate_id));
            assert(bytes.subrange(26, 34) =~= spec_u64_to_le_bytes(r.last_log_index));
            assert(bytes.subrange(34, 42) =~= spec_u64_to_le_bytes(r.last_log_term));
        },
        MessageView::RequestVoteResponse(r) => {
            assert(bytes.subrange(2, 10) =~= spec_u64_to_le_bytes(r.term));
            assert(bytes[10] == bool_byte(r.granted));
        },
        MessageView::AppendEntries(r) => {
            lemma_entries_round_trip(r.entries);
            assert(bytes.subrange(2, 10) =~= spec_u64_to_le_bytes(r.term));
            assert(bytes.subrange(10, 26) =~= spec_u128_to_le_bytes(r.leader_id));
            assert(bytes.subrange(26, 34) =~= spec_u64_to_le_bytes(r.prev_log_index));
            assert(bytes.subrange(34, 42) =~= spec_u64_to_le_bytes(r.prev_log_term));
            assert(bytes.subrange(42, 50) =~= spec_u64_to_le_bytes(r.leader_commit));
            assert(bytes.subrange(50, 54) =~= spec_u32_to_le_bytes(r.entries.len() as u32));
            assert(bytes.skip(54) =~= encode_entries(r.entries));
        },
        MessageView::AppendEntriesResponse(r) => {
            assert(bytes.subrange(2, 10) =~= spec_u64_to_le_bytes(r.term));
            assert(bytes[10] == bool_byte(r.success));
            assert(bytes.subrange(11, 19) =~= spec_u64_to_le_bytes(r.match_index));
        },
    }
}

/// Whether the entries can be written: see [`entries_encodable`].
fn check_encodable(entries: &Vec<LogEntry>) -> (ok: bool)
    ensures
        ok == entries_encodable(log_view(entries@)),
{
    if entries.len() > u32::MAX as usize {
        return false;
    }
    let mut i: usize = 0;
    while i < entries.len()
        invariant
            i <= entries.len(),
            forall|j: int| 0 <= j < i ==> (#[trigger] log_view(entries@)[j]).command.len() <= u32::MAX,
        decreases entries.len() - i,
    {
        if entries[i].command.len() > u32::MAX as usize {
            assert(log_view(entries@)[i as int].command.len() > u32::MAX);
            return false;
        }
        assert(log_view(entries@)[i as int].command == entries@[i as int].command@);
        i = i + 1;
    }
    true
}

/// Reads a truth value.
fn read_bool(byte: u8) -> (value: Option<bool>)
    ensures
        value == decode_bool(byte),
{
    if byte == 0 {
        Some(false)
    } else if byte == 1 {
        Some(true)
    } else {
        None
    }
}

/// Reads `count` entries from `bytes`, which must hold exactly those.
fn read_entries(bytes: &[u8], count: u32) -> (entries: Option<Vec<LogEntry>>)
    ensures
        match entries {
            Some(es) => decode_entries(bytes@, count as nat) == Some(log_view(es@)),
            None => decode_entries(bytes@, count as nat) is None,
        },
{
    let len = bytes.len();
    let mut entries: Vec<LogEntry> = Vec::new();
    let mut at: usize = 0;
    let mut k: u32 = 0;
    let ghost whole = decode_entries(bytes@, count as nat);
    assert(bytes@.skip(0) =~= bytes@);
    assert(Seq::<EntryView>::empty() + log_view(entries@) =~= log_view(entries@));
    while k < count
        invariant
            k <= count,
            at <= len,
            len == bytes@.len(),
            whole == decode_entries(bytes@, count as nat),
            whole == match decode_entries(bytes@.skip(at as int), (count - k) as nat) {
                Some(rest) => Some(log_view(entries@) + rest),
                None => None,
            },
        decreases count - k,
    {
        let ghost here = bytes@.skip(at as int);
        if len - at < 20 {
            return None;
        }
        assert(here.subrange(16, 20) =~= bytes@.subrange(at + 16, at + 20));
        let n = get_u32(bytes, at + 16) as usize;
        if len - at - 20 < n {
            return None;
        }
        let term = get_u64(bytes, at);
        let index = get_u64(bytes, at + 8);
        let command = slice_to_vec(slice_subrange(bytes, at + 20, at + 20 + n));
        let ghost so_far = log_view(entries@);
        let entry = LogEntry { term, index, command };
        let ghost e = entry@;
        entries.push(entry);
        proof {
            assert(here.subrange(0, 8) =~= bytes@.subrange(at as int, at + 8));
            assert(here.subrange(8, 16) =~= bytes@.subrange(at + 8, at + 16));
            assert(here.subrange(20, 20 + n) =~= bytes@.subrange(at + 20, at + 20 + n));
            assert(here.skip(20 + n) =~= bytes@.skip(at + 20 + n));
            assert(log_view(entries@) =~= so_far.push(e));
            match decode_entries(bytes@.skip(at + 20 + n), (count - k - 1) as nat) {
                Some(rest) => {
                    assert(so_far + (seq![e] + rest) =~= so_far.push(e) + rest);
                },
                None => {},
            }
        }
        at = at + 20 + n;
        k = k + 1;
    }
    if at != len {
        return None;
    }
    proof {
        assert(bytes@.skip(at as int) =~= Seq::<u8>::empty());
        assert(log_view(entries@) + Seq::<EntryView>::empty() =~= log_view(entries@));
    }
    Some(entries)
}

impl Message {
    /// Writes the message as a payload. A message whose entries are too
    /// many or too long for the length fields cannot be written.
    pub fn encode(&self) -> (payload: Option<Vec<u8>>)
        ensures
            payload is Some <==> encodable(self@),
            payload matches Some(bytes) ==> bytes@ == encode_message(self@),
    {
        let mut bytes: Vec<u8> = Vec::new();
        put_u8(&mut bytes, WIRE_VERSION);
        match self {
            Message::RequestVote(r) => {
                put_u8(&mut bytes, TAG_REQUEST_VOTE);
                put_u64(&mut bytes, r.term);
                put_u128(&mut bytes, r.candidate_id);
                put_u64(&mut bytes, r.last_log_index);
                put_u64(&mut bytes, r.last_log_term);
                assert(bytes@ =~= encode_message(self@));
            },
            Message::RequestVoteResponse(r) => {
                put_u8(&mut bytes, TAG_REQUEST_VOTE_RESPONSE);
                put_u64(&mut bytes, r.term);
                put_bool(&mut bytes, r.granted);
                assert(bytes@ =~= encode_message(self@));
            },
            Message::AppendEntriesResponse(r) => {
                put_u8(&mut bytes, TAG_APPEND_ENTRIES_RESPONSE);
                put_u64(&mut bytes, r.term);
                put_bool(&mut bytes, r.success);
                put_u64(&mut bytes, r.match_index);
                assert(bytes@ =~= encode_message(self@));
            },
            Message::AppendEntries(r) => {
                if !check_encodable(&r.entries) {
                    return None;
                }
                put_u8(&mut bytes, TAG_APPEND_ENTRIES);
                put_u64(&mut bytes, r.term);
                put_u128(&mut bytes, r.leader_id);
                put_u64(&mut bytes, r.prev_log_index);
                put_u64(&mut bytes, r.prev_log_term);
                put_u64(&mut bytes, r.leader_commit);
                put_u32(&mut bytes, r.entries.len() as u32);
                let ghost head = bytes@;
                let ghost es = log_view(r.entries@);
                let mut i: usize = 0;
                assert(es.take(0) =~= Seq::<EntryView>::empty());
                assert(bytes@ =~= head + encode_entries(es.take(0)));
                while i < r.entries.len()
                    invariant
                        i <= r.entries.len(),
                        es == log_view(r.entries@),
                        entries_encodable(es),
                        bytes@ == head + encode_entries(es.take(i as int)),
                    decreases r.entries.len() - i,
                {
                    let e = &r.entries[i];
                    let ghost before = bytes@;
                    assert(e@ == es[i as int]);
                    put_u64(&mut bytes, e.term);
                    put_u64(&mut bytes, e.index);
                    put_u32(&mut bytes, e.command.len() as u32);
                    put_bytes(&mut bytes, e.command.as_slice());
                    proof {
                        lemma_encode_entries_push(es.take(i as int), es[i as int]);
                        assert(es.take(i + 1) =~= es.take(i as int).push(es[i as int]));
                        assert(bytes@ =~= before + encode_entry(es[i as int]));
                        assert(bytes@ =~= head + encode_entries(es.take(i + 1)));
                    }
                    i = i + 1;
                }
                assert(es.take(i as int) =~= es);
                assert(bytes@ =~= encode_message(self@));
            },
        }
        Some(bytes)
    }

    /// Reads a message from a payload; `None` where it stands for none.
    pub fn decode(bytes: &[u8]) -> (message: Option<Message>)
        ensures
            match message {
                Some(m) => decode_message(bytes@) == Some(m@),
                None => decode_message(bytes@) is None,
            },
    {
        let len = bytes.len();
        if len < 2 || bytes[0] != WIRE_VERSION {
            return None;
        }
        let tag = bytes[1];
        if tag == TAG_REQUEST_VOTE {
            if len != 42 {
                return None;
            }
            Some(
                Message::RequestVote(
                    VoteRequest {
                        term: get_u64(bytes, 2),
                        candidate_id: get_u128(bytes, 10),
                        last_log_index: get_u64(bytes, 26),
                        last_log_term: get_u64(bytes, 34),
                    },
                ),
            )
        } else if tag == TAG_REQUEST_VOTE_RESPONSE {
            if len != 11 {
                return None;
            }
            match read_bool(bytes[10]) {
                Some(granted) => Some(
                    Message::RequestVoteResponse(VoteReply { term: get_u64(bytes, 2), granted }),
                ),
                None => None,
            }
        } else if tag == TAG_APPEND_ENTRIES {
            if len < 54 {
                return None;
            }
            let count = get_u32(bytes, 50);
            let body = slice_subrange(bytes, 54, len);
            assert(body@ =~= bytes@.skip(54));
            match read_entries(body, count) {
                Some(entries) => Some(
                    Message::AppendEntries(
                        AppendRequest {
                            term: get_u64(bytes, 2),
                            leader_id: get_u128(bytes, 10),
                            prev_log_index: get_u64(bytes, 26),
                            prev_log_term: get_u64(bytes, 34),
                            entries,
                            leader_commit: get_u64(bytes, 42),
                        },
                    ),
                ),
                None => None,
            }
        } else if tag == TAG_APPEND_ENTRIES_RESPONSE {
            if len != 19 {
                return None;
            }
            match read_bool(bytes[10]) {
                Some(success) => Some(
                    Message::AppendEntriesResponse(
                        AppendReply { term: get_u64(bytes, 2), success, match_index: get_u64(bytes, 11) },
                    ),
                ),
                None => None,
            }
        } else {
            None
        }
    }
}

} // verus!
