//! The commands of the replicated log and the bytes that stand for them.

use crate::cluster::wire::{get_u128, put_u128, put_u8, WIRE_VERSION};
use vstd::bytes::*;
use vstd::prelude::*;

verus! {

/// What the replicated log asks the cluster state to do. The identifiers are
/// opaque 128-bit values.
#[derive(Debug, Clone, Copy, PartialEq, Eq, Structural)]
pub enum Command {
    AddNode(u128),
    RemoveNode(u128),
    AssignContainer { node_id: u128, container_id: u128 },
    UnassignContainer { node_id: u128, container_id: u128 },
    AllocateVolume { pool_id: u128, volume_id: u128 },
    SetLeader(u128),
}

pub const TAG_ADD_NODE: u8 = 1;

pub const TAG_REMOVE_NODE: u8 = 2;

pub const TAG_ASSIGN_CONTAINER: u8 = 3;

pub const TAG_UNASSIGN_CONTAINER: u8 = 4;

pub const TAG_ALLOCATE_VOLUME: u8 = 5;

pub const TAG_SET_LEADER: u8 = 6;

/// A payload with one identifier: version, tag, identifier.
pub open spec fn single(tag: u8, id: u128) -> Seq<u8> {
    seq![WIRE_VERSION, tag] + spec_u128_to_le_bytes(id)
}

/// A payload with two identifiers: version, tag, first, second.
pub open spec fn double(tag: u8, first: u128, second: u128) -> Seq<u8> {
    seq![WIRE_VERSION, tag] + spec_u128_to_le_bytes(first) + spec_u128_to_le_bytes(second)
}

/// The bytes that stand for a command in a log entry.
pub open spec fn encode_command(command: Command) -> Seq<u8> {
    match command {
        Command::AddNode(n) => single(TAG_ADD_NODE, n),
        Command::RemoveNode(n) => single(TAG_REMOVE_NODE, n),
        Command::AssignContainer { node_id, container_id } => double(
            TAG_ASSIGN_CONTAINER,
            node_id,
            container_id,
        ),
        Command::UnassignContainer { node_id, container_id } => double(
            TAG_UNASSIGN_CONTAINER,
            node_id,
            container_id,
        ),
        Command::AllocateVolume { pool_id, volume_id } => double(TAG_ALLOCATE_VOLUME, pool_id, volume_id),
        Command::SetLeader(n) => single(TAG_SET_LEADER, n),
    }
}

/// The command that `bytes` stand for, if they stand for one: the version
/// and a known tag, followed by exactly the identifiers the tag asks for.
pub open spec fn decode_command(bytes: Seq<u8>) -> Option<Command> {
    if bytes.len() < 2 || bytes[0] != WIRE_VERSION {
        None
    } else if bytes.len() == 18 {
        let n = spec_u128_from_le_bytes(bytes.subrange(2, 18));
        if bytes[1] == TAG_ADD_NODE {
            Some(Command::AddNode(n))
        } else if bytes[1] == TAG_REMOVE_NODE {
            Some(Command::RemoveNode(n))
        } else if bytes[1] == TAG_SET_LEADER {
            Some(Command::SetLeader(n))
        } else {
            None
        }
    } else if bytes.len() == 34 {
        let a = spec_u128_from_le_bytes(bytes.subrange(2, 18));
        let b = spec_u128_from_le_bytes(bytes.subrange(18, 34));
        if bytes[1] == TAG_ASSIGN_CONTAINER {
            Some(Command::AssignContainer { node_id: a, container_id: b })
        } else if bytes[1] == TAG_UNASSIGN_CONTAINER {
            Some(Command::UnassignContainer { node_id: a, container_id: b })
        } else if bytes[1] == TAG_ALLOCATE_VOLUME {
            Some(Command::AllocateVolume { pool_id: a, volume_id: b })
        } else {
            None
        }
    } else {
        None
    }
}

/// Every command is read back from its bytes.
pub proof fn lemma_command_round_trip(command: Command)
    ensures
        decode_command(encode_command(command)) == Some(command),
{
    lemma_auto_spec_u128_to_from_le_bytes();
    let bytes = encode_command(command);
    match command {
        Command::AddNode(n) => {
            assert(bytes.subrange(2, 18) =~= spec_u128_to_le_bytes(n));
        },
        Command::RemoveNode(n) => {
            assert(bytes.subrange(2, 18) =~= spec_u128_to_le_bytes(n));
        },
        Command::SetLeader(n) => {
            assert(bytes.subrange(2, 18) =~= spec_u128_to_le_bytes(n));
        },
        Command::AssignContainer { node_id, container_id } => {
            assert(bytes.subrange(2, 18) =~= spec_u128_to_le_bytes(node_id));
            assert(bytes.subrange(18, 34) =~= spec_u128_to_le_bytes(container_id));
        },
        Command::UnassignContainer { node_id, container_id } => {
            assert(bytes.subrange(2, 18) =~= spec_u128_to_le_bytes(node_id));
            assert(bytes.subrange(18, 34) =~= spec_u128_to_le_bytes(container_id));
        },
        Command::AllocateVolume { pool_id, volume_id } => {
            assert(bytes.subrange(2, 18) =~= spec_u128_to_le_bytes(pool_id));
            assert(bytes.subrange(18, 34) =~= spec_u128_to_le_bytes(volume_id));
        },
    }
}

/// Bytes that stand for a command are the bytes that command is written as.
pub proof fn lemma_command_bytes_unique(bytes: Seq<u8>)
    ensures
        decode_command(bytes) matches Some(c) ==> encode_command(c) == bytes,
{
    lemma_auto_spec_u128_to_from_le_bytes();
    if let Some(c) = decode_command(bytes) {
        if bytes.len() == 18 {
            let tail = bytes.subrange(2, 18);
            assert(spec_u128_to_le_bytes(spec_u128_from_le_bytes(tail)) == tail);
            assert(encode_command(c) =~= bytes);
        } else {
            let a = bytes.subrange(2, 18);
            let b = bytes.subrange(18, 34);
            assert(spec_u128_to_le_bytes(spec_u128_from_le_bytes(a)) == a);
            assert(spec_u128_to_le_bytes(spec_u128_from_le_bytes(b)) == b);
            assert(encode_command(c) =~= bytes);
        }
    }
}

impl Command {
    /// Writes the command as bytes.
    pub fn encode(&self) -> (bytes: Vec<u8>)
        ensures
            bytes@ == encode_command(*self),
    {
        let mut bytes: Vec<u8> = Vec::new();
        put_u8(&mut bytes, WIRE_VERSION);
        match self {
            Command::AddNode(n) => {
                put_u8(&mut bytes, TAG_ADD_NODE);
                put_u128(&mut bytes, *n);
            },
            Command::RemoveNode(n) => {
                put_u8(&mut bytes, TAG_REMOVE_NODE);
                put_u128(&mut bytes, *n);
            },
            Command::SetLeader(n) => {
                put_u8(&mut bytes, TAG_SET_LEADER);
                put_u128(&mut bytes, *n);
            },
            Command::AssignContainer { node_id, container_id } => {
                put_u8(&mut bytes, TAG_ASSIGN_CONTAINER);
                put_u128(&mut bytes, *node_id);
                put_u128(&mut bytes, *container_id);
            },
            Command::UnassignContainer { node_id, container_id } => {
                put_u8(&mut bytes, TAG_UNASSIGN_CONTAINER);
                put_u128(&mut bytes, *node_id);
                put_u128(&mut bytes, *container_id);
            },
            Command::AllocateVolume { pool_id, volume_id } => {
                put_u8(&mut bytes, TAG_ALLOCATE_VOLUME);
                put_u128(&mut bytes, *pool_id);
                put_u128(&mut bytes, *volume_id);
            },
        }
        assert(bytes@ =~= encode_command(*self));
        bytes
    }

    /// Reads a command from bytes; `None` where they stand for none.
    pub fn decode(bytes: &[u8]) -> (command: Option<Command>)
        ensures
            command == decode_command(bytes@),
    {
        let len = bytes.len();
        if len < 2 || bytes[0] != WIRE_VERSION {
            return None;
        }
        let tag = bytes[1];
        if len == 18 {
            let n = get_u128(bytes, 2);
            if tag == TAG_ADD_NODE {
                Some(Command::AddNode(n))
            } else if tag == TAG_REMOVE_NODE {
                Some(Command::RemoveNode(n))
            } else if tag == TAG_SET_LEADER {
                Some(Command::SetLeader(n))
            } else {
                None
            }
        } else if len == 34 {
            let a = get_u128(bytes, 2);
            let b = get_u128(bytes, 18);
            if tag == TAG_ASSIGN_CONTAINER {
                Some(Command::AssignContainer { node_id: a, container_id: b })
            } else if tag == TAG_UNASSIGN_CONTAINER {
                Some(Command::UnassignContainer { node_id: a, container_id: b })
            } else if tag == TAG_ALLOCATE_VOLUME {
                Some(Command::AllocateVolume { pool_id: a, volume_id: b })
            } else {
                None
            }
        } else {
            None
        }
    }
}

} // verus!
