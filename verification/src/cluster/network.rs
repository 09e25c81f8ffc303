//! Frames: a payload behind the four bytes of its length.

use crate::cluster::error::ClusterError;
use crate::cluster::wire::{lemma_u32_be_round_trip, u32_be_bytes, u32_from_be_bytes};
use vstd::prelude::*;
use vstd::slice::*;
use vstd::string::*;

verus! {

/// The number of bytes that announce the length of a payload.
pub const HEADER_LEN: usize = 4;

/// Whether a payload is short enough for its length to be announced.
pub open spec fn frameable(payload: Seq<u8>) -> bool {
    payload.len() <= u32::MAX
}

/// A payload as it travels: its length in four bytes, highest first, then
/// the payload itself.
pub open spec fn frame(payload: Seq<u8>) -> Seq<u8> {
    u32_be_bytes(payload.len() as u32) + payload
}

/// The payload of the first frame in `buffer`, if the buffer holds all of
/// it.
pub open spec fn first_frame(buffer: Seq<u8>) -> Option<Seq<u8>> {
    if buffer.len() < 4 {
        None
    } else {
        let n = u32_from_be_bytes(buffer.subrange(0, 4)) as int;
        if buffer.len() < 4 + n {
            None
        } else {
            Some(buffer.subrange(4, 4 + n))
        }
    }
}

/// A frame is read back from the front of whatever it is followed by.
pub proof fn lemma_frame_round_trip(payload: Seq<u8>, rest: Seq<u8>)
    requires
        frameable(payload),
    ensures
        first_frame(frame(payload) + rest) == Some(payload),
{
    lemma_u32_be_round_trip(payload.len() as u32);
    let buffer = frame(payload) + rest;
    assert(buffer.subrange(0, 4) =~= u32_be_bytes(payload.len() as u32));
    assert(buffer.subrange(4, 4 + payload.len() as int) =~= payload);
}

/// The four bytes that announce `n`, highest first.
fn length_header(n: u32) -> (header: Vec<u8>)
    ensures
        header@ == u32_be_bytes(n),
{
    let mut header: Vec<u8> = Vec::new();
    header.push(((n >> 24) & 0xff) as u8);
    header.push(((n >> 16) & 0xff) as u8);
    header.push(((n >> 8) & 0xff) as u8);
    header.push((n & 0xff) as u8);
    assert(header@ =~= u32_be_bytes(n));
    header
}

/// The length that the four bytes of `header` announce.
pub fn announced_length(header: &[u8]) -> (n: u32)
    requires
        header@.len() == 4,
    ensures
        n == u32_from_be_bytes(header@),
{
    ((header[0] as u32) << 24) | ((header[1] as u32) << 16) | ((header[2] as u32) << 8) | (header[3] as u32)
}

/// Puts a payload into a frame. A payload too long for its length to be
/// announced is refused.
pub fn frame_message(message: &[u8]) -> (framed: Result<Vec<u8>, ClusterError>)
    ensures
        framed is Ok <==> frameable(message@),
        framed matches Ok(bytes) ==> bytes@ == frame(message@),
        framed matches Err(e) ==> e is Network,
{
    let len = message.len();
    if len > u32::MAX as usize {
        return Err(ClusterError::Network(String::from_str("Failed to write length: message too long")));
    }
    let mut framed = length_header(len as u32);
    let ghost head = framed@;
    let mut i: usize = 0;
    while i < len
        invariant
            i <= len,
            len == message@.len(),
            framed@ == head + message@.take(i as int),
        decreases len - i,
    {
        framed.push(message[i]);
        assert(framed@ =~= head + message@.take(i + 1));
        i = i + 1;
    }
    assert(message@.take(len as int) =~= message@);
    Ok(framed)
}

/// Takes the payload of the first frame out of what has been received so
/// far; `None` while the frame is not complete.
pub fn unframe_message(buffer: &[u8]) -> (payload: Option<Vec<u8>>)
    ensures
        match payload {
            Some(p) => first_frame(buffer@) == Some(p@),
            None => first_frame(buffer@) is None,
        },
{
    let len = buffer.len();
    if len < 4 {
        return None;
    }
    let n = announced_length(slice_subrange(buffer, 0, 4)) as usize;
    if len - 4 < n {
        return None;
    }
    Some(slice_to_vec(slice_subrange(buffer, 4, 4 + n)))
}

} // verus!
