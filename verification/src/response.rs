//! The collector's answer to a frame.
//!
//! The collector acknowledges every frame it has decoded with eight bytes:
//! a tag and a status code, both 32-bit little-endian. A client treats a
//! frame as delivered only once it has read `Ack(0)` for it.

use vstd::bytes::*;
use vstd::prelude::*;
use vstd::slice::slice_subrange;
use crate::buffer::append_bytes;

verus! {

/// The tag that marks an acknowledgment.
pub const ACK_TAG: u32 = 0;

/// The status code of an acknowledgment that accepts the frame.
pub const ACK_ACCEPTED: u32 = 0;

/// The length in bytes of a response on the wire.
pub const RESPONSE_LEN: usize = 8;

/// What the collector sends back for a frame.
#[derive(Debug, Clone, Copy, PartialEq, Eq, Structural)]
pub enum CollectorResponseV1 {
    /// The frame was received; the code is [`ACK_ACCEPTED`] where it was
    /// decoded and taken in.
    Ack(u32),
}

/// The bytes that carry `response`.
pub open spec fn response_bytes(response: CollectorResponseV1) -> Seq<u8> {
    match response {
        CollectorResponseV1::Ack(code) => spec_u32_to_le_bytes(ACK_TAG) + spec_u32_to_le_bytes(
            code,
        ),
    }
}

/// The response at the front of `bytes`, or `None` where fewer than eight
/// bytes are there or the tag is unknown.
pub open spec fn parse_response(bytes: Seq<u8>) -> Option<CollectorResponseV1> {
    if bytes.len() < RESPONSE_LEN {
        None
    } else if spec_u32_from_le_bytes(bytes.subrange(0, 4)) != ACK_TAG {
        None
    } else {
        Some(CollectorResponseV1::Ack(spec_u32_from_le_bytes(bytes.subrange(4, 8))))
    }
}

/// Whether `bytes` acknowledge a frame as accepted.
pub open spec fn is_accepting(bytes: Seq<u8>) -> bool {
    parse_response(bytes) == Some(CollectorResponseV1::Ack(ACK_ACCEPTED))
}

/// Encodes `response` for the wire.
pub fn encode_response_v1(response: &CollectorResponseV1) -> (bytes: Vec<u8>)
    ensures
        bytes@ == response_bytes(*response),
        bytes@.len() == RESPONSE_LEN,
{
    match response {
        CollectorResponseV1::Ack(code) => {
            let mut bytes: Vec<u8> = u32_to_le_bytes(ACK_TAG);
            let tail: Vec<u8> = u32_to_le_bytes(*code);
            append_bytes(&mut bytes, tail.as_slice());
            bytes
        },
    }
}

/// Decodes the response at the front of `bytes`.
pub fn decode_response_v1(bytes: &[u8]) -> (response: Option<CollectorResponseV1>)
    ensures
        response == parse_response(bytes@),
{
    if bytes.len() < RESPONSE_LEN {
        return None;
    }
    let tag: u32 = u32_from_le_bytes(slice_subrange(bytes, 0, 4));
    if tag != ACK_TAG {
        return None;
    }
    let code: u32 = u32_from_le_bytes(slice_subrange(bytes, 4, 8));
    Some(CollectorResponseV1::Ack(code))
}

/// Whether `bytes`, read in reply to a frame, acknowledge it as accepted.
pub fn accepts(bytes: &[u8]) -> (yes: bool)
    ensures
        yes == is_accepting(bytes@),
{
    match decode_response_v1(bytes) {
        Some(CollectorResponseV1::Ack(code)) => code == ACK_ACCEPTED,
        None => false,
    }
}

/// A response decodes to itself, whatever follows it.
pub proof fn lemma_response_round_trip(response: CollectorResponseV1, rest: Seq<u8>)
    ensures
        parse_response(response_bytes(response) + rest) == Some(response),
{
    lemma_auto_spec_u32_to_from_le_bytes();
    let all = response_bytes(response) + rest;
    match response {
        CollectorResponseV1::Ack(code) => {
            assert(all.subrange(0, 4) =~= spec_u32_to_le_bytes(ACK_TAG));
            assert(all.subrange(4, 8) =~= spec_u32_to_le_bytes(code));
        },
    }
}

} // verus!
