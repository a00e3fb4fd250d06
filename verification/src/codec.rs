//! The wire codec: one command in, one self-describing frame out, and back.
//!
//! | bytes        | field          | meaning                               |
//! |--------------|----------------|---------------------------------------|
//! | 0..2         | magic          | marks the protocol family             |
//! | 2..4         | version        | the one supported protocol version    |
//! | 4..8         | timestamp      | seconds since the Unix epoch          |
//! | 8..12        | payload length | length of the payload that follows    |
//! | 12..12+n     | payload        | the serialized command                |
//! | 12+n..16+n   | checksum       | CRC-32 of the payload bytes only      |
//!
//! All envelope integers are big-endian.

use vstd::prelude::*;
use vstd::slice::slice_subrange;
use crate::buffer::append_bytes;
use crate::checksum::{crc32, crc32_of};
use crate::clock::unix_now;
use crate::command::{
    deserialize_command, lemma_parsed_is_payload, lemma_payload_len, lemma_payload_round_trip,
    parse_payload, payload_of, serialize_command, CollectorCommandV1, SUBMIT_DATA_LEN,
};
use crate::endian::{
    be16, be32, from_be16, from_be32, get_be16, get_be32, lemma_be16_of_bytes,
    lemma_be16_round_trip, lemma_be32_of_bytes, lemma_be32_round_trip, put_be16, put_be32,
};

verus! {

/// The address the collector listens on unless it is told another.
pub const DATA_COLLECTOR_ADDRESS: &'static str = "127.0.0.1:9004";

/// The marker that opens every frame.
pub const MAGIC_NUMBER: u16 = 1234;

/// The protocol version this codec speaks.
pub const VERSION_NUMBER: u16 = 1;

/// The length of the envelope in front of the payload.
pub const HEADER_LEN: usize = 12;

/// The length of the checksum behind the payload.
pub const CHECKSUM_LEN: usize = 4;

/// Why a byte string is not a frame.
#[derive(Debug, Clone, Copy, PartialEq, Eq, Structural)]
pub enum DecodeError {
    /// The magic field does not hold [`MAGIC_NUMBER`].
    BadMagic,
    /// The version field does not hold [`VERSION_NUMBER`].
    BadVersion,
    /// The bytes end before the field that is due, or before the declared
    /// payload and its checksum are complete.
    Truncated,
    /// The stored checksum is not the CRC-32 of the payload.
    BadChecksum,
    /// The payload is not a known command.
    MalformedPayload,
}

/// The frame that carries `payload` with the given timestamp.
pub open spec fn frame_of(timestamp: u32, payload: Seq<u8>) -> Seq<u8>
    recommends
        payload.len() <= u32::MAX,
{
    be16(MAGIC_NUMBER) + be16(VERSION_NUMBER) + be32(timestamp) + be32(payload.len() as u32)
        + payload + be32(crc32(payload))
}

/// The frame that carries `command` with the given timestamp.
pub open spec fn command_frame(command: CollectorCommandV1, timestamp: u32) -> Seq<u8> {
    frame_of(timestamp, payload_of(command))
}

/// The payload length that the envelope of `bytes` declares.
pub open spec fn declared_len(bytes: Seq<u8>) -> nat
    recommends
        bytes.len() >= HEADER_LEN,
{
    from_be32(bytes.subrange(8, 12)) as nat
}

/// The full length of the frame that `bytes` starts with, going by its
/// envelope: header, declared payload, checksum.
pub open spec fn frame_len(bytes: Seq<u8>) -> nat
    recommends
        bytes.len() >= HEADER_LEN,
{
    HEADER_LEN as nat + declared_len(bytes) + CHECKSUM_LEN as nat
}

/// The payload region of the frame that `bytes` starts with.
pub open spec fn payload_region(bytes: Seq<u8>) -> Seq<u8>
    recommends
        bytes.len() >= frame_len(bytes),
{
    bytes.subrange(HEADER_LEN as int, HEADER_LEN as int + declared_len(bytes))
}

/// The checksum stored behind the payload of the frame that `bytes` starts
/// with.
pub open spec fn stored_checksum(bytes: Seq<u8>) -> u32
    recommends
        bytes.len() >= frame_len(bytes),
{
    from_be32(
        bytes.subrange(
            HEADER_LEN as int + declared_len(bytes),
            HEADER_LEN as int + declared_len(bytes) + 4,
        ),
    )
}

/// What decoding `bytes` gives. The fields are examined in wire order and
/// the first failure decides: a field that is not wholly there is
/// `Truncated`; a magic or version field that is there and wrong is
/// `BadMagic` or `BadVersion`; then the payload and checksum must be
/// complete, the checksum must match, and the payload must parse. Bytes
/// behind the frame are not looked at.
pub open spec fn decode_spec(bytes: Seq<u8>) -> Result<(u32, CollectorCommandV1), DecodeError> {
    if bytes.len() < 2 {
        Err(DecodeError::Truncated)
    } else if from_be16(bytes.subrange(0, 2)) != MAGIC_NUMBER {
        Err(DecodeError::BadMagic)
    } else if bytes.len() < 4 {
        Err(DecodeError::Truncated)
    } else if from_be16(bytes.subrange(2, 4)) != VERSION_NUMBER {
        Err(DecodeError::BadVersion)
    } else if bytes.len() < HEADER_LEN || bytes.len() < frame_len(bytes) {
        Err(DecodeError::Truncated)
    } else if stored_checksum(bytes) != crc32(payload_region(bytes)) {
        Err(DecodeError::BadChecksum)
    } else {
        match parse_payload(payload_region(bytes)) {
            Some(command) => Ok((from_be32(bytes.subrange(4, 8)), command)),
            None => Err(DecodeError::MalformedPayload),
        }
    }
}

/// Encodes `command` into a frame stamped `timestamp`.
pub fn encode_with_timestamp(command: &CollectorCommandV1, timestamp: u32) -> (frame: Vec<u8>)
    ensures
        frame@ == command_frame(*command, timestamp),
{
    let payload: Vec<u8> = serialize_command(command);
    let sum: u32 = crc32_of(payload.as_slice());
    let payload_size: u32 = payload.len() as u32;
    let mut frame: Vec<u8> = Vec::with_capacity(140);
    put_be16(&mut frame, MAGIC_NUMBER);
    put_be16(&mut frame, VERSION_NUMBER);
    put_be32(&mut frame, timestamp);
    put_be32(&mut frame, payload_size);
    append_bytes(&mut frame, payload.as_slice());
    put_be32(&mut frame, sum);
    assert(frame@ =~= command_frame(*command, timestamp));
    frame
}

/// Encodes `command` into a frame stamped with the current time.
pub fn encode_v1(command: &CollectorCommandV1) -> (frame: Vec<u8>)
    ensures
        exists|timestamp: u32| frame@ == command_frame(*command, timestamp),
        decode_spec(frame@) is Ok,
        decode_spec(frame@)->Ok_0.1 == *command,
{
    let timestamp: u32 = unix_now();
    let frame: Vec<u8> = encode_with_timestamp(command, timestamp);
    proof {
        lemma_round_trip(*command, timestamp);
    }
    frame
}

/// Decodes the frame at the front of `bytes` into its timestamp and command.
pub fn decode_v1(bytes: &[u8]) -> (decoded: Result<(u32, CollectorCommandV1), DecodeError>)
    ensures
        decoded == decode_spec(bytes@),
{
    match decode_frame(bytes) {
        Ok((timestamp, command, _)) => Ok((timestamp, command)),
        Err(error) => Err(error),
    }
}

/// Decodes the frame at the front of `bytes` and says how many bytes it
/// took, so that a stream can be cut into its frames.
pub fn decode_frame(bytes: &[u8]) -> (decoded: Result<
    (u32, CollectorCommandV1, usize),
    DecodeError,
>)
    ensures
        match decoded {
            Ok((timestamp, command, taken)) => {
                &&& decode_spec(bytes@) == Ok::<(u32, CollectorCommandV1), DecodeError>(
                    (timestamp, command),
                )
                &&& taken == frame_len(bytes@)
                &&& HEADER_LEN + CHECKSUM_LEN <= taken <= bytes@.len()
            },
            Err(error) => decode_spec(bytes@) == Err::<(u32, CollectorCommandV1), DecodeError>(
                error,
            ),
        },
{
    let len: usize = bytes.len();
    if len < 2 {
        return Err(DecodeError::Truncated);
    }
    if get_be16(bytes, 0) != MAGIC_NUMBER {
        return Err(DecodeError::BadMagic);
    }
    if len < 4 {
        return Err(DecodeError::Truncated);
    }
    if get_be16(bytes, 2) != VERSION_NUMBER {
        return Err(DecodeError::BadVersion);
    }
    if len < HEADER_LEN {
        return Err(DecodeError::Truncated);
    }
    let timestamp: u32 = get_be32(bytes, 4);
    let payload_size: u32 = get_be32(bytes, 8);
    if (len as u64) < payload_size as u64 + 16 {
        return Err(DecodeError::Truncated);
    }
    let end: usize = HEADER_LEN + payload_size as usize;
    let payload: &[u8] = slice_subrange(bytes, HEADER_LEN, end);
    if get_be32(bytes, end) != crc32_of(payload) {
        return Err(DecodeError::BadChecksum);
    }
    match deserialize_command(payload) {
        Some(command) => Ok((timestamp, command, end + CHECKSUM_LEN)),
        None => Err(DecodeError::MalformedPayload),
    }
}

/// What the envelope of an encoded command holds.
pub proof fn lemma_frame_fields(command: CollectorCommandV1, timestamp: u32, rest: Seq<u8>)
    ensures
        command_frame(command, timestamp).len() == 56,
        ({
            let bytes = command_frame(command, timestamp) + rest;
            &&& from_be16(bytes.subrange(0, 2)) == MAGIC_NUMBER
            &&& from_be16(bytes.subrange(2, 4)) == VERSION_NUMBER
            &&& from_be32(bytes.subrange(4, 8)) == timestamp
            &&& declared_len(bytes) == 40
            &&& frame_len(bytes) == 56
            &&& payload_region(bytes) == payload_of(command)
            &&& stored_checksum(bytes) == crc32(payload_of(command))
        }),
{
    let payload = payload_of(command);
    let bytes = command_frame(command, timestamp) + rest;
    lemma_payload_len(command);
    lemma_be16_round_trip(MAGIC_NUMBER);
    lemma_be16_round_trip(VERSION_NUMBER);
    lemma_be32_round_trip(timestamp);
    lemma_be32_round_trip(40u32);
    lemma_be32_round_trip(crc32(payload));
    assert(bytes.subrange(0, 2) =~= be16(MAGIC_NUMBER));
    assert(bytes.subrange(2, 4) =~= be16(VERSION_NUMBER));
    assert(bytes.subrange(4, 8) =~= be32(timestamp));
    assert(bytes.subrange(8, 12) =~= be32(40u32));
    assert(bytes.subrange(12, 52) =~= payload);
    assert(bytes.subrange(52, 56) =~= be32(crc32(payload)));
}

/// Round trip: decoding an encoded command gives the command and the
/// timestamp it was stamped with.
pub proof fn lemma_round_trip(command: CollectorCommandV1, timestamp: u32)
    ensures
        decode_spec(command_frame(command, timestamp)) == Ok::<
            (u32, CollectorCommandV1),
            DecodeError,
        >((timestamp, command)),
{
    lemma_frame_fields(command, timestamp, Seq::empty());
    lemma_payload_round_trip(command);
    assert(command_frame(command, timestamp) + Seq::<u8>::empty() =~= command_frame(
        command,
        timestamp,
    ));
}

/// Only frames are accepted: bytes that decode start with a frame in
/// which every field is as the envelope demands, the magic and version the
/// fixed ones, the length that of the payload, the checksum its CRC-32,
/// and the payload starts with the bytes of the command decoded.
pub proof fn lemma_accepted_is_frame(bytes: Seq<u8>)
    requires
        decode_spec(bytes) is Ok,
    ensures
        frame_len(bytes) <= bytes.len(),
        bytes.subrange(0, frame_len(bytes) as int) == frame_of(
            decode_spec(bytes)->Ok_0.0,
            payload_region(bytes),
        ),
        payload_region(bytes).len() >= SUBMIT_DATA_LEN,
        payload_region(bytes).subrange(0, SUBMIT_DATA_LEN as int) == payload_of(
            decode_spec(bytes)->Ok_0.1,
        ),
{
    let n = declared_len(bytes) as int;
    let payload = payload_region(bytes);
    lemma_be16_of_bytes(bytes.subrange(0, 2));
    lemma_be16_of_bytes(bytes.subrange(2, 4));
    lemma_be32_of_bytes(bytes.subrange(4, 8));
    lemma_be32_of_bytes(bytes.subrange(8, 12));
    lemma_be32_of_bytes(bytes.subrange(12 + n, 12 + n + 4));
    lemma_parsed_is_payload(payload);
    assert(payload.len() == n);
    assert(n as u32 == from_be32(bytes.subrange(8, 12)));
    assert(bytes.subrange(0, 16 + n) =~= bytes.subrange(0, 2) + bytes.subrange(2, 4)
        + bytes.subrange(4, 8) + bytes.subrange(8, 12) + payload + bytes.subrange(
        12 + n,
        12 + n + 4,
    ));
}

/// Canonical form: bytes that decode and declare a payload of exactly a
/// record's length begin with the very frame that encoding the decoded
/// command with the decoded timestamp gives.
pub proof fn lemma_decode_then_encode(bytes: Seq<u8>)
    requires
        decode_spec(bytes) is Ok,
        declared_len(bytes) == SUBMIT_DATA_LEN,
    ensures
        bytes.subrange(0, frame_len(bytes) as int) == command_frame(
            decode_spec(bytes)->Ok_0.1,
            decode_spec(bytes)->Ok_0.0,
        ),
{
    lemma_accepted_is_frame(bytes);
    let payload = payload_region(bytes);
    assert(payload.subrange(0, SUBMIT_DATA_LEN as int) =~= payload);
}

/// `byte` with one of its eight bits inverted.
pub open spec fn flip_bit(byte: u8, bit: u8) -> u8
    recommends
        bit < 8,
{
    byte ^ (1u8 << bit)
}

/// Inverting a bit changes the byte.
pub proof fn lemma_flip_changes(byte: u8, bit: u8)
    requires
        bit < 8,
    ensures
        flip_bit(byte, bit) != byte,
{
    assert(byte ^ (1u8 << bit) != byte) by (bit_vector)
        requires
            bit < 8,
    ;
}

/// Truncation: every strict prefix of a valid frame, cut anywhere before
/// the end that its envelope declares, decodes to `Truncated`.
pub proof fn lemma_prefix_truncated(frame: Seq<u8>, cut: int)
    requires
        decode_spec(frame) is Ok,
        0 <= cut < frame_len(frame),
    ensures
        decode_spec(frame.subrange(0, cut)) == Err::<(u32, CollectorCommandV1), DecodeError>(
            DecodeError::Truncated,
        ),
{
    let prefix = frame.subrange(0, cut);
    if cut >= 2 {
        assert(prefix.subrange(0, 2) =~= frame.subrange(0, 2));
    }
    if cut >= 4 {
        assert(prefix.subrange(2, 4) =~= frame.subrange(2, 4));
    }
    if cut >= 12 {
        assert(prefix.subrange(8, 12) =~= frame.subrange(8, 12));
    }
}

/// Header corruption: inverting any single bit of the magic field of a
/// valid frame makes it decode to `BadMagic`.
pub proof fn lemma_magic_bit_flip(frame: Seq<u8>, index: int, bit: u8)
    requires
        decode_spec(frame) is Ok,
        0 <= index < 2,
        bit < 8,
    ensures
        decode_spec(frame.update(index, flip_bit(frame[index], bit))) == Err::<
            (u32, CollectorCommandV1),
            DecodeError,
        >(DecodeError::BadMagic),
{
    let damaged = frame.update(index, flip_bit(frame[index], bit));
    lemma_flip_changes(frame[index], bit);
    let before = frame.subrange(0, 2);
    let after = damaged.subrange(0, 2);
    assert(before[0] == frame[0] && before[1] == frame[1]);
    assert(after[0] == damaged[0] && after[1] == damaged[1]);
    assert(from_be16(before) == before[0] as int * 256 + before[1] as int);
    assert(from_be16(after) == after[0] as int * 256 + after[1] as int);
    assert(from_be16(after) != from_be16(before));
}

/// Payload corruption: a valid frame whose payload bytes were altered, the
/// envelope and the stored checksum left as they were, decodes to
/// `BadChecksum` exactly when the altered payload has another CRC-32.
pub proof fn lemma_payload_change(frame: Seq<u8>, damaged: Seq<u8>)
    requires
        decode_spec(frame) is Ok,
        damaged.len() == frame.len(),
        forall|i: int|
            0 <= i < frame.len() && !(HEADER_LEN <= i < HEADER_LEN + declared_len(frame))
                ==> damaged[i] == frame[i],
    ensures
        decode_spec(damaged) == Err::<(u32, CollectorCommandV1), DecodeError>(
            DecodeError::BadChecksum,
        ) <==> crc32(payload_region(damaged)) != crc32(payload_region(frame)),
{
    let n = declared_len(frame) as int;
    assert(damaged.subrange(0, 2) =~= frame.subrange(0, 2));
    assert(damaged.subrange(2, 4) =~= frame.subrange(2, 4));
    assert(damaged.subrange(8, 12) =~= frame.subrange(8, 12));
    assert(damaged.subrange(12 + n, 12 + n + 4) =~= frame.subrange(12 + n, 12 + n + 4));
}

/// Payload corruption, one bit: inverting a bit inside the payload of a
/// valid frame gives `BadChecksum` exactly when the CRC-32 of the payload
/// changes with it.
pub proof fn lemma_payload_bit_flip(frame: Seq<u8>, index: int, bit: u8)
    requires
        decode_spec(frame) is Ok,
        HEADER_LEN <= index < HEADER_LEN + declared_len(frame),
        bit < 8,
    ensures
        ({
            let damaged = frame.update(index, flip_bit(frame[index], bit));
            &&& payload_region(damaged) == payload_region(frame).update(
                index - HEADER_LEN,
                flip_bit(frame[index], bit),
            )
            &&& decode_spec(damaged) == Err::<(u32, CollectorCommandV1), DecodeError>(
                DecodeError::BadChecksum,
            ) <==> crc32(payload_region(damaged)) != crc32(payload_region(frame))
        }),
{
    let damaged = frame.update(index, flip_bit(frame[index], bit));
    lemma_payload_change(frame, damaged);
    assert(damaged.subrange(8, 12) =~= frame.subrange(8, 12));
    assert(payload_region(damaged) =~= payload_region(frame).update(
        index - HEADER_LEN,
        flip_bit(frame[index], bit),
    ));
}

/// Decoding looks at one frame only: bytes behind a valid frame change
/// neither what it decodes to nor the length it declares.
pub proof fn lemma_decode_ignores_rest(bytes: Seq<u8>, rest: Seq<u8>)
    requires
        decode_spec(bytes) is Ok,
    ensures
        decode_spec(bytes + rest) == decode_spec(bytes),
        frame_len(bytes + rest) == frame_len(bytes),
        HEADER_LEN + CHECKSUM_LEN <= frame_len(bytes) <= bytes.len(),
{
    let all = bytes + rest;
    let n = declared_len(bytes) as int;
    assert(all.subrange(0, 2) =~= bytes.subrange(0, 2));
    assert(all.subrange(2, 4) =~= bytes.subrange(2, 4));
    assert(all.subrange(4, 8) =~= bytes.subrange(4, 8));
    assert(all.subrange(8, 12) =~= bytes.subrange(8, 12));
    assert(all.subrange(12, 12 + n) =~= bytes.subrange(12, 12 + n));
    assert(all.subrange(12 + n, 12 + n + 4) =~= bytes.subrange(12 + n, 12 + n + 4));
}

/// Round trip inside a stream: an encoded command followed by any bytes
/// decodes to the command and its timestamp, and takes fifty-six bytes.
pub proof fn lemma_round_trip_in_stream(
    command: CollectorCommandV1,
    timestamp: u32,
    rest: Seq<u8>,
)
    ensures
        decode_spec(command_frame(command, timestamp) + rest) == Ok::<
            (u32, CollectorCommandV1),
            DecodeError,
        >((timestamp, command)),
        frame_len(command_frame(command, timestamp) + rest) == command_frame(
            command,
            timestamp,
        ).len(),
{
    lemma_round_trip(command, timestamp);
    lemma_frame_fields(command, timestamp, Seq::empty());
    assert(command_frame(command, timestamp) + Seq::<u8>::empty() =~= command_frame(
        command,
        timestamp,
    ));
    lemma_decode_ignores_rest(command_frame(command, timestamp), rest);
}

} // verus!
