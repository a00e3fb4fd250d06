//! The commands a collector agent can submit, and their payload layout.

use vstd::bytes::*;
use vstd::prelude::*;

verus! {

/// The tag that marks a `SubmitData` payload.
pub const SUBMIT_DATA_TAG: u32 = 0;

/// The length in bytes of a `SubmitData` payload: tag, identity, two memory
/// figures and the CPU average.
pub const SUBMIT_DATA_LEN: usize = 40;

/// A command sent from an agent to the collector.
///
/// `average_cpu_usage` holds the IEEE-754 bit pattern of a 32-bit float
/// (`f32::to_bits`); the library carries it through without interpreting it.
#[derive(Debug, Clone, Copy, PartialEq, Eq, Structural)]
pub enum CollectorCommandV1 {
    SubmitData {
        /// The agent's identity, a UUID as a 128-bit number.
        collector_id: u128,
        total_memory: u64,
        used_memory: u64,
        average_cpu_usage: u32,
    },
}

/// The wire form of one tagged record: every field little-endian at its full
/// width, in order, with nothing between them.
pub open spec fn record_bytes(tag: u32, id: u128, total: u64, used: u64, cpu: u32) -> Seq<u8> {
    spec_u32_to_le_bytes(tag) + spec_u128_to_le_bytes(id) + spec_u64_to_le_bytes(total)
        + spec_u64_to_le_bytes(used) + spec_u32_to_le_bytes(cpu)
}

/// The fields read from the front of `bytes`, or `None` where fewer than
/// forty bytes are there. Bytes after the fortieth are ignored.
pub open spec fn record_fields(bytes: Seq<u8>) -> Option<(u32, u128, u64, u64, u32)> {
    if bytes.len() < 40 {
        None
    } else {
        Some(
            (
                spec_u32_from_le_bytes(bytes.subrange(0, 4)),
                spec_u128_from_le_bytes(bytes.subrange(4, 20)),
                spec_u64_from_le_bytes(bytes.subrange(20, 28)),
                spec_u64_from_le_bytes(bytes.subrange(28, 36)),
                spec_u32_from_le_bytes(bytes.subrange(36, 40)),
            ),
        )
    }
}

/// The payload that carries `command`.
pub open spec fn payload_of(command: CollectorCommandV1) -> Seq<u8> {
    match command {
        CollectorCommandV1::SubmitData {
            collector_id,
            total_memory,
            used_memory,
            average_cpu_usage,
        } => record_bytes(
            SUBMIT_DATA_TAG,
            collector_id,
            total_memory,
            used_memory,
            average_cpu_usage,
        ),
    }
}

/// The command that `payload` carries, or `None` where it is too short or
/// its tag names no known command.
pub open spec fn parse_payload(payload: Seq<u8>) -> Option<CollectorCommandV1> {
    match record_fields(payload) {
        Some((tag, id, total, used, cpu)) => if tag == SUBMIT_DATA_TAG {
            Some(
                CollectorCommandV1::SubmitData {
                    collector_id: id,
                    total_memory: total,
                    used_memory: used,
                    average_cpu_usage: cpu,
                },
            )
        } else {
            None
        },
        None => None,
    }
}

/// Calls `bincode::serialize` on the five fields as a tuple. With bincode's
/// default options (fixed-width integers, little-endian, no size limit) the
/// result is the fields' bytes one after another; writing integers into a
/// `Vec` cannot fail, so the call always returns `Ok`.
#[verifier::external_body]
pub(crate) fn bincode_record(tag: u32, id: u128, total: u64, used: u64, cpu: u32) -> (out: Vec<u8>)
    ensures
        out@ == record_bytes(tag, id, total, used, cpu),
{
    bincode::serialize(&(tag, id, total, used, cpu)).unwrap()
}

/// Calls `bincode::deserialize` for a tuple of the five fields. It reads
/// forty bytes from the front, fails where the slice is shorter, and accepts
/// bytes left over.
#[verifier::external_body]
pub(crate) fn bincode_fields(bytes: &[u8]) -> (fields: Option<(u32, u128, u64, u64, u32)>)
    ensures
        fields == record_fields(bytes@),
{
    bincode::deserialize::<(u32, u128, u64, u64, u32)>(bytes).ok()
}

/// Every payload is forty bytes long.
pub proof fn lemma_payload_len(command: CollectorCommandV1)
    ensures
        payload_of(command).len() == SUBMIT_DATA_LEN,
{
    lemma_auto_spec_u32_to_from_le_bytes();
    lemma_auto_spec_u64_to_from_le_bytes();
    lemma_auto_spec_u128_to_from_le_bytes();
}

/// Reading a record's bytes back gives its fields, whatever follows them.
pub proof fn lemma_record_round_trip(
    tag: u32,
    id: u128,
    total: u64,
    used: u64,
    cpu: u32,
    rest: Seq<u8>,
)
    ensures
        record_fields(record_bytes(tag, id, total, used, cpu) + rest) == Some(
            (tag, id, total, used, cpu),
        ),
{
    lemma_auto_spec_u32_to_from_le_bytes();
    lemma_auto_spec_u64_to_from_le_bytes();
    lemma_auto_spec_u128_to_from_le_bytes();
    let all = record_bytes(tag, id, total, used, cpu) + rest;
    assert(all.subrange(0, 4) =~= spec_u32_to_le_bytes(tag));
    assert(all.subrange(4, 20) =~= spec_u128_to_le_bytes(id));
    assert(all.subrange(20, 28) =~= spec_u64_to_le_bytes(total));
    assert(all.subrange(28, 36) =~= spec_u64_to_le_bytes(used));
    assert(all.subrange(36, 40) =~= spec_u32_to_le_bytes(cpu));
}

/// A command's payload parses back to the command.
pub proof fn lemma_payload_round_trip(command: CollectorCommandV1)
    ensures
        parse_payload(payload_of(command)) == Some(command),
{
    match command {
        CollectorCommandV1::SubmitData {
            collector_id,
            total_memory,
            used_memory,
            average_cpu_usage,
        } => {
            lemma_record_round_trip(
                SUBMIT_DATA_TAG,
                collector_id,
                total_memory,
                used_memory,
                average_cpu_usage,
                Seq::empty(),
            );
            assert(payload_of(command) + Seq::<u8>::empty() =~= payload_of(command));
        },
    }
}

/// A payload that parses starts with the bytes of the command it parses
/// to.
pub proof fn lemma_parsed_is_payload(payload: Seq<u8>)
    requires
        parse_payload(payload) is Some,
    ensures
        payload.len() >= SUBMIT_DATA_LEN,
        payload.subrange(0, SUBMIT_DATA_LEN as int) == payload_of(parse_payload(payload)->0),
{
    lemma_auto_spec_u32_to_from_le_bytes();
    lemma_auto_spec_u64_to_from_le_bytes();
    lemma_auto_spec_u128_to_from_le_bytes();
    let tag = payload.subrange(0, 4);
    let id = payload.subrange(4, 20);
    let total = payload.subrange(20, 28);
    let used = payload.subrange(28, 36);
    let cpu = payload.subrange(36, 40);
    assert(spec_u32_to_le_bytes(spec_u32_from_le_bytes(tag)) == tag);
    assert(spec_u128_to_le_bytes(spec_u128_from_le_bytes(id)) == id);
    assert(spec_u64_to_le_bytes(spec_u64_from_le_bytes(total)) == total);
    assert(spec_u64_to_le_bytes(spec_u64_from_le_bytes(used)) == used);
    assert(spec_u32_to_le_bytes(spec_u32_from_le_bytes(cpu)) == cpu);
    assert(payload.subrange(0, 40) =~= tag + id + total + used + cpu);
}

/// Serializes `command` into its payload.
pub fn serialize_command(command: &CollectorCommandV1) -> (payload: Vec<u8>)
    ensures
        payload@ == payload_of(*command),
        payload@.len() == SUBMIT_DATA_LEN,
{
    proof {
        lemma_payload_len(*command);
    }
    match command {
        CollectorCommandV1::SubmitData {
            collector_id,
            total_memory,
            used_memory,
            average_cpu_usage,
        } => bincode_record(
            SUBMIT_DATA_TAG,
            *collector_id,
            *total_memory,
            *used_memory,
            *average_cpu_usage,
        ),
    }
}

/// Reads the command that `payload` carries. `None` exactly where the
/// payload is shorter than a record or its tag is not a known one.
pub fn deserialize_command(payload: &[u8]) -> (command: Option<CollectorCommandV1>)
    ensures
        command == parse_payload(payload@),
{
    match bincode_fields(payload) {
        Some((tag, id, total, used, cpu)) => {
            if tag == SUBMIT_DATA_TAG {
                Some(
                    CollectorCommandV1::SubmitData {
                        collector_id: id,
                        total_memory: total,
                        used_memory: used,
                        average_cpu_usage: cpu,
                    },
                )
            } else {
                None
            }
        },
        None => None,
    }
}

} // verus!
