//! The CRC-32 that guards a frame's payload.

use vstd::prelude::*;

verus! {

/// The CRC-32 (IEEE 802.3) of `bytes`, as `crc32fast` computes it.
pub uninterp spec fn crc32(bytes: Seq<u8>) -> u32;

/// Calls `crc32fast::hash`. The checksum depends on the bytes alone, so the
/// contract names it [`crc32`]; nothing else is claimed of it.
#[verifier::external_body]
pub(crate) fn crc32_of(bytes: &[u8]) -> (sum: u32)
    ensures
        sum == crc32(bytes@),
{
    crc32fast::hash(bytes)
}

} // verus!
