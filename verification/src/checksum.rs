//! The CRC-32 that guards a chunk.

use vstd::prelude::*;

verus! {

/// The CRC-32/ISO-HDLC checksum of `bytes`: width 32, polynomial 0x04C11DB7,
/// initial value 0xFFFFFFFF, input and output reflected, final XOR
/// 0xFFFFFFFF. The `crc` crate computes it; nothing but its being a function
/// of the bytes is known here.
pub uninterp spec fn crc32_iso_hdlc(bytes: Seq<u8>) -> u32;

/// Calls `crc::Crc::<u32>::checksum` on a `Crc` made by `Crc::<u32>::new`
/// from `crc::CRC_32_ISO_HDLC`. The contract only gives the result its name:
/// the checksum depends on the bytes and on nothing else.
#[verifier::external_body]
pub(crate) fn checksum(bytes: &[u8]) -> (sum: u32)
    ensures
        sum == crc32_iso_hdlc(bytes@),
{
    crc::Crc::<u32>::new(&crc::CRC_32_ISO_HDLC).checksum(bytes)
}

} // verus!
