//! The CRC that guards each chunk's type and payload.

use vstd::prelude::*;

verus! {

/// The CRC-32/ISO-HDLC checksum of a byte sequence.
pub uninterp spec fn crc32_iso_hdlc(data: Seq<u8>) -> u32;

/// Relies on `crc::Crc::<u32>::checksum` under the `crc::CRC_32_ISO_HDLC`
/// parameters: a CRC-32 of the given bytes, and of nothing else.
#[verifier::external_body]
pub(crate) fn crc32(data: &[u8]) -> (r: u32)
    ensures
        r == crc32_iso_hdlc(data@),
{
    crc::Crc::<u32>::new(&crc::CRC_32_ISO_HDLC).checksum(data)
}

} // verus!
