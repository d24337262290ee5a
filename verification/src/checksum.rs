//! CRC32C, the checksum of every record of both formats.

use vstd::prelude::*;

verus! {

/// The CRC-32 of `bytes` with the Castagnoli polynomial, as the `crc` crate
/// computes it for the algorithm `CRC_32_ISCSI`.
pub uninterp spec fn crc32c(bytes: Seq<u8>) -> u32;

/// Calls `crc::Crc::<u32>::checksum` for the algorithm `crc::CRC_32_ISCSI`:
/// the result is the CRC32C of `data`, a function of its bytes alone.
#[verifier::external_body]
pub(crate) fn checksum(data: &[u8]) -> (sum: u32)
    ensures
        sum == crc32c(data@),
{
    crc::Crc::<u32>::new(&crc::CRC_32_ISCSI).checksum(data)
}

} // verus!
