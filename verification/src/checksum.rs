//! The checksum of a chunk record, computed by the `crc` crate.

use crc::{Crc, CRC_32_ISO_HDLC};
use vstd::prelude::*;

verus! {

/// The CRC-32 of `bytes` with the ISO-HDLC parameters, those of zlib and PNG:
/// what `Crc::<u32>::checksum` of the `crc` crate computes for them.
pub uninterp spec fn crc32_iso_hdlc(bytes: Seq<u8>) -> u32;

/// Builds the `crc` crate's `Crc<u32>` for its `CRC_32_ISO_HDLC` parameters
/// with `Crc::new` and runs `Crc::checksum` on `bytes`. Nothing is proved of
/// the number that comes back: the contract only gives it its name, which is
/// sound because the crate computes it from the bytes alone.
#[verifier::external_body]
pub(crate) fn crc32(bytes: &[u8]) -> (sum: u32)
    ensures
        sum == crc32_iso_hdlc(bytes@),
{
    Crc::<u32>::new(&CRC_32_ISO_HDLC).checksum(bytes)
}

} // verus!
