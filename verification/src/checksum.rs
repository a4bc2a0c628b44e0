use vstd::prelude::*;

verus! {

/// The CRC-32/ISO-HDLC checksum of a byte string: the 32-bit cyclic
/// redundancy check that PNG, zlib and gzip use.
pub uninterp spec fn crc32_iso_hdlc(bytes: Seq<u8>) -> u32;

/// `crc::Crc::<u32>::checksum`, for the algorithm `crc::CRC_32_ISO_HDLC`,
/// taken on trust: the sum depends on the bytes alone, and `crc32_iso_hdlc`
/// is the name under which the contracts of this crate speak of it.
#[verifier::external_body]
pub(crate) fn checksum(bytes: &[u8]) -> (sum: u32)
    ensures
        sum == crc32_iso_hdlc(bytes@),
{
    crc::Crc::<u32>::new(&crc::CRC_32_ISO_HDLC).checksum(bytes)
}

} // verus!
