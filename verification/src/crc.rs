//! The checksum that guards a frame's body.
use vstd::prelude::*;

verus! {

/// The CRC-16/IBM-3740 checksum of a byte sequence (polynomial `0x1021`,
/// initial value `0xffff`, no reflection, no final xor).
pub uninterp spec fn crc16(bytes: Seq<u8>) -> u16;

/// Runs `crc::Digest` for `crc::CRC_16_IBM_3740` over `head` and then `tail`.
///
/// Trusted: the digest folds its register over the bytes of each `update` in
/// turn, so the result is the checksum of `head` followed by `tail`.
#[verifier::external_body]
pub(crate) fn digest_pair(head: &[u8], tail: &[u8]) -> (sum: u16)
    ensures
        sum == crc16(head@ + tail@),
{
    let algo = ::crc::Crc::<u16>::new(&::crc::CRC_16_IBM_3740);
    let mut digest = algo.digest();
    digest.update(head);
    digest.update(tail);
    digest.finalize()
}

/// Checksum of a contiguous byte range.
pub fn checksum(bytes: &[u8]) -> (sum: u16)
    ensures
        sum == crc16(bytes@),
{
    let empty: [u8; 0] = [];
    let tail: &[u8] = empty.as_slice();
    assert(bytes@ + tail@ =~= bytes@);
    digest_pair(bytes, tail)
}

} // verus!
