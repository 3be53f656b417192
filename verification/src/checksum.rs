//! The checksum that guards each block.

use crc::crc32;
use crc::Hasher32;
use vstd::prelude::*;
use vstd::slice::slice_to_vec;

verus! {

/// The CRC-32 of a byte string under the IEEE polynomial, as the crc crate
/// computes it.
pub uninterp spec fn crc32_ieee(data: Seq<u8>) -> u32;

/// Feeds `data` to a `crc32::Digest` of the crc crate, made with
/// `Digest::new(crc32::IEEE)`, and returns its `sum32`: the CRC-32 of `data`.
#[verifier::external_body]
fn checksum(data: &[u8]) -> (r: u32)
    ensures
        r == crc32_ieee(data@),
{
    let mut digest = crc32::Digest::new(crc32::IEEE);
    digest.write(data);
    digest.sum32()
}

/// The checksum of a block: that of its content followed by the byte of its
/// compression kind.
pub fn block_checksum(content: &[u8], kind: u8) -> (r: u32)
    ensures
        r == crc32_ieee(content@.push(kind)),
{
    let mut covered = slice_to_vec(content);
    covered.push(kind);
    checksum(covered.as_slice())
}

} // verus!
