//! The checksum that guards every record of the log.

use vstd::prelude::*;

verus! {

/// The CRC-32 (IEEE polynomial) digest of a byte sequence, as the `crc`
/// crate computes it. The digest depends on the bytes alone, so it is
/// given a name here rather than a definition.
pub uninterp spec fn kontrolni_zbir_od(podaci: Seq<u8>) -> u32;

/// Relies on `crc::crc32::checksum_ieee`: a table-driven CRC-32 over the
/// bytes, a pure function of its input.
#[verifier::external_body]
pub(crate) fn izracunaj_kontrolni_zbir(podaci: &[u8]) -> (r: u32)
    ensures
        r == kontrolni_zbir_od(podaci@),
{
    crc::crc32::checksum_ieee(podaci)
}

} // verus!
