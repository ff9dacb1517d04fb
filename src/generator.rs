//! Fresh random identifiers, marked as version-4 UUIDs.
use vstd::prelude::*;
use crate::codec::{decoded, encode, encoded, lemma_round_trip, ID_BYTES};
use crate::error::ErrorView;

verus! {

#[verifier::external_type_specification]
#[verifier::external_body]
pub struct ExRandomError(getrandom::Error);

/// The platform's secure random source could not be read.
#[derive(Debug, Clone, Copy, PartialEq, Eq)]
pub struct EntropyUnavailable;

/// `b` with the version nibble of byte 6 set to 4 and the variant bits of
/// byte 8 set to `10`.
pub open spec fn version4(b: Seq<u8>) -> Seq<u8> {
    b.update(6, (b[6] & 0x0F) | 0x40).update(8, (b[8] & 0x3F) | 0x80)
}

/// Whether the bytes `b` carry the version-4 and variant-`10` marks.
pub open spec fn is_version4(b: Seq<u8>) -> bool {
    b[6] >> 4u8 == 4 && b[8] >> 6u8 == 2
}

/// Relies on `getrandom::getrandom`: fills the buffer from the platform's
/// secure random source, or returns the error when that source fails. Nothing
/// is known of the bytes.
#[verifier::external_body]
fn random_bytes() -> (r: Result<[u8; 16], getrandom::Error>) {
    let mut bytes = [0u8; 16];
    match getrandom::getrandom(&mut bytes) {
        Ok(()) => Ok(bytes),
        Err(e) => Err(e),
    }
}

/// Sets the version-4 and variant-`10` marks on 16 random bytes.
pub fn mark_version4(random: &[u8; 16]) -> (r: [u8; 16])
    ensures
        r@ == version4(random@),
        is_version4(r@),
{
    let mut b = *random;
    let v = b[6];
    let w = b[8];
    let x = (v & 0x0F) | 0x40;
    let y = (w & 0x3F) | 0x80;
    assert(x >> 4u8 == 4) by (bit_vector)
        requires
            x == (v & 0x0F) | 0x40,
    ;
    assert(y >> 6u8 == 2) by (bit_vector)
        requires
            y == (w & 0x3F) | 0x80,
    ;
    b[6] = x;
    b[8] = y;
    assert(b@ =~= version4(random@));
    b
}

/// The Base58 text of a version-4 identifier made from 16 random bytes.
pub fn generate_from(random: &[u8; 16]) -> (r: String)
    ensures
        r@ == encoded(version4(random@)),
        r@.len() == 22,
        decoded(r@) == Ok::<Seq<u8>, ErrorView>(version4(random@)),
        is_version4(version4(random@)),
{
    let marked = mark_version4(random);
    proof {
        lemma_round_trip(marked@);
    }
    encode(&marked)
}

/// A fresh random identifier as Base58 text.
///
/// Fails only when the platform's random source is unavailable; no text is
/// returned then.
pub fn generate() -> (r: Result<String, EntropyUnavailable>)
    ensures
        r matches Ok(s) ==> s@.len() == 22 && exists|b: Seq<u8>|
            b.len() == ID_BYTES && s@ == encoded(version4(b)) && decoded(s@) == Ok::<
                Seq<u8>,
                ErrorView,
            >(version4(b)) && is_version4(version4(b)),
{
    match random_bytes() {
        Ok(random) => Ok(generate_from(&random)),
        Err(_) => Err(EntropyUnavailable),
    }
}

} // verus!
