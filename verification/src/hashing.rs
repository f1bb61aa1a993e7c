//! BLAKE2b hashing of headers and parachain heads, through the `blake2-rfc`
//! crate.

use vstd::prelude::*;

verus! {

/// The 32-byte BLAKE2b digest of a byte string, as `blake2_rfc::blake2b::blake2b`
/// computes it with an empty key. The digest depends on the input bytes alone;
/// its value is not spelled out here, only named.
pub uninterp spec fn blake2b_256_of(data: Seq<u8>) -> Seq<u8>;

/// Relies on `blake2_rfc::blake2b::blake2b`: with `nn == 32` and an empty key it
/// returns a digest whose `as_bytes()` is 32 bytes long and is a function of
/// `data` alone.
#[verifier::external_body]
pub fn blake2b_256(data: &[u8]) -> (r: Vec<u8>)
    ensures
        r@ == blake2b_256_of(data@),
        r@.len() == 32,
{
    blake2_rfc::blake2b::blake2b(32, &[], data).as_bytes().to_vec()
}

} // verus!
