//! SHA-256 and the hash-to-scalar map used for message digests, challenges
//! and linkage tags.
use crate::field::{scalar_modulus, Fr};
use crate::wire::le_val;
use sha2::{Digest, Sha256};
use vstd::prelude::*;

verus! {

/// The SHA-256 digest of a byte sequence.
pub uninterp spec fn sha256_of(data: Seq<u8>) -> Seq<u8>;

/// Relies on sha2::Sha256::digest: the 32-byte SHA-256 digest, a function
/// of the input bytes alone.
#[verifier::external_body]
pub fn sha256(data: &[u8]) -> (r: Vec<u8>)
    ensures
        r@ == sha256_of(data@),
        r@.len() == 32,
{
    Sha256::digest(data).to_vec()
}

/// The scalar that `hash_to_scalar` derives from a byte sequence: the
/// digest read as a canonical little-endian scalar, or one where the
/// digest is not canonical.
pub open spec fn hash_to_scalar_val(data: Seq<u8>) -> nat {
    if le_val(sha256_of(data)) < scalar_modulus() {
        le_val(sha256_of(data))
    } else {
        1
    }
}

/// Hashes arbitrary bytes to a scalar: SHA-256, then the canonical
/// little-endian decoding. A non-canonical digest falls back to the unit
/// element, which keeps the historic wire behaviour of this scheme.
pub fn hash_to_scalar(data: &[u8]) -> (r: Fr)
    ensures
        r.wf(),
        r.val() == hash_to_scalar_val(data@),
{
    let h = sha256(data);
    match Fr::from_bytes(h.as_slice()) {
        Some(s) => s,
        None => Fr::one(),
    }
}

} // verus!
