//! The decision logic of device-attestation checking: the certificate
//! chain itself is parsed by the X.509 library outside this crate, which
//! hands in plain values — the leaf's extension identifiers and the root
//! issuer string — and takes the verdict back.
use crate::wire::bytes_eq;
use vstd::prelude::*;
use vstd::string::StringSliceAdditionalSpecFns;

verus! {

/// A byte string occurs somewhere inside another.
pub open spec fn contains_sub(hay: Seq<u8>, needle: Seq<u8>) -> bool {
    exists|i: int|
        0 <= i && i + needle.len() <= hay.len() && #[trigger] hay.subrange(i, i + needle.len())
            == needle
}

/// Substring search over bytes.
pub fn contains_bytes(hay: &[u8], needle: &[u8]) -> (r: bool)
    ensures
        r == contains_sub(hay@, needle@),
{
    if needle.len() > hay.len() {
        proof {
            assert(!contains_sub(hay@, needle@));
        }
        return false;
    }
    let mut i: usize = 0;
    while i <= hay.len() - needle.len()
        invariant
            needle@.len() <= hay@.len(),
            i <= hay@.len() - needle@.len() + 1,
            forall|j: int|
                0 <= j < i ==> #[trigger] hay@.subrange(j, j + needle@.len()) != needle@,
        decreases hay@.len() + 1 - needle@.len() - i,
    {
        let window = vstd::slice::slice_subrange(hay, i, i + needle.len());
        if bytes_eq(window, needle) {
            proof {
                assert(hay@.subrange(i as int, i + needle@.len()) == needle@);
            }
            return true;
        }
        i = i + 1;
    }
    proof {
        assert(!contains_sub(hay@, needle@));
    }
    false
}

/// The extension identifier that marks a hardware-backed attestation key.
pub fn is_android_attestation_oid(oid: &[u8]) -> (r: bool)
    ensures
        r == (oid@ == "1.3.6.1.4.1.11129.2.1.17".spec_bytes()),
{
    bytes_eq(oid, "1.3.6.1.4.1.11129.2.1.17".as_bytes())
}

/// Whether a root issuer string names one of the trusted vendors.
pub fn is_trusted_root_issuer(issuer: &[u8]) -> (r: bool)
    ensures
        r == (contains_sub(issuer@, "Google".spec_bytes()) || contains_sub(
            issuer@,
            "Apple".spec_bytes(),
        )),
{
    let g = contains_bytes(issuer, "Google".as_bytes());
    let a = contains_bytes(issuer, "Apple".as_bytes());
    g || a
}

/// The attestation verdict over the parsed facts of a chain: the chain is
/// non-empty, the leaf carries the attestation extension, every link's
/// signature checked out, and the root issuer is trusted; the leaf's
/// public-key bytes are then released.
pub fn attestation_decision(
    chain_len: usize,
    leaf_has_attestation_ext: bool,
    chain_signature_valid: bool,
    root_issuer: &[u8],
    leaf_spki: Vec<u8>,
) -> (r: Option<Vec<u8>>)
    ensures
        r is Some <==> (chain_len > 0 && leaf_has_attestation_ext && chain_signature_valid && (
        contains_sub(root_issuer@, "Google".spec_bytes()) || contains_sub(
            root_issuer@,
            "Apple".spec_bytes(),
        ))),
        r matches Some(v) ==> v@ == leaf_spki@,
{
    if chain_len == 0 {
        return None;
    }
    if !leaf_has_attestation_ext {
        return None;
    }
    if !chain_signature_valid {
        return None;
    }
    if !is_trusted_root_issuer(root_issuer) {
        return None;
    }
    Some(leaf_spki)
}

} // verus!
