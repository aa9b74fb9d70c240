//! Selective-disclosure proofs and delegation tokens: wire layout, the
//! Fiat–Shamir binding, the response-count guard, and the delegation
//! sign/verify round trip.
use bls12_381::{G1Projective, G2Affine, Scalar};
use group::Curve;
use multipass_core::create_proof;
use multipass_core::periwinkle::EntropyHarvester;
use multipass_core::sign;
use multipass_core::sign_delegation;
use multipass_core::verify_delegation_signature;
use multipass_core::verify_proof_safe;
use multipass_core::DelegationToken;
use multipass_core::VerifyError;

fn harvester() -> EntropyHarvester {
    EntropyHarvester::from_seed_material(vec![7u8; 32], vec![9u8; 32], vec![1u8; 232]).unwrap()
}

fn sk_one_bytes() -> Vec<u8> {
    let mut sk = vec![0u8; 32];
    sk[0] = 1;
    sk
}

fn pk_for_sk_one(n: u64) -> Vec<u8> {
    let mut pk = Vec::new();
    pk.extend_from_slice(&G2Affine::generator().to_compressed());
    for i in 0..n {
        let h = (G1Projective::generator() * Scalar::from(i + 2)).to_affine();
        pk.extend_from_slice(&h.to_compressed());
    }
    pk
}

fn msgs(items: &[&str]) -> Vec<Vec<u8>> {
    items.iter().map(|m| m.as_bytes().to_vec()).collect()
}

fn selective_proof() -> (Vec<u8>, Vec<u8>) {
    let mut ent = harvester();
    let pk = pk_for_sk_one(4);
    let messages = msgs(&["name=Alice", "age=30", "zip=94103"]);
    let sig = sign(&sk_one_bytes(), &pk, &messages, &mut ent).unwrap();
    let proof = create_proof(
        &pk,
        &sig,
        &messages,
        &vec![1u32],
        &None,
        b"example.com",
        7,
        &Some(b"blinding-seed".to_vec()),
        &None,
        &mut ent,
    )
    .unwrap();
    (pk, proof)
}

#[test]
fn selective_disclosure_layout_and_checks() {
    let (pk, proof) = selective_proof();
    // Three messages, one revealed: two responses after the 244-byte head.
    assert_eq!(proof.len(), 244 + 2 * 32);
    assert_eq!(&proof[240..244], &2u32.to_le_bytes());
    // The verifier parses it and reaches the cryptographic checks: no
    // error is reported for a well-formed proof.
    let r = verify_proof_safe(
        &pk,
        &proof,
        3,
        &vec![1u32],
        &msgs(&["age=30"]),
        b"",
        7,
        &None,
    );
    assert!(r.is_ok());
    // A different revealed value can only make the equation fail.
    let r_wrong = verify_proof_safe(
        &pk,
        &proof,
        3,
        &vec![1u32],
        &msgs(&["age=31"]),
        b"",
        7,
        &None,
    );
    assert_eq!(r_wrong, Ok(false));
}

#[test]
fn proof_bound_to_alias_and_tag() {
    let (pk, proof) = selective_proof();
    // A different alias index breaks the Fiat–Shamir binding.
    let r = verify_proof_safe(
        &pk,
        &proof,
        3,
        &vec![1u32],
        &msgs(&["age=30"]),
        b"",
        8,
        &None,
    );
    assert_eq!(r, Ok(false));
    // Flipping a bit of the embedded challenge makes the proof invalid:
    // the re-computation mismatches, or the scalar stops decoding.
    let mut bad = proof.clone();
    bad[160] ^= 0x01;
    let r2 = verify_proof_safe(
        &pk,
        &bad,
        3,
        &vec![1u32],
        &msgs(&["age=30"]),
        b"",
        7,
        &None,
    );
    assert!(r2 == Ok(false) || r2 == Err(VerifyError::InvalidSignature));
    // Flipping a bit of the linkage tag likewise.
    let mut bad_tag = proof.clone();
    bad_tag[200] ^= 0x01;
    let r3 = verify_proof_safe(
        &pk,
        &bad_tag,
        3,
        &vec![1u32],
        &msgs(&["age=30"]),
        b"",
        7,
        &None,
    );
    assert!(r3 == Ok(false) || r3 == Err(VerifyError::InvalidSignature));
}

#[test]
fn proof_binds_nonce_and_freshness_claim() {
    let mut ent = harvester();
    let pk = pk_for_sk_one(3);
    let messages = msgs(&["a", "b"]);
    let sig = sign(&sk_one_bytes(), &pk, &messages, &mut ent).unwrap();
    let proof = create_proof(
        &pk,
        &sig,
        &messages,
        &vec![0u32],
        &Some(b"session-nonce".to_vec()),
        b"example.com",
        1,
        &None,
        &Some(b"freshness-claim-bytes".to_vec()),
        &mut ent,
    )
    .unwrap();
    assert_eq!(proof.len(), 244 + 32);
    // Matching nonce and freshness claim: the proof parses and the
    // challenge re-computation agrees.
    let r = verify_proof_safe(
        &pk,
        &proof,
        2,
        &vec![0u32],
        &msgs(&["a"]),
        b"session-nonce",
        1,
        &Some(b"freshness-claim-bytes".to_vec()),
    );
    assert!(r.is_ok());
    // A different nonce breaks the Fiat-Shamir binding.
    let r2 = verify_proof_safe(
        &pk,
        &proof,
        2,
        &vec![0u32],
        &msgs(&["a"]),
        b"other-nonce",
        1,
        &Some(b"freshness-claim-bytes".to_vec()),
    );
    assert_eq!(r2, Ok(false));
    // A missing freshness claim breaks it too.
    let r3 = verify_proof_safe(&pk, &proof, 2, &vec![0u32], &msgs(&["a"]), b"session-nonce", 1, &None);
    assert_eq!(r3, Ok(false));
}

#[test]
fn dos_guard_rejects_large_response_count() {
    let pk = pk_for_sk_one(1);
    // A 244-byte shell whose declared response count is one million.
    let mut proof = vec![0u8; 244];
    proof[240..244].copy_from_slice(&1_000_000u32.to_le_bytes());
    let r = verify_proof_safe(&pk, &proof, 3, &vec![], &vec![], b"", 0, &None);
    assert_eq!(r, Err(VerifyError::InvalidSignature));
}

#[test]
fn proof_parse_errors() {
    let pk = pk_for_sk_one(1);
    // Mismatched revealed lists.
    assert_eq!(
        verify_proof_safe(&pk, &[0u8; 244], 3, &vec![0u32], &vec![], b"", 0, &None),
        Err(VerifyError::InvalidSignature)
    );
    // Bad public key.
    assert_eq!(
        verify_proof_safe(&[0u8; 10], &[0u8; 244], 3, &vec![], &vec![], b"", 0, &None),
        Err(VerifyError::InvalidKey)
    );
    // Short proof.
    assert_eq!(
        verify_proof_safe(&pk, &[0u8; 100], 3, &vec![], &vec![], b"", 0, &None),
        Err(VerifyError::InvalidSignature)
    );
}

#[test]
fn create_proof_validates_inputs() {
    let mut ent = harvester();
    let messages = msgs(&["a", "b"]);
    // Too few generators.
    assert!(matches!(
        create_proof(
            &pk_for_sk_one(2),
            &[0u8; 112],
            &messages,
            &vec![],
            &None,
            b"s",
            0,
            &None,
            &None,
            &mut ent,
        ),
        Err(VerifyError::InvalidKey)
    ));
    // Undecodable signature.
    assert!(matches!(
        create_proof(
            &pk_for_sk_one(3),
            &[0x01u8; 112],
            &messages,
            &vec![],
            &None,
            b"s",
            0,
            &None,
            &None,
            &mut ent,
        ),
        Err(VerifyError::InvalidSignature)
    ));
}

fn sample_token() -> DelegationToken {
    DelegationToken {
        anchor_id: vec![0xaa; 32],
        mobile_key: vec![0xbb; 96],
        expiration: 1_900_000_000,
        tier: 2,
        scope_mask: 0x0000_00ff,
        max_passages: 12,
    }
}

#[test]
fn delegation_token_serialization() {
    let token = sample_token();
    let bytes = token.to_bytes();
    assert_eq!(bytes.len(), 145);
    assert_eq!(&bytes[0..32], &[0xaa; 32]);
    assert_eq!(&bytes[32..128], &[0xbb; 96]);
    assert_eq!(&bytes[128..136], &1_900_000_000u64.to_le_bytes());
    assert_eq!(bytes[136], 2);
    assert_eq!(&bytes[137..141], &0x0000_00ffu32.to_le_bytes());
    assert_eq!(&bytes[141..145], &12u32.to_le_bytes());
    // Serialization is stable.
    assert_eq!(bytes, token.to_bytes());
}

#[test]
fn delegation_sign_verify_round_trip() {
    let pk = pk_for_sk_one(2);
    let token = sample_token();
    let sig = sign_delegation(&sk_one_bytes(), &pk, &token).unwrap();
    assert_eq!(sig.len(), 112);
    assert_eq!(verify_delegation_signature(&pk, &token, &sig), Ok(true));
    // A changed token field invalidates the signature.
    let mut other = sample_token();
    other.tier = 4;
    assert_eq!(verify_delegation_signature(&pk, &other, &sig), Ok(false));
}

#[test]
fn delegation_rejects_malformed() {
    let pk = pk_for_sk_one(2);
    let token = sample_token();
    let sig = sign_delegation(&sk_one_bytes(), &pk, &token).unwrap();
    // Non-canonical token lengths are rejected, not padded.
    let short = DelegationToken {
        anchor_id: vec![0xaa; 16],
        mobile_key: vec![0xbb; 96],
        expiration: 0,
        tier: 0,
        scope_mask: 0,
        max_passages: 0,
    };
    assert!(matches!(
        sign_delegation(&sk_one_bytes(), &pk, &short),
        Err(VerifyError::InvalidKey)
    ));
    assert_eq!(
        verify_delegation_signature(&pk, &short, &sig),
        Err(VerifyError::InvalidKey)
    );
    // Short keys and signatures.
    assert!(matches!(
        sign_delegation(&sk_one_bytes(), &pk[..100], &token),
        Err(VerifyError::InvalidKey)
    ));
    assert_eq!(
        verify_delegation_signature(&pk, &token, &sig[..100]),
        Err(VerifyError::InvalidSignature)
    );
}
