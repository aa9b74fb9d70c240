//! Signature core: sign/verify round trips, tampering, key validation,
//! PUF signature checking and linkage tags.
use bls12_381::{G1Projective, G2Affine, Scalar};
use group::Curve;
use multipass_core::generate_linkage_tag;
use multipass_core::hash_to_scalar;
use multipass_core::periwinkle::verify_puf_signature;
use multipass_core::periwinkle::EntropyHarvester;
use multipass_core::sign;
use multipass_core::verify_signature_safe;
use multipass_core::Fr;
use multipass_core::VerifyError;

fn harvester() -> EntropyHarvester {
    EntropyHarvester::from_seed_material(vec![7u8; 32], vec![9u8; 32], vec![1u8; 232]).unwrap()
}

fn sk_one_bytes() -> Vec<u8> {
    let mut sk = vec![0u8; 32];
    sk[0] = 1;
    sk
}

/// A public key for secret 1 with `n` G1 generators.
fn pk_for_sk_one(n: u64) -> Vec<u8> {
    let mut pk = Vec::new();
    pk.extend_from_slice(&G2Affine::generator().to_compressed());
    for i in 0..n {
        let h = (G1Projective::generator() * Scalar::from(i + 2)).to_affine();
        pk.extend_from_slice(&h.to_compressed());
    }
    pk
}

fn msgs(items: &[&str]) -> Vec<Vec<u8>> {
    items.iter().map(|m| m.as_bytes().to_vec()).collect()
}

#[test]
fn sign_verify_smoke() {
    let mut ent = harvester();
    let pk = pk_for_sk_one(3);
    let messages = msgs(&["alice", "42"]);
    let sig = sign(&sk_one_bytes(), &pk, &messages, &mut ent).unwrap();
    assert_eq!(sig.len(), 112);
    assert_eq!(verify_signature_safe(&pk, &sig, &messages), Ok(true));
}

#[test]
fn sign_verify_flipped_byte_rejected() {
    let mut ent = harvester();
    let pk = pk_for_sk_one(3);
    let messages = msgs(&["alice", "42"]);
    let sig = sign(&sk_one_bytes(), &pk, &messages, &mut ent).unwrap();
    let mut bad = sig.clone();
    bad[60] ^= 0x01;
    let r = verify_signature_safe(&pk, &bad, &messages);
    assert!(r == Ok(false) || r == Err(VerifyError::InvalidSignature));
}

#[test]
fn verify_wrong_messages_fails() {
    let mut ent = harvester();
    let pk = pk_for_sk_one(3);
    let messages = msgs(&["alice", "42"]);
    let sig = sign(&sk_one_bytes(), &pk, &messages, &mut ent).unwrap();
    let other = msgs(&["alice", "43"]);
    assert_eq!(verify_signature_safe(&pk, &sig, &other), Ok(false));
}

#[test]
fn sign_rejects_bad_keys() {
    let mut ent = harvester();
    let messages = msgs(&["alice"]);
    // Wrong secret length.
    assert!(matches!(
        sign(&[1u8; 31], &pk_for_sk_one(2), &messages, &mut ent),
        Err(VerifyError::InvalidKey)
    ));
    // Non-canonical secret (all 0xff is far above the field order).
    assert!(matches!(
        sign(&[0xffu8; 32], &pk_for_sk_one(2), &messages, &mut ent),
        Err(VerifyError::InvalidKey)
    ));
    // Too few generators for one message.
    assert!(matches!(
        sign(&sk_one_bytes(), &pk_for_sk_one(1), &messages, &mut ent),
        Err(VerifyError::InvalidKey)
    ));
    // Truncated key.
    assert!(matches!(
        sign(&sk_one_bytes(), &[0u8; 40], &messages, &mut ent),
        Err(VerifyError::InvalidKey)
    ));
}

#[test]
fn verify_rejects_malformed_inputs() {
    let pk = pk_for_sk_one(2);
    let messages = msgs(&["alice"]);
    assert_eq!(
        verify_signature_safe(&[0u8; 40], &[0u8; 112], &messages),
        Err(VerifyError::InvalidKey)
    );
    assert_eq!(
        verify_signature_safe(&pk, &[0u8; 111], &messages),
        Err(VerifyError::InvalidSignature)
    );
    // A signature of garbage bytes: the point does not decode.
    assert_eq!(
        verify_signature_safe(&pk, &[0x01u8; 112], &messages),
        Err(VerifyError::InvalidSignature)
    );
}

#[test]
fn puf_signature_round_trip() {
    let mut ent = harvester();
    let pk = pk_for_sk_one(2);
    let challenge = b"puf-challenge".to_vec();
    let sig = sign(&sk_one_bytes(), &pk, &vec![challenge.clone()], &mut ent).unwrap();
    assert!(verify_puf_signature(&pk, &challenge, &sig));
    assert!(!verify_puf_signature(&pk, b"other-challenge", &sig));
}

#[test]
fn linkage_tag_stability() {
    let sk1 = hash_to_scalar(b"holder one");
    let sk2 = hash_to_scalar(b"holder two");
    let t_a1 = generate_linkage_tag(&sk1, b"site-a").to_bytes();
    let t_a1_again = generate_linkage_tag(&sk1, b"site-a").to_bytes();
    let t_b1 = generate_linkage_tag(&sk1, b"site-b").to_bytes();
    let t_a2 = generate_linkage_tag(&sk2, b"site-a").to_bytes();
    assert_eq!(t_a1.len(), 48);
    // Same holder, same site: identical 48-byte tag.
    assert_eq!(t_a1, t_a1_again);
    // Same holder, different site: different tag.
    assert_ne!(t_a1, t_b1);
    // Different holder, same site: different tag.
    assert_ne!(t_a1, t_a2);
}

#[test]
fn hash_to_scalar_known_vector() {
    // SHA-256 of the empty string, which is a canonical scalar encoding.
    let expected: [u8; 32] = [
        0xe3, 0xb0, 0xc4, 0x42, 0x98, 0xfc, 0x1c, 0x14, 0x9a, 0xfb, 0xf4, 0xc8, 0x99, 0x6f, 0xb9,
        0x24, 0x27, 0xae, 0x41, 0xe4, 0x64, 0x9b, 0x93, 0x4c, 0xa4, 0x95, 0x99, 0x1b, 0x78, 0x52,
        0xb8, 0x55,
    ];
    assert_eq!(hash_to_scalar(b"").to_bytes(), expected);
}

#[test]
fn fr_from_bytes_checks_canonical() {
    assert!(Fr::from_bytes(&[0u8; 32]).is_some());
    assert!(Fr::from_bytes(&[0xffu8; 32]).is_none());
}
