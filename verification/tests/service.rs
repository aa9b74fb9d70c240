//! Entropy service, attestation decision logic, CBOR domain tags, lease
//! expiration, vault keys, and the household-isolation blinding factor.
use multipass_core::attestation::attestation_decision;
use multipass_core::attestation::contains_bytes;
use multipass_core::attestation::is_android_attestation_oid;
use multipass_core::attestation::is_trusted_root_issuer;
use multipass_core::cbor::SpookyCBOR;
use multipass_core::lease::LeaseRequest;
use multipass_core::lease::MultipassUtils;
use multipass_core::miner::generate_multipass_blinding_factor;
use multipass_core::miner::parse_vault_key;
use multipass_core::miner::vault_key_matches;
use multipass_core::miner::verify_non_correlatability;
use multipass_core::periwinkle::get_entropy;
use multipass_core::periwinkle::get_hardware_secret;
use multipass_core::periwinkle::get_level4_entropy;
use multipass_core::periwinkle::EntropyHarvester;

fn harvester() -> EntropyHarvester {
    EntropyHarvester::from_seed_material(vec![7u8; 32], vec![9u8; 32], vec![1u8; 232]).unwrap()
}

#[test]
fn entropy_draws() {
    let mut h = harvester();
    let a = get_entropy(&mut h);
    let b = get_entropy(&mut h);
    assert_eq!(a.len(), 64);
    assert_eq!(b.len(), 64);
    assert_ne!(a, b);
}

#[test]
fn hardware_secret_is_context_bound() {
    let mut h = harvester();
    let s1 = get_hardware_secret(&mut h, b"LinkageTag");
    let s2 = get_hardware_secret(&mut h, b"OtherContext");
    assert_eq!(s1.len(), 32);
    assert_eq!(s2.len(), 32);
    assert_ne!(s1, s2);
}

#[test]
fn level4_entropy_shapes() {
    let mut h = harvester();
    let (claim, entropy) = get_level4_entropy(&mut h);
    assert_eq!(claim.len(), 32);
    assert_eq!(entropy.len(), 64);
}

#[test]
fn harvester_seed_material_validated() {
    assert!(EntropyHarvester::from_seed_material(vec![0; 31], vec![0; 32], vec![0; 232]).is_none());
    assert!(EntropyHarvester::from_seed_material(vec![0; 32], vec![0; 32], vec![0; 231]).is_none());
    assert!(EntropyHarvester::from_seed_material(vec![0; 32], vec![0; 32], vec![0; 232]).is_some());
    let h = EntropyHarvester::from_software_seed(123456789, 4242);
    let mut h = h;
    assert_eq!(get_entropy(&mut h).len(), 64);
}

#[test]
fn attestation_decision_logic() {
    assert!(is_android_attestation_oid(b"1.3.6.1.4.1.11129.2.1.17"));
    assert!(!is_android_attestation_oid(b"1.3.6.1.4.1.11129.2.1.18"));
    assert!(is_trusted_root_issuer(b"CN=Google Hardware Attestation"));
    assert!(is_trusted_root_issuer(b"O=Apple Inc."));
    assert!(!is_trusted_root_issuer(b"CN=Someone Else"));
    assert!(contains_bytes(b"hello world", b"lo wo"));
    assert!(!contains_bytes(b"hello", b"world"));

    let spki = vec![1u8, 2, 3];
    assert_eq!(
        attestation_decision(2, true, true, b"CN=Google Root", spki.clone()),
        Some(spki.clone())
    );
    assert_eq!(attestation_decision(0, true, true, b"CN=Google Root", spki.clone()), None);
    assert_eq!(attestation_decision(2, false, true, b"CN=Google Root", spki.clone()), None);
    assert_eq!(attestation_decision(2, true, false, b"CN=Google Root", spki.clone()), None);
    assert_eq!(attestation_decision(2, true, true, b"CN=Unknown Root", spki), None);
}

#[test]
fn mdoc_domain_tag() {
    let tag = SpookyCBOR::mdoc_domain_tag("org.iso.18013.5.1.mDL");
    assert_eq!(tag, "SpookyID.mdoc.org.iso.18013.5.1.mDL.v1".to_string());
}

#[test]
fn lease_expiration() {
    let r = MultipassUtils::calculate_expiration(3600);
    assert!(r >= 3600);
    assert_eq!(MultipassUtils::calculate_expiration(u64::MAX), u64::MAX);
    let req = LeaseRequest {
        anchor_id: "anchor".to_string(),
        mobile_pk: vec![1, 2, 3],
        tier: 1,
        expiration: r,
    };
    assert_eq!(req.tier, 1);
}

#[test]
fn vault_key_parsing() {
    let (cat, ts) = parse_vault_key(b"GENDER:3600").unwrap();
    assert_eq!(cat, b"GENDER".to_vec());
    assert_eq!(ts, 3600);
    assert!(parse_vault_key(b"no-colon-here").is_none());
    // An unparsable timestamp reads as zero.
    assert_eq!(parse_vault_key(b"GENDER:12ab").unwrap().1, 0);
    assert_eq!(parse_vault_key(b"GENDER:").unwrap().1, 0);
    assert_eq!(parse_vault_key(b"GENDER:99999999999999999999999").unwrap().1, 0);
    // The first colon splits; later ones belong to the timestamp text.
    assert_eq!(parse_vault_key(b"A:B:1").unwrap().0, b"A".to_vec());

    assert!(vault_key_matches(b"GENDER:3600", b"GENDER", 0, 7200));
    assert!(!vault_key_matches(b"GENDER:3600", b"GENDER", 7200, 9000));
    assert!(!vault_key_matches(b"GENDER:3600", b"AGE_BRACKET", 0, 7200));
    assert!(!vault_key_matches(b"no-colon", b"GENDER", 0, u64::MAX));
}

#[test]
fn blinding_factor_shape_and_hamming() {
    let f1 = generate_multipass_blinding_factor(b"multipass-1", b"anchor", 1);
    assert_eq!(f1.len(), 32);

    // Hand-picked Hamming distances pin the band down exactly.
    let zero = [0u8; 32];
    let mut half = [0u8; 32];
    for i in 0..16 {
        half[i] = 0xff;
    }
    // 128 bits apart: inside the band.
    assert!(verify_non_correlatability(&zero, &half));
    // Identical: far below.
    assert!(!verify_non_correlatability(&zero, &zero));
    // All 256 bits apart: far above.
    assert!(!verify_non_correlatability(&zero, &[0xffu8; 32]));
    // 100 bits: lower edge, inclusive.
    let mut edge = [0u8; 32];
    for i in 0..12 {
        edge[i] = 0xff;
    }
    edge[12] = 0x0f;
    assert!(verify_non_correlatability(&zero, &edge));
    // 99 bits: just outside.
    let mut low = [0u8; 32];
    for i in 0..12 {
        low[i] = 0xff;
    }
    low[12] = 0x07;
    assert!(!verify_non_correlatability(&zero, &low));
}
