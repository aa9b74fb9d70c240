//! Shamir sharing and the k-anonymity buffer engine.
use multipass_core::hash_to_scalar;
use multipass_core::miner::get_dynamic_threshold;
use multipass_core::miner::AnonymityBuffer;
use multipass_core::miner::AnonymityEngine;
use multipass_core::reconstruct_secret;
use multipass_core::reconstruct_secret_safe;
use multipass_core::split_secret;
use multipass_core::split_secret_safe;
use multipass_core::Fr;
use multipass_core::VerifyError;

#[test]
fn shamir_three_of_five() {
    let secret = hash_to_scalar(b"secret");
    let shares = split_secret(&secret, 5, 3);
    assert_eq!(shares.len(), 5);
    for (i, s) in shares.iter().enumerate() {
        assert_eq!(s.0 as usize, i + 1);
    }
    // Any three shares reconstruct the original.
    for subset in [[0usize, 1, 2], [2, 3, 4], [0, 2, 4], [1, 3, 4]] {
        let picked: Vec<(u8, Fr)> = subset.iter().map(|&i| shares[i]).collect();
        let got = reconstruct_secret(&picked).unwrap();
        assert_eq!(got.to_bytes(), secret.to_bytes());
    }
    // Two shares do not.
    let two: Vec<(u8, Fr)> = vec![shares[0], shares[1]];
    let partial = reconstruct_secret(&two).unwrap();
    assert_ne!(partial.to_bytes(), secret.to_bytes());
}

#[test]
fn shamir_single_threshold() {
    let secret = hash_to_scalar(b"constant");
    let shares = split_secret(&secret, 4, 1);
    for s in &shares {
        let got = reconstruct_secret(&vec![*s]).unwrap();
        assert_eq!(got.to_bytes(), secret.to_bytes());
    }
}

#[test]
fn shamir_two_of_four() {
    let secret = hash_to_scalar(b"pair secret");
    let shares = split_secret(&secret, 4, 2);
    for pair in [[0usize, 1], [1, 3], [0, 3], [2, 3]] {
        let picked: Vec<(u8, Fr)> = pair.iter().map(|&i| shares[i]).collect();
        let got = reconstruct_secret(&picked).unwrap();
        assert_eq!(got.to_bytes(), secret.to_bytes());
    }
}

#[test]
fn shamir_duplicate_and_empty_fail() {
    let secret = hash_to_scalar(b"secret");
    let shares = split_secret(&secret, 3, 2);
    let dup: Vec<(u8, Fr)> = vec![shares[0], shares[0]];
    assert!(matches!(reconstruct_secret(&dup), Err(VerifyError::CryptoError)));
    assert!(matches!(
        reconstruct_secret(&Vec::new()),
        Err(VerifyError::CryptoError)
    ));
}

#[test]
fn shamir_wire_round_trip() {
    let secret = hash_to_scalar(b"wire secret").to_bytes().to_vec();
    let encoded = split_secret_safe(secret.clone(), 3, 5).unwrap();
    assert_eq!(encoded.len(), 5);
    for (i, share) in encoded.iter().enumerate() {
        assert_eq!(share.len(), 33);
        assert_eq!(share[0] as usize, i + 1);
    }
    let picked = vec![encoded[0].clone(), encoded[2].clone(), encoded[4].clone()];
    assert_eq!(reconstruct_secret_safe(picked).unwrap(), secret);
}

#[test]
fn shamir_safe_rejects_bad_inputs() {
    assert!(matches!(
        split_secret_safe(vec![0u8; 31], 2, 3),
        Err(VerifyError::InvalidKey)
    ));
    assert!(matches!(
        split_secret_safe(vec![0xffu8; 32], 2, 3),
        Err(VerifyError::InvalidKey)
    ));
    assert!(matches!(
        reconstruct_secret_safe(vec![vec![0u8; 32]]),
        Err(VerifyError::InvalidKey)
    ));
    assert!(matches!(
        reconstruct_secret_safe(Vec::new()),
        Err(VerifyError::CryptoError)
    ));
}

#[test]
fn dynamic_thresholds() {
    assert_eq!(get_dynamic_threshold(&"HIV_STATUS".to_string()), 30);
    assert_eq!(get_dynamic_threshold(&"POLITICAL_AFFILIATION".to_string()), 30);
    assert_eq!(get_dynamic_threshold(&"AGE_BRACKET".to_string()), 20);
    assert_eq!(get_dynamic_threshold(&"ZIP_CODE".to_string()), 20);
    assert_eq!(get_dynamic_threshold(&"GENDER".to_string()), 15);
}

#[test]
fn k_anonymity_release_at_fifteen() {
    let mut engine = AnonymityEngine::new();
    for i in 0..14u32 {
        let identity = format!("person-{}", i);
        let r = engine.submit_macro_data(
            "GENDER".to_string(),
            (1.0f64 + i as f64).to_bits(),
            identity.as_bytes(),
        );
        assert!(r.is_none());
    }
    let released = engine
        .submit_macro_data("GENDER".to_string(), 99.0f64.to_bits(), b"person-14")
        .expect("the fifteenth distinct identity releases the batch");
    assert_eq!(released.len(), 15);
    for p in &released {
        assert!(p.identity_hash.is_empty());
        assert_eq!(p.timestamp % 3600, 0);
    }
    // FIFO: the values come back in submission order.
    assert_eq!(released[0].value_bits, 1.0f64.to_bits());
    assert_eq!(released[13].value_bits, 14.0f64.to_bits());
    assert_eq!(released[14].value_bits, 99.0f64.to_bits());
    // The buffer was drained: the same identities start counting afresh.
    let again = engine.submit_macro_data("GENDER".to_string(), 1.0f64.to_bits(), b"person-0");
    assert!(again.is_none());
}

#[test]
fn k_anonymity_counts_distinct_identities_only() {
    let mut engine = AnonymityEngine::new();
    // Twenty submissions from a single identity never release.
    for i in 0..20u32 {
        let r = engine.submit_macro_data(
            "GENDER".to_string(),
            (i as f64).to_bits(),
            b"same-person",
        );
        assert!(r.is_none());
    }
    let stats = engine.get_buffer_stats();
    assert_eq!(stats.len(), 1);
    assert_eq!(stats[0].0, "GENDER".to_string());
    assert_eq!(stats[0].1, 1);
}

#[test]
fn sensitive_category_needs_thirty() {
    let mut engine = AnonymityEngine::new();
    for i in 0..29u32 {
        let identity = format!("p{}", i);
        let r = engine.submit_macro_data(
            "HIV_STATUS".to_string(),
            0.5f64.to_bits(),
            identity.as_bytes(),
        );
        assert!(r.is_none());
    }
    let released = engine.submit_macro_data("HIV_STATUS".to_string(), 0.5f64.to_bits(), b"p29");
    assert_eq!(released.unwrap().len(), 30);
}

#[test]
fn submissions_leave_other_categories_alone() {
    let mut engine = AnonymityEngine::new();
    for i in 0..5u32 {
        let id = format!("g{}", i);
        let _ = engine.submit_macro_data("GENDER".to_string(), 1.0f64.to_bits(), id.as_bytes());
    }
    for i in 0..3u32 {
        let id = format!("a{}", i);
        let _ =
            engine.submit_macro_data("AGE_BRACKET".to_string(), 2.0f64.to_bits(), id.as_bytes());
    }
    let stats = engine.get_buffer_stats();
    assert_eq!(stats.len(), 2);
    for (name, count) in stats {
        if name == "GENDER" {
            assert_eq!(count, 5);
        } else {
            assert_eq!(name, "AGE_BRACKET".to_string());
            assert_eq!(count, 3);
        }
    }
}

#[test]
fn attribute_safety_limit() {
    let three: Vec<String> = vec!["a".to_string(), "b".to_string(), "c".to_string()];
    let four: Vec<String> = vec![
        "a".to_string(),
        "b".to_string(),
        "c".to_string(),
        "d".to_string(),
    ];
    assert!(AnonymityBuffer::check_attribute_safety(&three));
    assert!(!AnonymityBuffer::check_attribute_safety(&four));
    let engine = AnonymityEngine::new();
    assert!(engine.check_attribute_safety(&three));
    assert!(!engine.check_attribute_safety(&four));
}
