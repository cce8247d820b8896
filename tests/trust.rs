use amnesichat::relay::{all_tagged, RetryPolicy, PollAction, PollOutcome, DILITHIUM_PREFIX};
use amnesichat::trust::{
    auto_confirms, fingerprint_dilithium_public_key, fingerprint_eddsa_public_key, next_unreviewed,
    parse_confirmation_reply, TrustSet,
};

#[test]
fn fingerprint_is_hex_sha256_of_key_bytes() {
    assert_eq!(
        fingerprint_dilithium_public_key(&[]),
        "e3b0c44298fc1c149afbf4c8996fb92427ae41e4649b934ca495991b7852b855"
    );
    assert_eq!(
        fingerprint_eddsa_public_key(b"abc"),
        "ba7816bf8f01cfea414140de5dae2223b00361a396177a9cb410ff61f20015ad"
    );
}

#[test]
fn fingerprints_are_deterministic_and_distinct_on_a_sample() {
    let keys: Vec<Vec<u8>> = (0u8..64).map(|i| vec![i; 32]).chain((0u8..16).map(|i| vec![i; 1])).collect();
    let fps: Vec<String> = keys.iter().map(|k| fingerprint_dilithium_public_key(k)).collect();
    for (k, fp) in keys.iter().zip(fps.iter()) {
        assert_eq!(&fingerprint_dilithium_public_key(k), fp);
        assert_eq!(&fingerprint_eddsa_public_key(k), fp);
        assert_eq!(fp.len(), 64);
    }
    for i in 0..fps.len() {
        for j in 0..fps.len() {
            if i != j {
                assert_ne!(fps[i], fps[j]);
            }
        }
    }
}

#[test]
fn trust_set_starts_with_own_fingerprints() {
    let t = TrustSet::new("own-pq", "own-classical");
    assert!(t.contains("own-pq"));
    assert!(t.contains("own-classical"));
    assert!(!t.contains("peer"));
    assert_eq!(t.len(), 2);
    let same = TrustSet::new("x", "x");
    assert_eq!(same.len(), 1);
}

#[test]
fn trust_set_grows_only_by_confirmed_fingerprints() {
    let mut t = TrustSet::new("a", "b");
    t.record_decision("peer-1", false);
    assert!(!t.contains("peer-1"));
    assert_eq!(t.len(), 2);
    t.record_decision("peer-1", true);
    assert!(t.contains("peer-1"));
    assert_eq!(t.len(), 3);
    assert!(!t.insert("peer-1"));
    assert_eq!(t.len(), 3);
    assert!(t.insert("peer-2"));
    assert_eq!(t.len(), 4);
}

#[test]
fn own_fingerprint_is_confirmed_without_asking() {
    assert!(auto_confirms("abc", "abc"));
    assert!(!auto_confirms("abc", "abd"));
}

#[test]
fn confirmation_replies() {
    assert_eq!(parse_confirmation_reply("yes"), Some(true));
    assert_eq!(parse_confirmation_reply("  YES \n"), Some(true));
    assert_eq!(parse_confirmation_reply("No"), Some(false));
    assert_eq!(parse_confirmation_reply("y"), None);
    assert_eq!(parse_confirmation_reply(""), None);
}

#[test]
fn next_unreviewed_skips_trusted_malformed_and_wrong_length_keys() {
    let own = vec![1u8; 4];
    let own_fp = fingerprint_dilithium_public_key(&own);
    let t = TrustSet::new(&own_fp, "classical");
    let announced = vec![
        hex::encode(&own),
        "zz".to_string(),
        hex::encode([2u8; 3]),
        hex::encode([3u8; 4]),
        hex::encode([4u8; 4]),
    ];
    let (i, key, fp) = next_unreviewed(&t, &announced, 0, 4).unwrap();
    assert_eq!(i, 3);
    assert_eq!(key, vec![3u8; 4]);
    assert_eq!(fp, fingerprint_dilithium_public_key(&[3u8; 4]));
    let (j, key2, _) = next_unreviewed(&t, &announced, i + 1, 4).unwrap();
    assert_eq!(j, 4);
    assert_eq!(key2, vec![4u8; 4]);
    assert_eq!(next_unreviewed(&t, &announced, 5, 4), None);
}

#[test]
fn waiting_for_a_peer_key_that_never_appears_leaves_trust_unchanged() {
    let own = vec![9u8; 8];
    let own_fp = fingerprint_dilithium_public_key(&own);
    let mut t = TrustSet::new(&own_fp, "classical");
    // the relay only ever echoes our own announcement
    let body = format!("{}{}[END DATA]", DILITHIUM_PREFIX, hex::encode(&own));
    let policy = RetryPolicy::unbounded();
    let mut failures = 0u64;
    for _ in 0..1000 {
        let announced = all_tagged(&body, DILITHIUM_PREFIX);
        let found = next_unreviewed(&t, &announced, 0, 8);
        if let Some((_, _, ref fp)) = found {
            t.record_decision(fp, true);
        }
        let outcome = if found.is_some() { PollOutcome::Found } else { PollOutcome::NothingFound };
        let (count, action) = policy.next_step(failures, outcome);
        assert_eq!(action, PollAction::RetryAfterDelay);
        failures = count;
    }
    assert_eq!(failures, 1000);
    assert_eq!(t.len(), 2);
    assert!(t.contains(&own_fp));
    assert!(t.contains("classical"));
}
