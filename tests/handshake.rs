use amnesichat::handshake::{
    choose_kem_role, ciphertext_from_relay, combine_shared_secrets, dh_public_key, dh_secret_text,
    initiator_verdict, kem_first_step, kem_secret_text, responder_message, EcdhExchange,
    HybridHandshake, KemError, KemRole, KemStep,
};
use amnesichat::relay::{all_tagged, first_tagged, tagged_message, EDDSA_PREFIX, KYBER_PREFIX};
use amnesichat::signing::eddsa_public_key;
use amnesichat::trust::{fingerprint_eddsa_public_key, next_unreviewed, TrustSet};
use base64::Engine;
use sha2::Digest;

fn sha256_hex(b: &[u8]) -> String {
    hex::encode(sha2::Sha256::digest(b))
}

#[test]
fn combine_is_sha256_of_the_concatenation() {
    assert_eq!(combine_shared_secrets("a", "b"), sha256_hex(b"ab"));
    assert_eq!(
        combine_shared_secrets("", "abc"),
        "ba7816bf8f01cfea414140de5dae2223b00361a396177a9cb410ff61f20015ad"
    );
}

#[test]
fn combine_is_deterministic_and_order_sensitive() {
    let a = "kem-secret";
    let b = "dh-secret";
    let c = "other-dh-secret";
    assert_eq!(combine_shared_secrets(a, b), combine_shared_secrets(a, b));
    assert_ne!(combine_shared_secrets(a, b), combine_shared_secrets(b, a));
    assert_ne!(combine_shared_secrets(a, b), combine_shared_secrets(a, c));
    assert_eq!(combine_shared_secrets(a, b).len(), 64);
}

#[test]
fn kem_secret_is_hex_sha256() {
    assert_eq!(kem_secret_text(b"abc"), "ba7816bf8f01cfea414140de5dae2223b00361a396177a9cb410ff61f20015ad");
}

#[test]
fn role_comes_from_what_the_relay_held() {
    assert_eq!(choose_kem_role(&None), KemRole::Initiator);
    assert_eq!(choose_kem_role(&Some(String::new())), KemRole::Initiator);
    assert_eq!(choose_kem_role(&Some("00ff".to_string())), KemRole::Responder);
}

#[test]
fn first_kem_step() {
    match kem_first_step(&None, "abcd").unwrap() {
        KemStep::PublishKeyAndWait(m) => assert_eq!(m, "KYBER_PUBLIC_KEY:abcd[END DATA]"),
        other => panic!("unexpected step {:?}", other),
    }
    match kem_first_step(&Some("00ff".to_string()), "abcd").unwrap() {
        KemStep::Encapsulate(k) => assert_eq!(k, vec![0x00, 0xff]),
        other => panic!("unexpected step {:?}", other),
    }
    assert_eq!(kem_first_step(&Some("xyz".to_string()), "abcd").unwrap_err(), KemError::MalformedPeerKey);
}

#[test]
fn x25519_rfc7748_vectors() {
    let alice = hex::decode("77076d0a7318a57d3c16c17251b26645df4c2f87ebc0992ab177fba51db92c2a").unwrap();
    let bob = hex::decode("5dab087e624a8a4b79e17f8b83800ee66f3bb1292618b6fd1c2f8b27ff88e0eb").unwrap();
    let alice_pub = dh_public_key(&alice);
    let bob_pub = dh_public_key(&bob);
    assert_eq!(hex::encode(&alice_pub), "8520f0098930a754748b7ddcb43ef75a0dbf3a0d26381af4eba4a98eaa9b4e6a");
    assert_eq!(hex::encode(&bob_pub), "de9edb7d7b7dc1b4d35b61c2ece435373f8343c85b78674dadfc7e146f882b4f");
    let shared = hex::decode("4a5d9d5ba4ce2de1728e3bf480350f25e07e21c947d19e3376f09b3c1e161742").unwrap();
    let expected = base64::engine::general_purpose::STANDARD.encode(&shared);
    assert_eq!(dh_secret_text(&alice, &bob_pub), expected);
    assert_eq!(dh_secret_text(&bob, &alice_pub), expected);
}

#[test]
fn initiator_accepts_when_one_trusted_key_verifies() {
    assert_eq!(initiator_verdict(&vec![false, true]), Ok(()));
    assert_eq!(initiator_verdict(&vec![false, false]), Err(KemError::SignatureVerificationFailed));
    assert_eq!(initiator_verdict(&vec![]), Err(KemError::SignatureVerificationFailed));
}

#[test]
fn ciphertext_on_the_relay() {
    assert!(ciphertext_from_relay("nothing yet").is_none());
    let msg = responder_message(&[0xc7, 0x01], &[0x51]);
    assert_eq!(
        msg,
        "KYBER_PUBLIC_KEY:CIPHERTEXT:c701-----BEGIN SIGNATURE-----\n51\n-----END SIGNATURE-----[END DATA]"
    );
    assert_eq!(ciphertext_from_relay(&msg), Some(Ok((vec![0xc7, 0x01], vec![0x51]))));
    assert_eq!(
        ciphertext_from_relay("KYBER_PUBLIC_KEY:CIPHERTEXT:garbage[END DATA]"),
        Some(Err(KemError::MalformedCiphertext))
    );
}

struct Party {
    seed: Vec<u8>,
    trust: TrustSet,
    peer_key: Option<Vec<u8>>,
}

impl Party {
    fn new(seed: [u8; 32]) -> Party {
        let pk = eddsa_public_key(&seed);
        let fp = fingerprint_eddsa_public_key(&pk);
        Party { seed: seed.to_vec(), trust: TrustSet::new(&fp, &fp), peer_key: None }
    }

    fn public(&self) -> Vec<u8> {
        eddsa_public_key(&self.seed)
    }

    fn discover(&mut self, relay: &[String]) {
        let announced = all_tagged(&relay.concat(), EDDSA_PREFIX);
        if let Some((_, key, fp)) = next_unreviewed(&self.trust, &announced, 0, 32) {
            // the user confirms the fingerprint
            self.trust.record_decision(&fp, true);
            self.peer_key = Some(key);
        }
    }
}

#[test]
fn two_parties_converge_on_one_session_secret() {
    let mut relay: Vec<String> = Vec::new();
    let mut alice = Party::new([1u8; 32]);
    let mut bob = Party::new([2u8; 32]);
    relay.push(tagged_message(EDDSA_PREFIX, &hex::encode(alice.public())));
    relay.push(tagged_message(EDDSA_PREFIX, &hex::encode(bob.public())));
    alice.discover(&relay);
    bob.discover(&relay);
    assert_eq!(alice.peer_key, Some(bob.public()));
    assert_eq!(bob.peer_key, Some(alice.public()));

    // Encapsulation roles: Alice finds no key and publishes hers; Bob finds it.
    let alice_kem_public = [0xa1u8; 8];
    let found = first_tagged(&relay.concat(), KYBER_PREFIX);
    match kem_first_step(&found, &hex::encode(alice_kem_public)).unwrap() {
        KemStep::PublishKeyAndWait(m) => relay.push(m),
        other => panic!("unexpected step {:?}", other),
    }
    let found = first_tagged(&relay.concat(), KYBER_PREFIX);
    let encapsulated_against = match kem_first_step(&found, "bbbb").unwrap() {
        KemStep::Encapsulate(k) => k,
        other => panic!("unexpected step {:?}", other),
    };
    assert_eq!(encapsulated_against, alice_kem_public.to_vec());
    // Encapsulation itself, fixed: ciphertext, signature and shared secret.
    let (ct, sig, shared) = (vec![0xc7u8; 16], vec![0x51u8; 8], vec![0x55u8; 32]);
    relay.push(responder_message(&ct, &sig));
    let (got_ct, got_sig) = ciphertext_from_relay(&relay.concat()).unwrap().unwrap();
    assert_eq!((got_ct, got_sig), (ct, sig));
    assert_eq!(initiator_verdict(&vec![true]), Ok(()));
    let alice_kem = kem_secret_text(&shared);
    let bob_kem = kem_secret_text(&shared);

    // Signed X25519 exchange.
    let mut alice_state = HybridHandshake::new();
    let mut bob_state = HybridHandshake::new();
    alice_state.record_kem_secret(alice_kem.clone());
    bob_state.record_kem_secret(bob_kem.clone());
    let a = EcdhExchange::start(vec![3u8; 32], &alice.seed, alice.peer_key.clone().unwrap());
    let b = EcdhExchange::start(vec![4u8; 32], &bob.seed, bob.peer_key.clone().unwrap());
    relay.push(a.announcement());
    assert!(a.shared_secret_from(&relay.concat()).is_none());
    assert!(!alice_state.record_dh_from_relay(&a, &relay.concat()));
    assert!(alice_state.session_secret().is_none());
    relay.push(b.announcement());
    let alice_dh = a.shared_secret_from(&relay.concat()).unwrap();
    let bob_dh = b.shared_secret_from(&relay.concat()).unwrap();
    assert_eq!(alice_dh, bob_dh);
    assert!(alice_state.record_dh_from_relay(&a, &relay.concat()));
    assert!(bob_state.record_dh_from_relay(&b, &relay.concat()));

    let alice_session = alice_state.session_secret().unwrap();
    let bob_session = bob_state.session_secret().unwrap();
    assert_eq!(alice_session, bob_session);
    assert_eq!(alice_session, combine_shared_secrets(&alice_kem, &alice_dh));
    assert_eq!(alice_session.len(), 64);
}

#[test]
fn tampered_signed_key_is_rejected_and_the_exchange_waits() {
    let alice_seed = [1u8; 32];
    let bob_seed = [2u8; 32];
    let a = EcdhExchange::start(vec![3u8; 32], &alice_seed, eddsa_public_key(&bob_seed));
    let b = EcdhExchange::start(vec![4u8; 32], &bob_seed, eddsa_public_key(&alice_seed));
    let genuine = b.announcement();
    // flip one bit of the first hex digit of Bob's key
    let mut bytes = genuine.clone().into_bytes();
    let at = "ECDH_PUBLIC_KEY:".len();
    bytes[at] = if bytes[at] == b'0' { b'1' } else { b'0' };
    let tampered = String::from_utf8(bytes).unwrap();
    assert_ne!(tampered, genuine);
    let body = format!("{}{}", a.announcement(), tampered);
    assert_eq!(a.find_peer_key(&body), None);
    assert_eq!(a.shared_secret_from(&body), None);
    let mut state = HybridHandshake::new();
    state.record_kem_secret("kem".to_string());
    assert!(!state.record_dh_from_relay(&a, &body));
    assert!(state.session_secret().is_none());
    // the genuine message, once it comes, completes the exchange
    let body = format!("{}{}{}", a.announcement(), tampered, genuine);
    assert_eq!(a.find_peer_key(&body), Some(dh_public_key(&[4u8; 32])));
    // a ciphertext that no trusted key verifies does not complete the encapsulation
    assert_eq!(initiator_verdict(&vec![false]), Err(KemError::SignatureVerificationFailed));
}
