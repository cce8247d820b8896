use amnesichat::signing::{
    eddsa_public_key, format_signed_blob, sign_data_with_eddsa, split_signed_blob,
    verify_signature_with_eddsa, SignatureError,
};

fn seed() -> Vec<u8> {
    hex::decode("9d61b19deffd5a60ba844af492ec2cc44449c5697b326919703bac031cae7f60").unwrap()
}

#[test]
fn ed25519_public_key_of_rfc8032_seed() {
    assert_eq!(
        hex::encode(&eddsa_public_key(&seed())),
        "d75a980182b10ab7d54bfed3c964073a0ee172f3daa62325af021a68f707511a"
    );
}

#[test]
fn signing_the_empty_message_gives_the_rfc8032_signature() {
    let blob = sign_data_with_eddsa(&[], &seed());
    assert_eq!(
        blob,
        "-----BEGIN SIGNATURE-----\ne5564300c360ac729086e2cc806e828a84877f1eb8e5d974d873e065224901555fb8821590a33bacc61e39701cf9b46bd25bf5f0595bbe24655141438e7a100b\n-----END SIGNATURE-----"
    );
}

#[test]
fn sign_then_verify_succeeds() {
    let pk = eddsa_public_key(&seed());
    let blob = sign_data_with_eddsa(b"ephemeral public key bytes", &seed());
    assert_eq!(verify_signature_with_eddsa(&blob, &pk), Ok(true));
}

#[test]
fn flipping_any_data_byte_fails_verification() {
    let pk = eddsa_public_key(&seed());
    let data = b"0123456789abcdef".to_vec();
    let blob = sign_data_with_eddsa(&data, &seed());
    let (_, sig) = split_signed_blob(&blob).unwrap();
    for i in 0..data.len() {
        let mut d = data.clone();
        d[i] ^= 0x01;
        let tampered = format_signed_blob(&d, &sig);
        assert_eq!(verify_signature_with_eddsa(&tampered, &pk), Err(SignatureError::Rejected));
    }
}

#[test]
fn flipping_any_signature_byte_fails_verification() {
    let pk = eddsa_public_key(&seed());
    let data = b"payload".to_vec();
    let blob = sign_data_with_eddsa(&data, &seed());
    let (_, sig) = split_signed_blob(&blob).unwrap();
    for i in 0..sig.len() {
        let mut s = sig.clone();
        s[i] ^= 0x80;
        let tampered = format_signed_blob(&data, &s);
        assert_eq!(verify_signature_with_eddsa(&tampered, &pk), Err(SignatureError::Rejected));
    }
}

#[test]
fn verification_under_another_key_fails() {
    let other = eddsa_public_key(&[5u8; 32]);
    let blob = sign_data_with_eddsa(b"data", &seed());
    assert_eq!(verify_signature_with_eddsa(&blob, &other), Err(SignatureError::Rejected));
}

#[test]
fn malformed_blobs_are_refused() {
    let pk = eddsa_public_key(&seed());
    assert_eq!(verify_signature_with_eddsa("no markers", &pk), Err(SignatureError::Malformed));
    assert_eq!(
        verify_signature_with_eddsa("zz-----BEGIN SIGNATURE-----\n00\n-----END SIGNATURE-----", &pk),
        Err(SignatureError::Malformed)
    );
    assert_eq!(
        verify_signature_with_eddsa("00-----BEGIN SIGNATURE-----\n0011\n-----END SIGNATURE-----", &pk),
        Err(SignatureError::BadLength)
    );
}

#[test]
fn signed_blob_layout_splits_back() {
    let blob = format_signed_blob(&[1, 2], &[3]);
    assert_eq!(blob, "0102-----BEGIN SIGNATURE-----\n03\n-----END SIGNATURE-----");
    assert_eq!(split_signed_blob(&blob), Some((vec![1, 2], vec![3])));
    assert_eq!(
        split_signed_blob("  0a0b \n-----BEGIN SIGNATURE-----  ff  -----END SIGNATURE-----trailing"),
        Some((vec![0x0a, 0x0b], vec![0xff]))
    );
}

#[test]
fn generated_identity_signs_verifiably() {
    let (seed, public) = amnesichat::signing::generate_eddsa_keys();
    assert_eq!(seed.len(), 32);
    assert_eq!(public, eddsa_public_key(&seed));
    let blob = sign_data_with_eddsa(b"hello", &seed);
    assert_eq!(verify_signature_with_eddsa(&blob, &public), Ok(true));
    let (other, _) = amnesichat::signing::generate_eddsa_keys();
    assert_ne!(seed, other);
}
