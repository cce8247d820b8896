use amnesichat::encryption::{
    decrypt_message, derive_key as room_derive_key, encrypt_message, is_message_encrypted,
    seal_with_room_password,
};
use amnesichat::envelope::{format_envelope, parse_envelope_text, CodecError};
use amnesichat::secret_codec::{decrypt_data, derive_key, encrypt_data, seal_with_password};

#[test]
fn encrypt_then_decrypt_gives_back_plaintext() {
    let env = encrypt_data("hello, world", "correct horse").unwrap();
    assert_eq!(decrypt_data(&env, "correct horse").unwrap(), "hello, world");
}

#[test]
fn round_trip_of_empty_and_unicode_text() {
    for text in ["", "grüße, 世界 🙂", "line one\nline two"] {
        let env = encrypt_data(text, "pw").unwrap();
        assert_eq!(decrypt_data(&env, "pw").unwrap(), text);
    }
}

#[test]
fn wrong_password_fails_authentication() {
    let env = encrypt_data("secret plans", "password-one").unwrap();
    assert_eq!(decrypt_data(&env, "password-two"), Err(CodecError::Authentication));
}

#[test]
fn zero_salt_zero_nonce_garbage_ciphertext_fails_authentication() {
    let env = format!("{}:{}:{}", "00".repeat(16), "00".repeat(12), "deadbeef");
    assert_eq!(decrypt_data(&env, "anything"), Err(CodecError::Authentication));
    let long = format!("{}:{}:{}", "00".repeat(16), "00".repeat(12), "ab".repeat(40));
    assert_eq!(decrypt_data(&long, "anything"), Err(CodecError::Authentication));
}

#[test]
fn envelope_with_wrong_field_count_is_a_format_error() {
    assert_eq!(decrypt_data("abcd:ef", "pw"), Err(CodecError::Format));
    let four = format!("{}:{}:00:00", "00".repeat(16), "00".repeat(12));
    assert_eq!(decrypt_data(&four, "pw"), Err(CodecError::Format));
    assert_eq!(decrypt_data("", "pw"), Err(CodecError::Format));
}

#[test]
fn envelope_with_bad_hex_or_sizes_is_a_format_error() {
    let bad_hex = format!("{}:{}:zz", "00".repeat(16), "00".repeat(12));
    assert_eq!(decrypt_data(&bad_hex, "pw"), Err(CodecError::Format));
    let short_salt = format!("{}:{}:00", "00".repeat(15), "00".repeat(12));
    assert_eq!(decrypt_data(&short_salt, "pw"), Err(CodecError::Format));
    let long_nonce = format!("{}:{}:00", "00".repeat(16), "00".repeat(13));
    assert_eq!(decrypt_data(&long_nonce, "pw"), Err(CodecError::Format));
}

#[test]
fn tampered_ciphertext_fails_authentication() {
    let env = encrypt_data("attack at dawn", "pw").unwrap();
    let (salt, nonce, mut ct) = parse_envelope_text(&env).unwrap();
    ct[0] ^= 1;
    let tampered = format_envelope(&salt, &nonce, &ct);
    assert_eq!(decrypt_data(&tampered, "pw"), Err(CodecError::Authentication));
}

#[test]
fn sealing_with_fixed_salt_and_nonce_lays_out_the_envelope() {
    let salt = [7u8; 16];
    let nonce = [9u8; 12];
    let env = seal_with_password("abc", "pw", &salt, &nonce).unwrap();
    let parts: Vec<&str> = env.split(':').collect();
    assert_eq!(parts.len(), 3);
    assert_eq!(parts[0], "07".repeat(16));
    assert_eq!(parts[1], "09".repeat(12));
    // three bytes of ciphertext and a 16-byte tag, in hex
    assert_eq!(parts[2].len(), 2 * (3 + 16));
    assert_ne!(parts[2], hex::encode(b"abc"));
    assert_eq!(seal_with_password("abc", "pw", &salt, &nonce).unwrap(), env);
    assert_eq!(decrypt_data(&env, "pw").unwrap(), "abc");
}

#[test]
fn fresh_salt_and_nonce_for_each_encryption() {
    let a = encrypt_data("same", "pw").unwrap();
    let b = encrypt_data("same", "pw").unwrap();
    assert_ne!(a, b);
}

#[test]
fn argon2_key_is_32_bytes_and_depends_on_password_and_salt() {
    let salt = [1u8; 16];
    let k1 = derive_key("password", &salt).unwrap();
    let k2 = derive_key("password", &salt).unwrap();
    let k3 = derive_key("Password", &salt).unwrap();
    let k4 = derive_key("password", &[2u8; 16]).unwrap();
    assert_eq!(k1.len(), 32);
    assert_eq!(k1, k2);
    assert_ne!(k1, k3);
    assert_ne!(k1, k4);
    assert_ne!(&k1[..8], b"password");
}

#[test]
fn room_key_is_sha256_of_password_then_salt() {
    assert_eq!(
        hex::encode(&room_derive_key("abc", &[])),
        "ba7816bf8f01cfea414140de5dae2223b00361a396177a9cb410ff61f20015ad"
    );
    assert_eq!(
        hex::encode(&room_derive_key("ab", b"c")),
        "ba7816bf8f01cfea414140de5dae2223b00361a396177a9cb410ff61f20015ad"
    );
}

#[test]
fn room_codec_round_trip_and_wrong_password() {
    let env = encrypt_message("group hello", "room-password").unwrap();
    assert_eq!(decrypt_message(&env, "room-password").unwrap(), "group hello");
    assert_eq!(decrypt_message(&env, "other-password"), Err(CodecError::Authentication));
    assert_eq!(decrypt_message("no colons", "room-password"), Err(CodecError::Format));
}

#[test]
fn room_codec_with_fixed_salt_and_nonce_is_deterministic() {
    let salt = [3u8; 16];
    let nonce = [4u8; 12];
    let a = seal_with_room_password("x", "pw", &salt, &nonce).unwrap();
    let b = seal_with_room_password("x", "pw", &salt, &nonce).unwrap();
    assert_eq!(a, b);
    assert!(a.starts_with(&format!("{}:{}:", "03".repeat(16), "04".repeat(12))));
}

#[test]
fn envelope_fields_are_hex_of_either_case() {
    assert_eq!(format_envelope(&[0x01, 0xab], &[0xff], &[]), "01ab:ff:");
    let salt = "AB".repeat(16);
    let nonce = "0c".repeat(12);
    let parsed = parse_envelope_text(&format!("{}:{}:00Ff", salt, nonce)).unwrap();
    assert_eq!(parsed, (vec![0xab; 16], vec![0x0c; 12], vec![0x00, 0xff]));
    assert_eq!(parse_envelope_text(&format!("{}:{}:abc", salt, nonce)), None);
}

#[test]
fn key_exchange_messages_count_as_encrypted() {
    assert!(is_message_encrypted("KYBER_PUBLIC_KEY:abcd[END DATA]"));
    assert!(is_message_encrypted("ECDH_PUBLIC_KEY:00"));
    assert!(is_message_encrypted("DILITHIUM_PUBLIC_KEY:"));
    assert!(is_message_encrypted("EDDSA_PUBLIC_KEY:ff"));
}

#[test]
fn armored_base64_blocks_count_as_encrypted() {
    assert!(is_message_encrypted(
        "-----BEGIN PGP MESSAGE-----\nSGVsbG8=\n-----END PGP MESSAGE-----"
    ));
    assert!(is_message_encrypted(
        "-----BEGIN PGP PUBLIC KEY BLOCK-----\n  SGVs\n  bG8h\n-----END PGP PUBLIC KEY BLOCK-----"
    ));
    assert!(is_message_encrypted(
        "-----BEGIN ENCRYPTED MESSAGE-----QUJD-----END ENCRYPTED MESSAGE-----"
    ));
}

#[test]
fn blocks_that_are_not_base64_are_refused() {
    assert!(!is_message_encrypted("plain text"));
    assert!(!is_message_encrypted(
        "-----BEGIN PGP MESSAGE-----\nnot base64!\n-----END PGP MESSAGE-----"
    ));
    assert!(!is_message_encrypted(
        "-----BEGIN PGP MESSAGE-----\n\n-----END PGP MESSAGE-----"
    ));
    assert!(!is_message_encrypted(
        "-----END PGP MESSAGE-----SGVsbG8=-----BEGIN PGP MESSAGE-----"
    ));
    assert!(!is_message_encrypted("-----BEGIN PGP MESSAGE-----SGVsbG8="));
    // five characters cannot be padded into base64
    assert!(!is_message_encrypted(
        "-----BEGIN PGP MESSAGE-----ABCDE-----END PGP MESSAGE-----"
    ));
}
