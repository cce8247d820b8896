//! The password codec: a key from Argon2id over the password and a fresh
//! salt, ChaCha20-Poly1305 under a fresh nonce, and the envelope text.
//! It protects chat messages and identity keys at rest.
use crate::envelope::{
    aead_encrypt, aead_fits, aead_seal, envelope_text, format_envelope, lemma_envelope_round_trip,
    open_sealed, opening, opens_to, parse_envelope, parse_envelope_text, random_bytes, text_result,
    wipe, CodecError, KEY_LEN, NONCE_LEN, SALT_LEN,
};
use argon2::PasswordHasher;
use vstd::prelude::*;
use vstd::utf8::encode_utf8;

verus! {

/// The 32-byte key that Argon2id, with the crate's default parameters, derives
/// from a password and a salt.
pub uninterp spec fn argon2_key(password: Seq<char>, salt: Seq<u8>) -> Seq<u8>;

/// Argon2 takes passwords of at most 2^32 - 1 bytes.
pub open spec fn password_fits(password: Seq<char>) -> bool {
    encode_utf8(password).len() <= 0xffff_ffff
}

/// Relies on `Argon2::default().hash_password` with the salt written by
/// `SaltString::encode_b64`: it refuses only a password longer than 2^32 - 1
/// bytes, and its default output is 32 bytes.
#[verifier::external_body]
fn argon2_hash(password: &str, salt: &[u8]) -> (r: Option<Vec<u8>>)
    requires
        salt@.len() == SALT_LEN,
    ensures
        r is Some <==> password_fits(password@),
        r matches Some(k) ==> k@ == argon2_key(password@, salt@) && k@.len() == KEY_LEN,
{
    let salt = argon2::password_hash::SaltString::encode_b64(salt).ok()?;
    let hash = argon2::Argon2::default().hash_password(password.as_bytes(), &salt).ok()?;
    Some(hash.hash?.as_bytes().to_vec())
}

/// Derives the cipher key for `password` and a 16-byte salt.
pub fn derive_key(password: &str, salt: &[u8]) -> (r: Result<Vec<u8>, CodecError>)
    requires
        salt@.len() == SALT_LEN,
    ensures
        password_fits(password@) ==> (r matches Ok(k) && k@ == argon2_key(password@, salt@)
            && k@.len() == KEY_LEN),
        !password_fits(password@) ==> r == Err::<Vec<u8>, CodecError>(CodecError::KeyDerivation),
{
    match argon2_hash(password, salt) {
        Some(k) => Ok(k),
        None => Err(CodecError::KeyDerivation),
    }
}

/// The envelope of `plain` under `password`, with the given salt and nonce.
pub open spec fn sealed_envelope(
    plain: Seq<char>,
    password: Seq<char>,
    salt: Seq<u8>,
    nonce: Seq<u8>,
) -> Seq<char> {
    envelope_text(salt, nonce, aead_seal(argon2_key(password, salt), nonce, encode_utf8(plain)))
}

/// What encryption returns with a given salt and nonce.
pub open spec fn seal_post(
    r: Result<Seq<char>, CodecError>,
    plain: Seq<char>,
    password: Seq<char>,
    salt: Seq<u8>,
    nonce: Seq<u8>,
) -> bool {
    if !password_fits(password) {
        r == Err::<Seq<char>, CodecError>(CodecError::KeyDerivation)
    } else if !aead_fits(encode_utf8(plain).len() as int) {
        r == Err::<Seq<char>, CodecError>(CodecError::Encryption)
    } else {
        r == Ok::<Seq<char>, CodecError>(sealed_envelope(plain, password, salt, nonce))
    }
}

/// What decryption returns: a format error for text that is not an
/// envelope, and otherwise what opening the ciphertext under the derived key
/// gives.
pub open spec fn decrypt_post(
    r: Result<Seq<char>, CodecError>,
    envelope: Seq<char>,
    password: Seq<char>,
) -> bool {
    match parse_envelope(envelope) {
        None => r == Err::<Seq<char>, CodecError>(CodecError::Format),
        Some((salt, nonce, ct)) => if password_fits(password) {
            &&& opening(r, argon2_key(password, salt), nonce, ct)
            &&& ct.len() < 16 ==> r == Err::<Seq<char>, CodecError>(CodecError::Authentication)
        } else {
            r == Err::<Seq<char>, CodecError>(CodecError::KeyDerivation)
        },
    }
}

/// Encrypts `plain` under `password` with the salt and nonce given.
pub fn seal_with_password(plain: &str, password: &str, salt: &[u8], nonce: &[u8]) -> (r: Result<
    String,
    CodecError,
>)
    requires
        salt@.len() == SALT_LEN,
        nonce@.len() == NONCE_LEN,
    ensures
        seal_post(text_result(r), plain@, password@, salt@, nonce@),
{
    let mut key = match derive_key(password, salt) {
        Ok(k) => k,
        Err(e) => return Err(e),
    };
    let sealed = aead_encrypt(key.as_slice(), nonce, plain.as_bytes());
    wipe(&mut key);
    match sealed {
        Some(ct) => Ok(format_envelope(salt, nonce, ct.as_slice())),
        None => Err(CodecError::Encryption),
    }
}

/// Encrypts `plain` under `password` with a fresh random salt and nonce.
pub fn encrypt_data(plain: &str, password: &str) -> (r: Result<String, CodecError>)
    ensures
        r is Ok <==> password_fits(password@) && aead_fits(encode_utf8(plain@).len() as int),
        !password_fits(password@) ==> r == Err::<String, CodecError>(CodecError::KeyDerivation),
        password_fits(password@) && !aead_fits(encode_utf8(plain@).len() as int) ==> r == Err::<
            String,
            CodecError,
        >(CodecError::Encryption),
        r matches Ok(e) ==> exists|salt: Seq<u8>, nonce: Seq<u8>|
            salt.len() == SALT_LEN && nonce.len() == NONCE_LEN && e@ == #[trigger] sealed_envelope(
                plain@,
                password@,
                salt,
                nonce,
            ),
{
    let salt = random_bytes(SALT_LEN);
    let nonce = random_bytes(NONCE_LEN);
    let r = seal_with_password(plain, password, salt.as_slice(), nonce.as_slice());
    proof {
        if r is Ok {
            let e = r->Ok_0;
            assert(e@ == sealed_envelope(plain@, password@, salt@, nonce@));
        }
    }
    r
}

/// Decrypts an envelope with `password`.
pub fn decrypt_data(envelope: &str, password: &str) -> (r: Result<String, CodecError>)
    ensures
        decrypt_post(text_result(r), envelope@, password@),
{
    let (salt, nonce, ct) = match parse_envelope_text(envelope) {
        Some(p) => p,
        None => return Err(CodecError::Format),
    };
    let mut key = match derive_key(password, salt.as_slice()) {
        Ok(k) => k,
        Err(e) => return Err(e),
    };
    let r = open_sealed(key.as_slice(), nonce.as_slice(), ct.as_slice());
    wipe(&mut key);
    r
}

/// Decrypting what encryption produced, with the same password, gives back
/// the plaintext: whatever salt and nonce encryption drew, the envelope it
/// returns decrypts to `plain`.
pub proof fn lemma_decrypt_inverts_encrypt(
    plain: Seq<char>,
    password: Seq<char>,
    salt: Seq<u8>,
    nonce: Seq<u8>,
)
    requires
        salt.len() == SALT_LEN,
        nonce.len() == NONCE_LEN,
    ensures
        forall|e: Result<Seq<char>, CodecError>, d: Result<Seq<char>, CodecError>|
            seal_post(e, plain, password, salt, nonce) && e is Ok && #[trigger] decrypt_post(
                d,
                e->Ok_0,
                password,
            ) ==> d == Ok::<Seq<char>, CodecError>(plain),
{
    let key = argon2_key(password, salt);
    let ct = aead_seal(key, nonce, encode_utf8(plain));
    lemma_envelope_round_trip(salt, nonce, ct);
    assert forall|e: Result<Seq<char>, CodecError>, d: Result<Seq<char>, CodecError>|
        seal_post(e, plain, password, salt, nonce) && e is Ok && #[trigger] decrypt_post(
            d,
            e->Ok_0,
            password,
        ) implies d == Ok::<Seq<char>, CodecError>(plain) by {
        assert(opens_to(key, nonce, ct, plain));
    }
}

/// Decryption is deterministic: two decryptions of the same envelope with
/// the same password have the same outcome.
pub proof fn lemma_decrypt_deterministic(
    envelope: Seq<char>,
    password: Seq<char>,
    r1: Result<Seq<char>, CodecError>,
    r2: Result<Seq<char>, CodecError>,
)
    requires
        decrypt_post(r1, envelope, password),
        decrypt_post(r2, envelope, password),
    ensures
        r1 == r2,
{
    match parse_envelope(envelope) {
        None => {},
        Some((salt, nonce, ct)) => {
            if password_fits(password) {
                crate::envelope::lemma_opening_unique(r1, r2, argon2_key(password, salt), nonce, ct);
            }
        },
    }
}

} // verus!
