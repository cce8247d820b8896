//! The room codec: the same envelope and cipher as the password codec, with
//! the key taken as one SHA-256 pass over the password and the salt.
use crate::digest::{concat_bytes, sha256, sha256_digest};
use crate::envelope::{
    aead_encrypt, aead_fits, aead_seal, envelope_text, format_envelope, lemma_envelope_round_trip,
    open_sealed, opening, opens_to, parse_envelope, parse_envelope_text, random_bytes, text_result,
    wipe, CodecError, NONCE_LEN, SALT_LEN,
};
use crate::relay::{DILITHIUM_PREFIX, ECDH_PREFIX, EDDSA_PREFIX, KYBER_PREFIX};
use crate::text::{
    chars_of, find_from, find_spec, lemma_find_spec_result, occurs_at, push_all, slice_chars,
    string_of, trim, trimmed_slice,
};
use base64::Engine;
use vstd::prelude::*;
use vstd::utf8::encode_utf8;

verus! {

/// The key for a password and a salt: SHA-256 of the password's bytes followed
/// by the salt.
pub open spec fn room_key(password: Seq<char>, salt: Seq<u8>) -> Seq<u8> {
    sha256(encode_utf8(password) + salt)
}

/// Derives the cipher key from a room password and a salt.
pub fn derive_key(password: &str, salt: &[u8]) -> (r: Vec<u8>)
    ensures
        r@ == room_key(password@, salt@),
        r@.len() == 32,
{
    let input = concat_bytes(password.as_bytes(), salt);
    sha256_digest(input.as_slice())
}

/// The envelope of `plain` under a room password, with the given salt and nonce.
pub open spec fn room_envelope(
    plain: Seq<char>,
    password: Seq<char>,
    salt: Seq<u8>,
    nonce: Seq<u8>,
) -> Seq<char> {
    envelope_text(salt, nonce, aead_seal(room_key(password, salt), nonce, encode_utf8(plain)))
}

/// What decryption with a room password returns.
pub open spec fn room_decrypt_post(
    r: Result<Seq<char>, CodecError>,
    envelope: Seq<char>,
    password: Seq<char>,
) -> bool {
    match parse_envelope(envelope) {
        None => r == Err::<Seq<char>, CodecError>(CodecError::Format),
        Some((salt, nonce, ct)) => {
            &&& opening(r, room_key(password, salt), nonce, ct)
            &&& ct.len() < 16 ==> r == Err::<Seq<char>, CodecError>(CodecError::Authentication)
        },
    }
}

/// Encrypts `plain` under a room password with the salt and nonce given.
pub fn seal_with_room_password(plain: &str, password: &str, salt: &[u8], nonce: &[u8]) -> (r:
    Result<String, CodecError>)
    requires
        salt@.len() == SALT_LEN,
        nonce@.len() == NONCE_LEN,
    ensures
        aead_fits(encode_utf8(plain@).len() as int) ==> (r matches Ok(e) && e@ == room_envelope(
            plain@,
            password@,
            salt@,
            nonce@,
        )),
        !aead_fits(encode_utf8(plain@).len() as int) ==> r == Err::<String, CodecError>(
            CodecError::Encryption,
        ),
{
    let mut key = derive_key(password, salt);
    let sealed = aead_encrypt(key.as_slice(), nonce, plain.as_bytes());
    wipe(&mut key);
    match sealed {
        Some(ct) => Ok(format_envelope(salt, nonce, ct.as_slice())),
        None => Err(CodecError::Encryption),
    }
}

/// Encrypts `plain` under a room password with a fresh random salt and nonce.
pub fn encrypt_message(plain: &str, password: &str) -> (r: Result<String, CodecError>)
    ensures
        r is Ok <==> aead_fits(encode_utf8(plain@).len() as int),
        r is Err ==> r == Err::<String, CodecError>(CodecError::Encryption),
        r matches Ok(e) ==> exists|salt: Seq<u8>, nonce: Seq<u8>|
            salt.len() == SALT_LEN && nonce.len() == NONCE_LEN && e@ == #[trigger] room_envelope(
                plain@,
                password@,
                salt,
                nonce,
            ),
{
    let salt = random_bytes(SALT_LEN);
    let nonce = random_bytes(NONCE_LEN);
    let r = seal_with_room_password(plain, password, salt.as_slice(), nonce.as_slice());
    proof {
        if r is Ok {
            let e = r->Ok_0;
            assert(e@ == room_envelope(plain@, password@, salt@, nonce@));
        }
    }
    r
}

/// Decrypts an envelope with a room password.
pub fn decrypt_message(envelope: &str, password: &str) -> (r: Result<String, CodecError>)
    ensures
        room_decrypt_post(text_result(r), envelope@, password@),
{
    let (salt, nonce, ct) = match parse_envelope_text(envelope) {
        Some(p) => p,
        None => return Err(CodecError::Format),
    };
    let mut key = derive_key(password, salt.as_slice());
    let r = open_sealed(key.as_slice(), nonce.as_slice(), ct.as_slice());
    wipe(&mut key);
    r
}

pub const PGP_MESSAGE_BEGIN: &'static str = "-----BEGIN PGP MESSAGE-----";

pub const PGP_MESSAGE_END: &'static str = "-----END PGP MESSAGE-----";

pub const PGP_KEY_BEGIN: &'static str = "-----BEGIN PGP PUBLIC KEY BLOCK-----";

pub const PGP_KEY_END: &'static str = "-----END PGP PUBLIC KEY BLOCK-----";

pub const ENCRYPTED_BEGIN: &'static str = "-----BEGIN ENCRYPTED MESSAGE-----";

pub const ENCRYPTED_END: &'static str = "-----END ENCRYPTED MESSAGE-----";

/// Whether standard base64 with padding decodes `s`.
pub uninterp spec fn base64_decodes(s: Seq<char>) -> bool;

/// Relies on `base64::engine::general_purpose::STANDARD.decode`: whether it
/// accepts the text.
#[verifier::external_body]
fn base64_decode_ok(s: &str) -> (r: bool)
    ensures
        r == base64_decodes(s@),
{
    base64::engine::general_purpose::STANDARD.decode(s).is_ok()
}

pub open spec fn starts_with(s: Seq<char>, p: Seq<char>) -> bool {
    occurs_at(s, p, 0)
}

pub open spec fn contains(s: Seq<char>, m: Seq<char>) -> bool {
    find_spec(s, m, 0) is Some
}

/// The first of the three begin markers that the message holds.
pub open spec fn chosen_begin(s: Seq<char>) -> Option<Seq<char>> {
    if contains(s, PGP_MESSAGE_BEGIN@) {
        Some(PGP_MESSAGE_BEGIN@)
    } else if contains(s, PGP_KEY_BEGIN@) {
        Some(PGP_KEY_BEGIN@)
    } else if contains(s, ENCRYPTED_BEGIN@) {
        Some(ENCRYPTED_BEGIN@)
    } else {
        None
    }
}

/// The first of the three end markers that the message holds.
pub open spec fn chosen_end(s: Seq<char>) -> Option<Seq<char>> {
    if contains(s, PGP_MESSAGE_END@) {
        Some(PGP_MESSAGE_END@)
    } else if contains(s, PGP_KEY_END@) {
        Some(PGP_KEY_END@)
    } else if contains(s, ENCRYPTED_END@) {
        Some(ENCRYPTED_END@)
    } else {
        None
    }
}

/// The text between the chosen begin marker and the chosen end marker, when
/// the end marker comes after the whole begin marker.
pub open spec fn block_content(s: Seq<char>) -> Option<Seq<char>> {
    match (chosen_begin(s), chosen_end(s)) {
        (Some(b), Some(e)) => match (find_spec(s, b, 0), find_spec(s, e, 0)) {
            (Some(i), Some(j)) => if i < j && i + b.len() <= j {
                Some(s.subrange(i + b.len(), j))
            } else {
                None
            },
            _ => None,
        },
        _ => None,
    }
}

pub open spec fn newline() -> Seq<char> {
    seq!['\n']
}

/// The lines of `c` from `start` on, each trimmed, joined without separator.
pub open spec fn cleaned_from(c: Seq<char>, start: int) -> Seq<char>
    decreases c.len() + 1 - start,
{
    if start < 0 || start > c.len() {
        seq![]
    } else {
        match find_spec(c, newline(), start) {
            Some(k) => if start <= k < c.len() {
                trim(c.subrange(start, k)) + cleaned_from(c, k + 1)
            } else {
                seq![]
            },
            None => trim(c.subrange(start, c.len() as int)),
        }
    }
}

/// What stands before the first `=`.
pub open spec fn before_padding(c: Seq<char>) -> Seq<char> {
    match find_spec(c, seq!['='], 0) {
        Some(k) => c.subrange(0, k),
        None => c,
    }
}

/// The padding that completes a base64 text of length `n`.
pub open spec fn padding_for(n: int) -> Seq<char> {
    if n % 4 == 2 {
        seq!['=', '=']
    } else if n % 4 == 3 {
        seq!['=']
    } else {
        seq![]
    }
}

pub open spec fn is_base64_char(c: char) -> bool {
    ('A' <= c && c <= 'Z') || ('a' <= c && c <= 'z') || ('0' <= c && c <= '9') || c == '+' || c
        == '/'
}

/// Text of the form `[A-Za-z0-9+/]+` .
pub open spec fn base64_body(b: Seq<char>) -> bool {
    b.len() > 0 && forall|i: int| 0 <= i < b.len() ==> is_base64_char(#[trigger] b[i])
}

/// A relay message that the client treats as an encrypted or key message:
/// one that starts with a key-exchange prefix, or whose block between the
/// markers, cleaned of line breaks and padding, is base64 that decodes.
pub open spec fn message_encrypted(s: Seq<char>) -> bool {
    if starts_with(s, DILITHIUM_PREFIX@) || starts_with(s, EDDSA_PREFIX@) || starts_with(
        s,
        ECDH_PREFIX@,
    ) || starts_with(s, KYBER_PREFIX@) {
        true
    } else {
        match block_content(s) {
            None => false,
            Some(c) => {
                let b = before_padding(cleaned_from(c, 0));
                base64_body(b) && base64_decodes(b + padding_for(b.len() as int))
            },
        }
    }
}

fn has_prefix(v: &Vec<char>, p: &str) -> (r: bool)
    ensures
        r == starts_with(v@, p@),
{
    let pc = chars_of(p);
    let found = find_from(v, &pc, 0);
    proof {
        lemma_find_spec_result(v@, p@, 0);
    }
    match found {
        Some(i) => i == 0,
        None => false,
    }
}

fn holds(v: &Vec<char>, m: &str) -> (r: bool)
    ensures
        r == contains(v@, m@),
{
    let mc = chars_of(m);
    find_from(v, &mc, 0).is_some()
}

/// The lines of `c`, trimmed and joined.
fn clean_lines(c: &Vec<char>) -> (r: Vec<char>)
    ensures
        r@ == cleaned_from(c@, 0),
{
    let nl: Vec<char> = vec!['\n'];
    assert(nl@ =~= newline());
    let mut out: Vec<char> = Vec::new();
    let mut start: usize = 0;
    loop
        invariant
            nl@ == newline(),
            start <= c@.len(),
            out@ + cleaned_from(c@, start as int) == cleaned_from(c@, 0),
        decreases c@.len() - start,
    {
        match find_from(c, &nl, start) {
            Some(k) => {
                proof {
                    lemma_find_spec_result(c@, newline(), start as int);
                }
                assert(k + 1 <= c.len());
                let piece = trimmed_slice(c, start, k);
                let ghost before = out@;
                push_all(&mut out, &piece);
                assert(out@ + cleaned_from(c@, k + 1) =~= before + cleaned_from(c@, start as int));
                start = k + 1;
            },
            None => {
                let piece = trimmed_slice(c, start, c.len());
                let ghost before = out@;
                push_all(&mut out, &piece);
                assert(out@ =~= before + cleaned_from(c@, start as int));
                return out;
            },
        }
    }
}

fn base64_body_chars(b: &Vec<char>) -> (r: bool)
    ensures
        r == base64_body(b@),
{
    if b.len() == 0 {
        return false;
    }
    let mut n: usize = 0;
    while n < b.len()
        invariant
            n <= b@.len(),
            forall|m: int| 0 <= m < n ==> is_base64_char(#[trigger] b@[m]),
        decreases b@.len() - n,
    {
        let c = b[n];
        if !(('A' <= c && c <= 'Z') || ('a' <= c && c <= 'z') || ('0' <= c && c <= '9') || c
            == '+' || c == '/') {
            assert(!is_base64_char(b@[n as int]));
            return false;
        }
        n = n + 1;
    }
    true
}

/// Whether a relay message is an encrypted message, a key block, or a
/// key-exchange message.
pub fn is_message_encrypted(message: &str) -> (r: bool)
    ensures
        r == message_encrypted(message@),
{
    let v = chars_of(message);
    if has_prefix(&v, DILITHIUM_PREFIX) || has_prefix(&v, EDDSA_PREFIX) || has_prefix(
        &v,
        ECDH_PREFIX,
    ) || has_prefix(&v, KYBER_PREFIX) {
        return true;
    }
    let begin = if holds(&v, PGP_MESSAGE_BEGIN) {
        PGP_MESSAGE_BEGIN
    } else if holds(&v, PGP_KEY_BEGIN) {
        PGP_KEY_BEGIN
    } else if holds(&v, ENCRYPTED_BEGIN) {
        ENCRYPTED_BEGIN
    } else {
        return false;
    };
    let end = if holds(&v, PGP_MESSAGE_END) {
        PGP_MESSAGE_END
    } else if holds(&v, PGP_KEY_END) {
        PGP_KEY_END
    } else if holds(&v, ENCRYPTED_END) {
        ENCRYPTED_END
    } else {
        return false;
    };
    let bc = chars_of(begin);
    let ec = chars_of(end);
    let i = match find_from(&v, &bc, 0) {
        Some(i) => i,
        None => return false,
    };
    let j = match find_from(&v, &ec, 0) {
        Some(j) => j,
        None => return false,
    };
    proof {
        lemma_find_spec_result(v@, bc@, 0);
        lemma_find_spec_result(v@, ec@, 0);
    }
    if !(i < j && bc.len() <= j - i) {
        return false;
    }
    let content = slice_chars(&v, i + bc.len(), j);
    assert(chosen_begin(v@) == Some(bc@));
    assert(chosen_end(v@) == Some(ec@));
    assert(block_content(v@) == Some(content@));
    let cleaned = clean_lines(&content);
    let eq: Vec<char> = vec!['='];
    assert(eq@ =~= seq!['=']);
    let b = match find_from(&cleaned, &eq, 0) {
        Some(k) => {
            proof {
                lemma_find_spec_result(cleaned@, eq@, 0);
            }
            slice_chars(&cleaned, 0, k)
        },
        None => cleaned,
    };
    assert(b@ == before_padding(cleaned_from(content@, 0)));
    if !base64_body_chars(&b) {
        return false;
    }
    let mut padded = b.clone();
    let rem = b.len() % 4;
    if rem == 2 {
        padded.push('=');
        padded.push('=');
    } else if rem == 3 {
        padded.push('=');
    }
    assert(padded@ =~= b@ + padding_for(b@.len() as int));
    let text = string_of(padded.as_slice());
    base64_decode_ok(text.as_str())
}

/// Decrypting with the room password what was encrypted under it gives back
/// the plaintext.
pub proof fn lemma_room_decrypt_inverts_encrypt(
    plain: Seq<char>,
    password: Seq<char>,
    salt: Seq<u8>,
    nonce: Seq<u8>,
)
    requires
        salt.len() == SALT_LEN,
        nonce.len() == NONCE_LEN,
        aead_fits(encode_utf8(plain).len() as int),
    ensures
        forall|d: Result<Seq<char>, CodecError>|
            #[trigger] room_decrypt_post(d, room_envelope(plain, password, salt, nonce), password)
                ==> d == Ok::<Seq<char>, CodecError>(plain),
{
    let key = room_key(password, salt);
    let ct = aead_seal(key, nonce, encode_utf8(plain));
    lemma_envelope_round_trip(salt, nonce, ct);
    assert(opens_to(key, nonce, ct, plain));
}

/// Decryption with a room password is deterministic: two decryptions of the
/// same envelope have the same outcome.
pub proof fn lemma_room_decrypt_deterministic(
    envelope: Seq<char>,
    password: Seq<char>,
    r1: Result<Seq<char>, CodecError>,
    r2: Result<Seq<char>, CodecError>,
)
    requires
        room_decrypt_post(r1, envelope, password),
        room_decrypt_post(r2, envelope, password),
    ensures
        r1 == r2,
{
    match parse_envelope(envelope) {
        None => {},
        Some((salt, nonce, ct)) => {
            crate::envelope::lemma_opening_unique(r1, r2, room_key(password, salt), nonce, ct);
        },
    }
}

} // verus!
