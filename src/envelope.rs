//! The encrypted envelope `hex(salt):hex(nonce):hex(ciphertext)` and the
//! authenticated cipher (ChaCha20-Poly1305) that fills it.
use crate::encoding::{hex_bytes, hex_decode, hex_encode, hex_text, is_hex_text, is_hex_char,
    lemma_hex_round_trip, lemma_hex_text_chars, text_from_utf8};
use crate::text::{chars_of, find_from, find_spec, lemma_find_spec_at, lemma_find_spec_none,
    occurs_at, slice_chars};
use chacha20poly1305::aead::{Aead, KeyInit};
use rand::RngCore;
use vstd::prelude::*;
use vstd::utf8::encode_utf8;

verus! {

pub const SALT_LEN: usize = 16;

pub const NONCE_LEN: usize = 12;

pub const KEY_LEN: usize = 32;

/// Why a codec call failed.
#[derive(Clone, Copy, Debug, PartialEq, Eq, Structural)]
pub enum CodecError {
    /// The envelope is not three colon-separated hex fields with a 16-byte salt
    /// and a 12-byte nonce.
    Format,
    /// The password could not be turned into a key.
    KeyDerivation,
    /// The cipher refused the plaintext.
    Encryption,
    /// The ciphertext does not authenticate under the key.
    Authentication,
    /// The decrypted bytes are not UTF-8 text.
    Encoding,
}

/// What ChaCha20-Poly1305 produces for `msg` under `key` and `nonce`, with no
/// associated data: the ciphertext followed by the 16-byte tag.
pub uninterp spec fn aead_seal(key: Seq<u8>, nonce: Seq<u8>, msg: Seq<u8>) -> Seq<u8>;

/// The cipher handles messages of fewer than 2^32 - 1 blocks of 64 bytes.
pub open spec fn aead_fits(len: int) -> bool {
    len / 64 < 0xffff_ffff
}

/// Relies on `ChaCha20Poly1305::encrypt`: it refuses only a message too long
/// for the block counter, and appends a 16-byte tag.
#[verifier::external_body]
pub(crate) fn aead_encrypt(key: &[u8], nonce: &[u8], msg: &[u8]) -> (r: Option<Vec<u8>>)
    requires
        key@.len() == KEY_LEN,
        nonce@.len() == NONCE_LEN,
    ensures
        r is Some <==> aead_fits(msg@.len() as int),
        r matches Some(c) ==> c@ == aead_seal(key@, nonce@, msg@) && c@.len() == msg@.len() + 16,
{
    let cipher = chacha20poly1305::ChaCha20Poly1305::new(chacha20poly1305::Key::from_slice(key));
    cipher.encrypt(chacha20poly1305::Nonce::from_slice(nonce), msg).ok()
}

/// Decryption gives back any message whose ciphertext `ct` is.
pub open spec fn recovers_every_message(
    r: Option<Vec<u8>>,
    key: Seq<u8>,
    nonce: Seq<u8>,
    ct: Seq<u8>,
) -> bool {
    forall|m: Seq<u8>|
        aead_fits(m.len() as int) && ct == #[trigger] aead_seal(key, nonce, m) ==> (r matches Some(
            v,
        ) && v@ == m)
}

/// Relies on `ChaCha20Poly1305::decrypt`: it succeeds exactly on what
/// `encrypt` produces under the same key and nonce, and gives back that message.
#[verifier::external_body]
pub(crate) fn aead_decrypt(key: &[u8], nonce: &[u8], ct: &[u8]) -> (r: Option<Vec<u8>>)
    requires
        key@.len() == KEY_LEN,
        nonce@.len() == NONCE_LEN,
    ensures
        r matches Some(m) ==> ct@ == aead_seal(key@, nonce@, m@) && aead_fits(m@.len() as int)
            && ct@.len() == m@.len() + 16,
        recovers_every_message(r, key@, nonce@, ct@),
{
    let cipher = chacha20poly1305::ChaCha20Poly1305::new(chacha20poly1305::Key::from_slice(key));
    cipher.decrypt(chacha20poly1305::Nonce::from_slice(nonce), ct).ok()
}

/// Relies on `rand::rngs::OsRng` through `RngCore::fill_bytes`: `n` bytes from
/// the operating system's generator. Nothing is known of their values.
#[verifier::external_body]
pub(crate) fn random_bytes(n: usize) -> (r: Vec<u8>)
    ensures
        r@.len() == n,
{
    let mut v = vec![0u8; n];
    rand::rngs::OsRng.fill_bytes(&mut v);
    v
}

/// Relies on `zeroize::Zeroize` for `Vec<u8>`: the bytes are overwritten with
/// zeros and the vector is cleared.
#[verifier::external_body]
pub(crate) fn wipe(key: &mut Vec<u8>)
    ensures
        final(key)@.len() == 0,
{
    zeroize::Zeroize::zeroize(key)
}

pub open spec fn colon() -> Seq<char> {
    seq![':']
}

/// The text of an envelope.
pub open spec fn envelope_text(salt: Seq<u8>, nonce: Seq<u8>, ct: Seq<u8>) -> Seq<char> {
    hex_text(salt) + colon() + hex_text(nonce) + colon() + hex_text(ct)
}

/// The three fields of an envelope: exactly two colons, hex on each side, a
/// 16-byte salt and a 12-byte nonce.
pub open spec fn parse_envelope(s: Seq<char>) -> Option<(Seq<u8>, Seq<u8>, Seq<u8>)> {
    match find_spec(s, colon(), 0) {
        None => None,
        Some(i) => match find_spec(s, colon(), i + 1) {
            None => None,
            Some(j) => {
                let a = s.subrange(0, i);
                let b = s.subrange(i + 1, j);
                let c = s.subrange(j + 1, s.len() as int);
                if find_spec(s, colon(), j + 1) is None && is_hex_text(a) && is_hex_text(b)
                    && is_hex_text(c) && hex_bytes(a).len() == SALT_LEN && hex_bytes(b).len()
                    == NONCE_LEN {
                    Some((hex_bytes(a), hex_bytes(b), hex_bytes(c)))
                } else {
                    None
                }
            },
        },
    }
}

/// The ciphertext of `plain` under `key` and `nonce` is `ct`.
pub open spec fn opens_to(key: Seq<u8>, nonce: Seq<u8>, ct: Seq<u8>, plain: Seq<char>) -> bool {
    aead_fits(encode_utf8(plain).len() as int) && ct == aead_seal(key, nonce, encode_utf8(plain))
}

/// `ct` is the ciphertext of some message under `key` and `nonce`.
pub open spec fn authentic(key: Seq<u8>, nonce: Seq<u8>, ct: Seq<u8>) -> bool {
    exists|m: Seq<u8>| aead_fits(m.len() as int) && ct == #[trigger] aead_seal(key, nonce, m)
}

pub open spec fn text_result(r: Result<String, CodecError>) -> Result<Seq<char>, CodecError> {
    match r {
        Ok(s) => Ok(s@),
        Err(e) => Err(e),
    }
}

/// What opening `ct` under `key` and `nonce` yields: the text it was made from,
/// an authentication failure when it was made from nothing under this key, or
/// an encoding failure when it was made from bytes that are not UTF-8.
pub open spec fn opening(
    r: Result<Seq<char>, CodecError>,
    key: Seq<u8>,
    nonce: Seq<u8>,
    ct: Seq<u8>,
) -> bool {
    &&& r matches Ok(p) ==> opens_to(key, nonce, ct, p)
    &&& forall|p: Seq<char>| opens_to(key, nonce, ct, p) ==> r == Ok::<Seq<char>, CodecError>(p)
    &&& r == Err::<Seq<char>, CodecError>(CodecError::Authentication) <==> !authentic(key, nonce, ct)
    &&& r is Err ==> r == Err::<Seq<char>, CodecError>(CodecError::Authentication) || r == Err::<
        Seq<char>,
        CodecError,
    >(CodecError::Encoding)
}

/// Lays out an envelope.
pub fn format_envelope(salt: &[u8], nonce: &[u8], ct: &[u8]) -> (r: String)
    ensures
        r@ == envelope_text(salt@, nonce@, ct@),
{
    let sep = ":";
    proof {
        reveal_strlit(":");
    }
    let mut out = hex_encode(salt);
    out.append(sep);
    let n = hex_encode(nonce);
    out.append(n.as_str());
    out.append(sep);
    let c = hex_encode(ct);
    out.append(c.as_str());
    assert(out@ =~= envelope_text(salt@, nonce@, ct@));
    out
}

/// Splits an envelope into salt, nonce and ciphertext.
pub fn parse_envelope_text(s: &str) -> (r: Option<(Vec<u8>, Vec<u8>, Vec<u8>)>)
    ensures
        match r {
            Some((a, b, c)) => parse_envelope(s@) == Some((a@, b@, c@)),
            None => parse_envelope(s@) is None,
        },
{
    let v = chars_of(s);
    let sep: Vec<char> = vec![':'];
    assert(sep@ =~= colon());
    let i = match find_from(&v, &sep, 0) {
        Some(i) => i,
        None => return None,
    };
    proof {
        crate::text::lemma_find_spec_result(v@, colon(), 0);
    }
    assert(i + 1 <= v.len());
    let j = match find_from(&v, &sep, i + 1) {
        Some(j) => j,
        None => return None,
    };
    proof {
        crate::text::lemma_find_spec_result(v@, colon(), i + 1);
    }
    assert(j + 1 <= v.len());
    if find_from(&v, &sep, j + 1).is_some() {
        return None;
    }
    let a = slice_chars(&v, 0, i);
    let b = slice_chars(&v, i + 1, j);
    let c = slice_chars(&v, j + 1, v.len());
    let salt = match hex_decode(a.as_slice()) {
        Some(x) => x,
        None => return None,
    };
    let nonce = match hex_decode(b.as_slice()) {
        Some(x) => x,
        None => return None,
    };
    let ct = match hex_decode(c.as_slice()) {
        Some(x) => x,
        None => return None,
    };
    if salt.len() != SALT_LEN || nonce.len() != NONCE_LEN {
        return None;
    }
    Some((salt, nonce, ct))
}

/// No colon stands in hex text.
proof fn lemma_no_colon_in_hex(t: Seq<char>, whole: Seq<char>, off: int)
    requires
        forall|k: int| 0 <= k < t.len() ==> is_hex_char(#[trigger] t[k]),
        0 <= off,
        off + t.len() <= whole.len(),
        whole.subrange(off, off + t.len()) == t,
    ensures
        forall|j: int| off <= j < off + t.len() ==> !occurs_at(whole, colon(), j),
{
    assert forall|j: int| off <= j < off + t.len() implies !occurs_at(whole, colon(), j) by {
        assert(whole[j] == t[j - off]);
        if occurs_at(whole, colon(), j) {
            assert(whole.subrange(j, j + 1)[0] == whole[j]);
        }
    }
}

/// An envelope laid out by `format_envelope` parses back into its fields.
pub proof fn lemma_envelope_round_trip(salt: Seq<u8>, nonce: Seq<u8>, ct: Seq<u8>)
    requires
        salt.len() == SALT_LEN,
        nonce.len() == NONCE_LEN,
    ensures
        parse_envelope(envelope_text(salt, nonce, ct)) == Some((salt, nonce, ct)),
{
    let a = hex_text(salt);
    let b = hex_text(nonce);
    let c = hex_text(ct);
    let s = envelope_text(salt, nonce, ct);
    lemma_hex_text_chars(salt);
    lemma_hex_text_chars(nonce);
    lemma_hex_text_chars(ct);
    lemma_hex_round_trip(salt);
    lemma_hex_round_trip(nonce);
    lemma_hex_round_trip(ct);
    let i = a.len() as int;
    let j = i + 1 + b.len();
    assert(s.subrange(0, i) =~= a);
    assert(s.subrange(i + 1, j) =~= b);
    assert(s.subrange(j + 1, s.len() as int) =~= c);
    assert(s.subrange(i, i + 1) =~= colon());
    assert(s.subrange(j, j + 1) =~= colon());
    lemma_no_colon_in_hex(a, s, 0);
    lemma_no_colon_in_hex(b, s, i + 1);
    lemma_no_colon_in_hex(c, s, j + 1);
    lemma_find_spec_at(s, colon(), 0, i);
    lemma_find_spec_at(s, colon(), i + 1, j);
    lemma_find_spec_none(s, colon(), j + 1);
}

/// Opens a ciphertext with a key and a nonce and reads the message as text.
pub fn open_sealed(key: &[u8], nonce: &[u8], ct: &[u8]) -> (r: Result<String, CodecError>)
    requires
        key@.len() == KEY_LEN,
        nonce@.len() == NONCE_LEN,
    ensures
        opening(text_result(r), key@, nonce@, ct@),
        ct@.len() < 16 ==> r == Err::<String, CodecError>(CodecError::Authentication),
{
    let res = aead_decrypt(key, nonce, ct);
    match res {
        None => {
            proof {
                assert forall|p: Seq<char>| !opens_to(key@, nonce@, ct@, p) by {
                    if opens_to(key@, nonce@, ct@, p) {
                        let m = encode_utf8(p);
                        assert(ct@ == aead_seal(key@, nonce@, m));
                    }
                }
                assert(!authentic(key@, nonce@, ct@)) by {
                    if authentic(key@, nonce@, ct@) {
                        let m = choose|m: Seq<u8>|
                            aead_fits(m.len() as int) && ct@ == #[trigger] aead_seal(
                                key@,
                                nonce@,
                                m,
                            );
                        assert(ct@ == aead_seal(key@, nonce@, m));
                    }
                }
            }
            Err(CodecError::Authentication)
        },
        Some(m) => {
            let ghost mb = m@;
            proof {
                assert(authentic(key@, nonce@, ct@)) by {
                    assert(ct@ == aead_seal(key@, nonce@, mb));
                }
            }
            match text_from_utf8(m) {
                Some(t) => {
                    proof {
                        vstd::utf8::decode_utf8_encode_utf8(mb);
                        assert(encode_utf8(t@) == mb);
                        assert forall|p: Seq<char>| opens_to(key@, nonce@, ct@, p) implies p
                            == t@ by {
                            let m2 = encode_utf8(p);
                            assert(ct@ == aead_seal(key@, nonce@, m2));
                            vstd::utf8::encode_utf8_decode_utf8(p);
                        }
                    }
                    Ok(t)
                },
                None => {
                    proof {
                        assert forall|p: Seq<char>| !opens_to(key@, nonce@, ct@, p) by {
                            if opens_to(key@, nonce@, ct@, p) {
                                let m2 = encode_utf8(p);
                                assert(ct@ == aead_seal(key@, nonce@, m2));
                                vstd::utf8::encode_utf8_valid_utf8(p);
                            }
                        }
                    }
                    Err(CodecError::Encoding)
                },
            }
        },
    }
}

/// Opening a ciphertext has one outcome.
pub proof fn lemma_opening_unique(
    r1: Result<Seq<char>, CodecError>,
    r2: Result<Seq<char>, CodecError>,
    key: Seq<u8>,
    nonce: Seq<u8>,
    ct: Seq<u8>,
)
    requires
        opening(r1, key, nonce, ct),
        opening(r2, key, nonce, ct),
    ensures
        r1 == r2,
{
    if r1 is Ok {
        assert(opens_to(key, nonce, ct, r1->Ok_0));
    } else if r2 is Ok {
        assert(opens_to(key, nonce, ct, r2->Ok_0));
    }
}

} // verus!
