//! Signed blobs: `hex(data)` followed by the hex signature between
//! `-----BEGIN SIGNATURE-----` and `-----END SIGNATURE-----` lines, and the
//! Ed25519 signatures that the classical exchange puts in them.
use crate::encoding::{hex_bytes, hex_decode, hex_encode, hex_text, is_hex_char, is_hex_text,
    lemma_hex_round_trip, lemma_hex_text_chars};
use crate::text::{
    chars_of, find_from, find_spec, is_space, lemma_find_spec_at, lemma_find_spec_result, occurs_at,
    trim, trim_end, trim_start, trimmed_slice,
};
use ed25519_dalek::{Signer, Verifier};
use vstd::prelude::*;

verus! {

pub open spec fn sig_begin() -> Seq<char> {
    "-----BEGIN SIGNATURE-----"@
}

pub open spec fn sig_end() -> Seq<char> {
    "-----END SIGNATURE-----"@
}

pub open spec fn newline() -> Seq<char> {
    seq!['\n']
}

/// The text of a signed blob.
pub open spec fn signed_blob_text(data: Seq<u8>, sig: Seq<u8>) -> Seq<char> {
    hex_text(data) + sig_begin() + newline() + hex_text(sig) + newline() + sig_end()
}

/// Data and signature of a signed blob: the trimmed hex before the first
/// begin marker, and the trimmed hex between it and the first end marker
/// after it.
pub open spec fn parse_signed_blob(s: Seq<char>) -> Option<(Seq<u8>, Seq<u8>)> {
    match find_spec(s, sig_begin(), 0) {
        None => None,
        Some(i) => {
            let from = i + sig_begin().len();
            match find_spec(s, sig_end(), from) {
                None => None,
                Some(j) => {
                    let d = trim(s.subrange(0, i));
                    let g = trim(s.subrange(from, j));
                    if is_hex_text(d) && is_hex_text(g) {
                        Some((hex_bytes(d), hex_bytes(g)))
                    } else {
                        None
                    }
                },
            }
        },
    }
}

/// Lays out a signed blob.
pub fn format_signed_blob(data: &[u8], sig: &[u8]) -> (r: String)
    ensures
        r@ == signed_blob_text(data@, sig@),
{
    let nl = "\n";
    proof {
        reveal_strlit("\n");
    }
    let mut out = hex_encode(data);
    out.append("-----BEGIN SIGNATURE-----");
    out.append(nl);
    let s = hex_encode(sig);
    out.append(s.as_str());
    out.append(nl);
    out.append("-----END SIGNATURE-----");
    assert(out@ =~= signed_blob_text(data@, sig@));
    out
}

/// Splits a signed blob into its data and signature bytes.
pub fn split_signed_blob(s: &str) -> (r: Option<(Vec<u8>, Vec<u8>)>)
    ensures
        match r {
            Some((d, g)) => parse_signed_blob(s@) == Some((d@, g@)),
            None => parse_signed_blob(s@) is None,
        },
{
    let v = chars_of(s);
    let begin = chars_of("-----BEGIN SIGNATURE-----");
    let end = chars_of("-----END SIGNATURE-----");
    let i = match find_from(&v, &begin, 0) {
        Some(i) => i,
        None => return None,
    };
    proof {
        lemma_find_spec_result(v@, sig_begin(), 0);
    }
    assert(i + begin.len() <= v.len());
    let from = i + begin.len();
    let j = match find_from(&v, &end, from) {
        Some(j) => j,
        None => return None,
    };
    proof {
        lemma_find_spec_result(v@, sig_end(), from as int);
    }
    let d = trimmed_slice(&v, 0, i);
    let g = trimmed_slice(&v, from, j);
    let data = match hex_decode(d.as_slice()) {
        Some(x) => x,
        None => return None,
    };
    let sig = match hex_decode(g.as_slice()) {
        Some(x) => x,
        None => return None,
    };
    Some((data, sig))
}

/// Hex text is its own trim, and so is it with one newline on each side.
proof fn lemma_trim_hex(t: Seq<char>)
    requires
        forall|k: int| 0 <= k < t.len() ==> is_hex_char(#[trigger] t[k]),
    ensures
        trim(t) == t,
        trim(newline() + t + newline()) == t,
{
    if t.len() > 0 {
        assert(is_hex_char(t[0]));
        assert(is_hex_char(t.last()));
    }
    let x = newline() + t + newline();
    assert(is_space(x[0]));
    assert(x.drop_first() =~= t + newline());
    let y = t + newline();
    if t.len() > 0 {
        assert(y[0] == t[0]);
        assert(is_hex_char(t[0]));
        assert(!is_space(y[0]));
        assert(trim_start(y) == y);
        assert(trim_start(x) == trim_start(x.drop_first()));
        assert(trim_start(x) == y);
    } else {
        assert(y =~= newline());
        assert(y.drop_first() =~= Seq::<char>::empty());
        assert(trim_start(y) == trim_start(y.drop_first()));
        assert(trim_start(x) == Seq::<char>::empty());
        assert(y.drop_last() =~= t);
    }
    assert(y.drop_last() =~= t);
    assert(is_space(y.last()));
    if t.len() > 0 {
        assert(trim_end(y) == trim_end(t));
    }
}

/// No marker that starts with a dash begins inside text without dashes.
proof fn lemma_no_dash_marker(whole: Seq<char>, marker: Seq<char>, lo: int, hi: int)
    requires
        marker.len() > 0,
        marker[0] == '-',
        0 <= lo <= hi <= whole.len(),
        forall|k: int| lo <= k < hi ==> whole[k] != '-',
    ensures
        forall|j: int| lo <= j < hi ==> !occurs_at(whole, marker, j),
{
    assert forall|j: int| lo <= j < hi implies !occurs_at(whole, marker, j) by {
        if occurs_at(whole, marker, j) {
            assert(whole.subrange(j, j + marker.len())[0] == whole[j]);
        }
    }
}

/// A signed blob laid out by `format_signed_blob` splits back into its data
/// and signature.
pub proof fn lemma_signed_blob_round_trip(data: Seq<u8>, sig: Seq<u8>)
    ensures
        parse_signed_blob(signed_blob_text(data, sig)) == Some((data, sig)),
{
    reveal_strlit("-----BEGIN SIGNATURE-----");
    reveal_strlit("-----END SIGNATURE-----");
    let h = hex_text(data);
    let g = hex_text(sig);
    let s = signed_blob_text(data, sig);
    lemma_hex_text_chars(data);
    lemma_hex_text_chars(sig);
    lemma_hex_round_trip(data);
    lemma_hex_round_trip(sig);
    let i = h.len() as int;
    let from = i + sig_begin().len();
    let j = from + 1 + g.len() + 1;
    assert(s.subrange(0, i) =~= h);
    assert(s.subrange(i, from) =~= sig_begin());
    assert(s.subrange(from, j) =~= newline() + g + newline());
    assert(s.subrange(j, j + sig_end().len()) =~= sig_end());
    assert forall|k: int| 0 <= k < i implies s[k] != '-' by {
        assert(s[k] == h[k]);
        assert(is_hex_char(h[k]));
    }
    assert forall|k: int| from <= k < j implies s[k] != '-' by {
        if k == from || k == j - 1 {
            assert(s[k] == '\n');
        } else {
            assert(s[k] == g[k - from - 1]);
            assert(is_hex_char(g[k - from - 1]));
        }
    }
    lemma_no_dash_marker(s, sig_begin(), 0, i);
    lemma_no_dash_marker(s, sig_end(), from, j);
    lemma_find_spec_at(s, sig_begin(), 0, i);
    lemma_find_spec_at(s, sig_end(), from, j);
    lemma_trim_hex(h);
    lemma_trim_hex(g);
}

/// The Ed25519 public key of a 32-byte secret seed.
pub uninterp spec fn ed25519_public(seed: Seq<u8>) -> Seq<u8>;

/// The Ed25519 signature of `msg` under a 32-byte secret seed.
pub uninterp spec fn ed25519_signature(seed: Seq<u8>, msg: Seq<u8>) -> Seq<u8>;

/// Ed25519 verification of `sig` over `msg` under the public key `pk`.
pub uninterp spec fn ed25519_accepts(pk: Seq<u8>, msg: Seq<u8>, sig: Seq<u8>) -> bool;

/// A signature made with the seed whose public key is `pk`.
pub open spec fn made_by_key_owner(pk: Seq<u8>, msg: Seq<u8>, sig: Seq<u8>) -> bool {
    exists|seed: Seq<u8>|
        seed.len() == 32 && pk == ed25519_public(seed) && sig == #[trigger] ed25519_signature(
            seed,
            msg,
        )
}

/// Relies on `SigningKey::from_bytes(..).verifying_key()`: the public key of the seed.
#[verifier::external_body]
pub(crate) fn ed25519_public_key(seed: &[u8]) -> (r: Vec<u8>)
    requires
        seed@.len() == 32,
    ensures
        r@ == ed25519_public(seed@),
        r@.len() == 32,
{
    let seed: [u8; 32] = seed.try_into().unwrap();
    ed25519_dalek::SigningKey::from_bytes(&seed).verifying_key().to_bytes().to_vec()
}

/// Relies on `Signer::sign` of `SigningKey::from_bytes(seed)`: the
/// deterministic 64-byte signature of RFC 8032.
#[verifier::external_body]
pub(crate) fn ed25519_sign(seed: &[u8], msg: &[u8]) -> (r: Vec<u8>)
    requires
        seed@.len() == 32,
    ensures
        r@ == ed25519_signature(seed@, msg@),
        r@.len() == 64,
{
    let seed: [u8; 32] = seed.try_into().unwrap();
    ed25519_dalek::SigningKey::from_bytes(&seed).sign(msg).to_bytes().to_vec()
}

/// Relies on `VerifyingKey::from_bytes` and `Verifier::verify`: false for a
/// key that is not a curve point, and true for a signature that the owner of
/// the key made over this message.
#[verifier::external_body]
pub(crate) fn ed25519_verify(pk: &[u8], msg: &[u8], sig: &[u8]) -> (r: bool)
    requires
        pk@.len() == 32,
        sig@.len() == 64,
    ensures
        r == ed25519_accepts(pk@, msg@, sig@),
        made_by_key_owner(pk@, msg@, sig@) ==> r,
{
    let pk: [u8; 32] = pk.try_into().unwrap();
    let sig: [u8; 64] = sig.try_into().unwrap();
    match ed25519_dalek::VerifyingKey::from_bytes(&pk) {
        Ok(key) => key.verify(msg, &ed25519_dalek::Signature::from_bytes(&sig)).is_ok(),
        Err(_) => false,
    }
}

/// The Ed25519 public key of a 32-byte secret seed.
pub fn eddsa_public_key(seed: &[u8]) -> (r: Vec<u8>)
    requires
        seed@.len() == 32,
    ensures
        r@ == ed25519_public(seed@),
        r@.len() == 32,
{
    ed25519_public_key(seed)
}

/// A fresh Ed25519 identity from the operating system's generator: the
/// 32-byte secret seed and its public key.
pub fn generate_eddsa_keys() -> (r: (Vec<u8>, Vec<u8>))
    ensures
        r.0@.len() == 32,
        r.1@ == ed25519_public(r.0@),
        r.1@.len() == 32,
{
    let seed = crate::envelope::random_bytes(32);
    let public = ed25519_public_key(seed.as_slice());
    (seed, public)
}

/// Why a signed blob was refused.
#[derive(Clone, Copy, Debug, PartialEq, Eq, Structural)]
pub enum SignatureError {
    /// Markers missing, or data or signature not hex.
    Malformed,
    /// The signature is not 64 bytes.
    BadLength,
    /// The signature does not verify under the key.
    Rejected,
}

/// The verdict on a signed blob under an Ed25519 public key.
pub open spec fn blob_verdict(blob: Seq<char>, pk: Seq<u8>) -> Result<bool, SignatureError> {
    match parse_signed_blob(blob) {
        None => Err(SignatureError::Malformed),
        Some((data, sig)) => if sig.len() != 64 {
            Err(SignatureError::BadLength)
        } else if ed25519_accepts(pk, data, sig) {
            Ok(true)
        } else {
            Err(SignatureError::Rejected)
        },
    }
}

/// Signs `data` with the Ed25519 seed and lays out the signed blob.
pub fn sign_data_with_eddsa(data: &[u8], eddsa_sk: &[u8]) -> (r: String)
    requires
        eddsa_sk@.len() == 32,
    ensures
        r@ == signed_blob_text(data@, ed25519_signature(eddsa_sk@, data@)),
{
    let sig = ed25519_sign(eddsa_sk, data);
    format_signed_blob(data, sig.as_slice())
}

/// Checks a signed blob against an Ed25519 public key. A blob that the owner
/// of the key signed is accepted.
pub fn verify_signature_with_eddsa(signature_with_data: &str, eddsa_pk: &[u8]) -> (r: Result<
    bool,
    SignatureError,
>)
    requires
        eddsa_pk@.len() == 32,
    ensures
        r == blob_verdict(signature_with_data@, eddsa_pk@),
        forall|seed: Seq<u8>, data: Seq<u8>|
            seed.len() == 32 && eddsa_pk@ == ed25519_public(seed) && ed25519_signature(
                seed,
                data,
            ).len() == 64 && signature_with_data@ == #[trigger] signed_blob_text(
                data,
                ed25519_signature(seed, data),
            ) ==> r == Ok::<bool, SignatureError>(true),
{
    let (data, sig) = match split_signed_blob(signature_with_data) {
        Some(p) => p,
        None => {
            proof {
                assert forall|seed: Seq<u8>, data: Seq<u8>|
                    signature_with_data@ != #[trigger] signed_blob_text(
                        data,
                        ed25519_signature(seed, data),
                    ) by {
                    lemma_signed_blob_round_trip(data, ed25519_signature(seed, data));
                }
            }
            return Err(SignatureError::Malformed);
        },
    };
    if sig.len() != 64 {
        proof {
            assert forall|seed: Seq<u8>, d: Seq<u8>|
                ed25519_signature(seed, d).len() == 64 implies signature_with_data@
                != #[trigger] signed_blob_text(d, ed25519_signature(seed, d)) by {
                lemma_signed_blob_round_trip(d, ed25519_signature(seed, d));
            }
        }
        return Err(SignatureError::BadLength);
    }
    let ok = ed25519_verify(eddsa_pk, data.as_slice(), sig.as_slice());
    proof {
        assert forall|seed: Seq<u8>, d: Seq<u8>|
            seed.len() == 32 && eddsa_pk@ == ed25519_public(seed) && ed25519_signature(seed, d).len()
                == 64 && signature_with_data@ == #[trigger] signed_blob_text(
                d,
                ed25519_signature(seed, d),
            ) implies ok by {
            lemma_signed_blob_round_trip(d, ed25519_signature(seed, d));
            assert(data@ == d && sig@ == ed25519_signature(seed, d));
            assert(made_by_key_owner(eddsa_pk@, data@, sig@));
        }
    }
    if ok {
        Ok(true)
    } else {
        Err(SignatureError::Rejected)
    }
}

} // verus!
