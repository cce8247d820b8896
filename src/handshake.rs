//! The hybrid handshake: who plays which part in the key encapsulation, the
//! signed X25519 exchange, and the combination of both secrets into the
//! session secret.
use crate::digest::{concat_bytes, sha256, sha256_digest};
use crate::encoding::{hex_bytes, hex_decode, hex_encode, hex_text, is_hex_text, lemma_hex_text_injective};
use crate::relay::{
    all_tagged, end_data, first_delimited, first_tagged, tagged_message, CIPHERTEXT_PREFIX,
    ECDH_PREFIX, KYBER_PREFIX,
};
use crate::signing::{
    blob_verdict, ed25519_signature, format_signed_blob, parse_signed_blob, sign_data_with_eddsa, signed_blob_text,
    split_signed_blob, verify_signature_with_eddsa, SignatureError,
};
use crate::text::{chars_of, views};
use base64::Engine;
use vstd::prelude::*;
use vstd::utf8::encode_utf8;

verus! {

/// The part a party plays in the key encapsulation.
#[derive(Clone, Copy, Debug, PartialEq, Eq, Structural)]
pub enum KemRole {
    /// Found no key on the relay: publishes its own and waits for a ciphertext.
    Initiator,
    /// Found the peer's key: encapsulates against it and publishes the signed ciphertext.
    Responder,
}

/// The role given by what the relay held under the encapsulation key tag.
pub fn choose_kem_role(peer_public_key: &Option<String>) -> (r: KemRole)
    ensures
        r == KemRole::Responder <==> (peer_public_key matches Some(k) && k@.len() > 0),
{
    match peer_public_key {
        Some(k) => if k.as_str().is_empty() {
            KemRole::Initiator
        } else {
            KemRole::Responder
        },
        None => KemRole::Initiator,
    }
}

/// The message that announces an encapsulation public key.
pub fn kyber_pubkey_message(public_key_hex: &str) -> (r: String)
    ensures
        r@ == KYBER_PREFIX@ + public_key_hex@ + end_data(),
{
    tagged_message(KYBER_PREFIX, public_key_hex)
}

/// The message that carries a signed encapsulation ciphertext.
pub fn ciphertext_message(signed_ciphertext: &str) -> (r: String)
    ensures
        r@ == CIPHERTEXT_PREFIX@ + signed_ciphertext@ + end_data(),
{
    tagged_message(CIPHERTEXT_PREFIX, signed_ciphertext)
}

/// Why the encapsulation exchange stopped or must wait again.
#[derive(Clone, Copy, Debug, PartialEq, Eq, Structural)]
pub enum KemError {
    /// The peer's published key is not hex.
    MalformedPeerKey,
    /// The signed ciphertext on the relay is not a signed blob.
    MalformedCiphertext,
    /// No trusted key verifies the ciphertext's signature.
    SignatureVerificationFailed,
}

/// What a party does first in the encapsulation exchange.
#[derive(Debug)]
pub enum KemStep {
    /// Publish this message, which announces our key, and wait for a ciphertext.
    PublishKeyAndWait(String),
    /// Encapsulate against the peer's key, these bytes, and publish the signed ciphertext.
    Encapsulate(Vec<u8>),
}

/// The first step, from what the relay held under the encapsulation key tag
/// and our own public key in hex.
pub fn kem_first_step(peer_public_key: &Option<String>, own_public_hex: &str) -> (r: Result<
    KemStep,
    KemError,
>)
    ensures
        match peer_public_key {
            Some(k) if k@.len() > 0 => if is_hex_text(k@) {
                r matches Ok(KemStep::Encapsulate(b)) && b@ == hex_bytes(k@)
            } else {
                r == Err::<KemStep, KemError>(KemError::MalformedPeerKey)
            },
            _ => r matches Ok(KemStep::PublishKeyAndWait(m)) && m@ == KYBER_PREFIX@
                + own_public_hex@ + end_data(),
        },
{
    match choose_kem_role(peer_public_key) {
        KemRole::Initiator => Ok(KemStep::PublishKeyAndWait(kyber_pubkey_message(own_public_hex))),
        KemRole::Responder => {
            let k = match peer_public_key {
                Some(k) => k,
                None => return Err(KemError::MalformedPeerKey),
            };
            let text = chars_of(k.as_str());
            match hex_decode(text.as_slice()) {
                Some(b) => Ok(KemStep::Encapsulate(b)),
                None => Err(KemError::MalformedPeerKey),
            }
        },
    }
}

/// The responder's message: the ciphertext and its signature as a signed
/// blob under the ciphertext tag.
pub fn responder_message(ciphertext: &[u8], signature: &[u8]) -> (r: String)
    ensures
        r@ == CIPHERTEXT_PREFIX@ + signed_blob_text(ciphertext@, signature@) + end_data(),
{
    let blob = format_signed_blob(ciphertext, signature);
    ciphertext_message(blob.as_str())
}

/// The signed ciphertext in a relay body, as ciphertext and signature bytes:
/// none while the responder has not published it.
pub fn ciphertext_from_relay(body: &str) -> (r: Option<Result<(Vec<u8>, Vec<u8>), KemError>>)
    ensures
        match first_delimited(body@, CIPHERTEXT_PREFIX@, end_data()) {
            None => r is None,
            Some(blob) => match parse_signed_blob(blob) {
                None => r == Some(Err::<(Vec<u8>, Vec<u8>), KemError>(KemError::MalformedCiphertext)),
                Some((ct, sig)) => r matches Some(Ok((c, s))) && c@ == ct && s@ == sig,
            },
        },
{
    match first_tagged(body, CIPHERTEXT_PREFIX) {
        None => None,
        Some(blob) => match split_signed_blob(blob.as_str()) {
            Some(p) => Some(Ok(p)),
            None => Some(Err(KemError::MalformedCiphertext)),
        },
    }
}

/// The initiator's verdict on a signed ciphertext, from whether each trusted
/// signature key verifies it: accepted when one of them does.
pub fn initiator_verdict(verdicts: &Vec<bool>) -> (r: Result<(), KemError>)
    ensures
        r is Ok <==> exists|i: int| 0 <= i < verdicts@.len() && verdicts@[i],
        r is Err ==> r == Err::<(), KemError>(KemError::SignatureVerificationFailed),
{
    let mut i: usize = 0;
    while i < verdicts.len()
        invariant
            i <= verdicts@.len(),
            forall|k: int| 0 <= k < i ==> !verdicts@[k],
        decreases verdicts@.len() - i,
    {
        if verdicts[i] {
            return Ok(());
        }
        i = i + 1;
    }
    Err(KemError::SignatureVerificationFailed)
}

/// The text form of an encapsulated secret: hex of its SHA-256 digest.
pub open spec fn kem_secret(shared_secret: Seq<u8>) -> Seq<char> {
    hex_text(sha256(shared_secret))
}

/// The text form of the secret that the key encapsulation agreed on.
pub fn kem_secret_text(shared_secret: &[u8]) -> (r: String)
    ensures
        r@ == kem_secret(shared_secret@),
{
    let digest = sha256_digest(shared_secret);
    hex_encode(digest.as_slice())
}

/// The session secret: hex of SHA-256 over the encapsulation secret's bytes
/// followed by the Diffie-Hellman secret's bytes.
pub open spec fn combined_secret(kyber_secret: Seq<char>, ecdh_secret: Seq<char>) -> Seq<char> {
    hex_text(sha256(encode_utf8(kyber_secret) + encode_utf8(ecdh_secret)))
}

/// Combines the two sub-exchange secrets, encapsulation secret first.
pub fn combine_shared_secrets(kyber_secret: &str, ecdh_secret: &str) -> (r: String)
    ensures
        r@ == combined_secret(kyber_secret@, ecdh_secret@),
{
    let input = concat_bytes(kyber_secret.as_bytes(), ecdh_secret.as_bytes());
    let digest = sha256_digest(input.as_slice());
    hex_encode(digest.as_slice())
}

/// The session secret depends on the two secrets alone, and two pairs give
/// the same session secret exactly when the digests of their concatenated
/// bytes agree.
pub proof fn lemma_combine_deterministic(a: Seq<char>, b: Seq<char>, c: Seq<char>, d: Seq<char>)
    ensures
        a == c && b == d ==> combined_secret(a, b) == combined_secret(c, d),
        combined_secret(a, b) == combined_secret(c, d) <==> sha256(encode_utf8(a) + encode_utf8(b))
            == sha256(encode_utf8(c) + encode_utf8(d)),
{
    lemma_hex_text_injective(
        sha256(encode_utf8(a) + encode_utf8(b)),
        sha256(encode_utf8(c) + encode_utf8(d)),
    );
}

/// X25519 of RFC 7748: the clamped scalar times the Montgomery point.
pub uninterp spec fn x25519(scalar: Seq<u8>, point: Seq<u8>) -> Seq<u8>;

/// Relies on `x25519_dalek::x25519`: the bare RFC 7748 function on 32-byte values.
#[verifier::external_body]
fn x25519_mul(scalar: &[u8], point: &[u8]) -> (r: Vec<u8>)
    requires
        scalar@.len() == 32,
        point@.len() == 32,
    ensures
        r@ == x25519(scalar@, point@),
        r@.len() == 32,
{
    let k: [u8; 32] = scalar.try_into().unwrap();
    let u: [u8; 32] = point.try_into().unwrap();
    x25519_dalek::x25519(k, u).to_vec()
}

/// The standard base point, u = 9.
pub open spec fn base_point() -> Seq<u8> {
    Seq::new(32, |i: int| if i == 0 { 9u8 } else { 0u8 })
}

/// The public key of an X25519 secret scalar.
pub fn dh_public_key(scalar: &[u8]) -> (r: Vec<u8>)
    requires
        scalar@.len() == 32,
    ensures
        r@ == x25519(scalar@, base_point()),
        r@.len() == 32,
{
    let mut base: Vec<u8> = vec![0u8; 32];
    base.set(0, 9u8);
    assert(base@ =~= base_point());
    x25519_mul(scalar, base.as_slice())
}

/// The character of a 6-bit value in the standard base64 alphabet.
pub open spec fn base64_digit(n: int) -> char {
    if n < 26 {
        (65 + n) as char
    } else if n < 52 {
        (97 + n - 26) as char
    } else if n < 62 {
        (48 + n - 52) as char
    } else if n == 62 {
        '+'
    } else {
        '/'
    }
}

/// Standard base64 of a byte string: four characters for each three bytes,
/// and `=` padding after a last group of one or two bytes.
pub open spec fn base64_text(b: Seq<u8>) -> Seq<char>
    decreases b.len(),
{
    if b.len() == 0 {
        seq![]
    } else if b.len() == 1 {
        seq![base64_digit((b[0] as int) / 4), base64_digit(((b[0] as int) % 4) * 16), '=', '=']
    } else if b.len() == 2 {
        seq![
            base64_digit((b[0] as int) / 4),
            base64_digit(((b[0] as int) % 4) * 16 + (b[1] as int) / 16),
            base64_digit(((b[1] as int) % 16) * 4),
            '=',
        ]
    } else {
        seq![
            base64_digit((b[0] as int) / 4),
            base64_digit(((b[0] as int) % 4) * 16 + (b[1] as int) / 16),
            base64_digit(((b[1] as int) % 16) * 4 + (b[2] as int) / 64),
            base64_digit((b[2] as int) % 64),
        ] + base64_text(b.subrange(3, b.len() as int))
    }
}

/// Relies on `base64::engine::general_purpose::STANDARD.encode`: standard
/// alphabet, with padding.
#[verifier::external_body]
fn base64_encode(b: &[u8]) -> (r: String)
    ensures
        r@ == base64_text(b@),
{
    base64::engine::general_purpose::STANDARD.encode(b)
}

/// The text form of a Diffie-Hellman secret: base64 of the X25519 output.
pub open spec fn dh_secret(scalar: Seq<u8>, peer_public: Seq<u8>) -> Seq<char> {
    base64_text(x25519(scalar, peer_public))
}

/// The Diffie-Hellman secret with the peer's public key, as text.
pub fn dh_secret_text(scalar: &[u8], peer_public: &[u8]) -> (r: String)
    requires
        scalar@.len() == 32,
        peer_public@.len() == 32,
    ensures
        r@ == dh_secret(scalar@, peer_public@),
{
    let shared = x25519_mul(scalar, peer_public);
    base64_encode(shared.as_slice())
}

/// A payload under the exchange tag that carries the peer's key: not our own
/// announcement, signed under the peer's key, with 32 bytes of data.
pub open spec fn peer_dh_payload(payload: Seq<char>, own: Seq<char>, peer_signing_key: Seq<u8>) -> bool {
    &&& payload != own
    &&& blob_verdict(payload, peer_signing_key) == Ok::<bool, SignatureError>(true)
    &&& parse_signed_blob(payload) matches Some((data, _)) && data.len() == 32
}

/// The data of the first peer payload at or after position `k`.
pub open spec fn first_peer_dh(
    payloads: Seq<Seq<char>>,
    own: Seq<char>,
    peer_signing_key: Seq<u8>,
    k: int,
) -> Option<Seq<u8>>
    decreases payloads.len() - k,
{
    if k < 0 || k >= payloads.len() {
        None
    } else if peer_dh_payload(payloads[k], own, peer_signing_key) {
        Some(parse_signed_blob(payloads[k])->Some_0.0)
    } else {
        first_peer_dh(payloads, own, peer_signing_key, k + 1)
    }
}

/// One party's side of the signed X25519 exchange.
pub struct EcdhExchange {
    /// The ephemeral secret scalar.
    pub scalar: Vec<u8>,
    /// Our ephemeral public key, signed with our Ed25519 identity seed.
    pub signed_public: String,
    /// The peer's confirmed Ed25519 public key.
    pub peer_signing_key: Vec<u8>,
}

impl EcdhExchange {
    pub open spec fn well_formed(&self) -> bool {
        self.scalar@.len() == 32 && self.peer_signing_key@.len() == 32
    }

    /// Starts the exchange from a fresh 32-byte scalar, our Ed25519 seed and
    /// the peer's Ed25519 public key.
    pub fn start(scalar: Vec<u8>, signing_seed: &[u8], peer_signing_key: Vec<u8>) -> (r: EcdhExchange)
        requires
            scalar@.len() == 32,
            signing_seed@.len() == 32,
            peer_signing_key@.len() == 32,
        ensures
            r.well_formed(),
            r.scalar@ == scalar@,
            r.peer_signing_key@ == peer_signing_key@,
            r.signed_public@ == signed_blob_text(
                x25519(scalar@, base_point()),
                ed25519_signature(signing_seed@, x25519(scalar@, base_point())),
            ),
    {
        let public = dh_public_key(scalar.as_slice());
        let signed_public = sign_data_with_eddsa(public.as_slice(), signing_seed);
        EcdhExchange { scalar, signed_public, peer_signing_key }
    }

    /// The message that publishes our signed ephemeral key.
    pub fn announcement(&self) -> (r: String)
        ensures
            r@ == ECDH_PREFIX@ + self.signed_public@ + end_data(),
    {
        tagged_message(ECDH_PREFIX, self.signed_public.as_str())
    }

    /// The peer's ephemeral public key, from the first payload in a relay
    /// body that carries it.
    pub fn find_peer_key(&self, body: &str) -> (r: Option<Vec<u8>>)
        requires
            self.well_formed(),
        ensures
            match r {
                Some(k) => first_peer_dh(
                    crate::relay::delimited_from(body@, ECDH_PREFIX@, end_data(), 0),
                    self.signed_public@,
                    self.peer_signing_key@,
                    0,
                ) == Some(k@),
                None => first_peer_dh(
                    crate::relay::delimited_from(body@, ECDH_PREFIX@, end_data(), 0),
                    self.signed_public@,
                    self.peer_signing_key@,
                    0,
                ) is None,
            },
            r matches Some(k) ==> k@.len() == 32,
    {
        let payloads = all_tagged(body, ECDH_PREFIX);
        let ghost ps = views(payloads@);
        let mut k: usize = 0;
        while k < payloads.len()
            invariant
                ps == views(payloads@),
                ps == crate::relay::delimited_from(body@, ECDH_PREFIX@, end_data(), 0),
                ps.len() == payloads@.len(),
                k <= payloads@.len(),
                self.well_formed(),
                first_peer_dh(ps, self.signed_public@, self.peer_signing_key@, 0) == first_peer_dh(
                    ps,
                    self.signed_public@,
                    self.peer_signing_key@,
                    k as int,
                ),
            decreases payloads@.len() - k,
        {
            let p = &payloads[k];
            assert(ps[k as int] == p@);
            if *p != self.signed_public {
                let verdict = verify_signature_with_eddsa(p.as_str(), self.peer_signing_key.as_slice());
                if matches!(verdict, Ok(true)) {
                    match split_signed_blob(p.as_str()) {
                        Some((data, _)) => {
                            if data.len() == 32 {
                                assert(p@ != self.signed_public@);
                                assert(blob_verdict(p@, self.peer_signing_key@) == Ok::<
                                    bool,
                                    SignatureError,
                                >(true));
                                assert(peer_dh_payload(ps[k as int], self.signed_public@, self.peer_signing_key@));
                                assert(first_peer_dh(ps, self.signed_public@, self.peer_signing_key@, k as int) == Some(data@));
                                return Some(data);
                            }
                        },
                        None => {},
                    }
                }
            }
            k = k + 1;
        }
        None
    }

    /// The Diffie-Hellman secret, once a relay body carries the peer's key.
    pub fn shared_secret_from(&self, body: &str) -> (r: Option<String>)
        requires
            self.well_formed(),
        ensures
            match first_peer_dh(
                crate::relay::delimited_from(body@, ECDH_PREFIX@, end_data(), 0),
                self.signed_public@,
                self.peer_signing_key@,
                0,
            ) {
                Some(k) => r matches Some(s) && s@ == dh_secret(self.scalar@, k),
                None => r is None,
            },
    {
        match self.find_peer_key(body) {
            Some(k) => Some(dh_secret_text(self.scalar.as_slice(), k.as_slice())),
            None => None,
        }
    }
}

/// Where the hybrid handshake stands: the secrets of the two sub-exchanges
/// that have completed so far.
pub struct HybridHandshake {
    kem: Option<String>,
    dh: Option<String>,
}

impl HybridHandshake {
    pub closed spec fn kem_secret_spec(&self) -> Option<Seq<char>> {
        match self.kem {
            Some(s) => Some(s@),
            None => None,
        }
    }

    pub closed spec fn dh_secret_spec(&self) -> Option<Seq<char>> {
        match self.dh {
            Some(s) => Some(s@),
            None => None,
        }
    }

    /// Neither sub-exchange has completed.
    pub fn new() -> (r: HybridHandshake)
        ensures
            r.kem_secret_spec() is None,
            r.dh_secret_spec() is None,
    {
        HybridHandshake { kem: None, dh: None }
    }

    /// Records the secret of the encapsulation exchange.
    pub fn record_kem_secret(&mut self, secret: String)
        ensures
            final(self).kem_secret_spec() == Some(secret@),
            final(self).dh_secret_spec() == old(self).dh_secret_spec(),
    {
        self.kem = Some(secret);
    }

    /// Completes the Diffie-Hellman exchange from a relay body when it
    /// carries a peer key signed under the peer's confirmed key; otherwise
    /// nothing changes.
    pub fn record_dh_from_relay(&mut self, exchange: &EcdhExchange, body: &str) -> (r: bool)
        requires
            exchange.well_formed(),
        ensures
            final(self).kem_secret_spec() == old(self).kem_secret_spec(),
            match first_peer_dh(
                crate::relay::delimited_from(body@, ECDH_PREFIX@, end_data(), 0),
                exchange.signed_public@,
                exchange.peer_signing_key@,
                0,
            ) {
                Some(k) => r && final(self).dh_secret_spec() == Some(dh_secret(exchange.scalar@, k)),
                None => !r && final(self).dh_secret_spec() == old(self).dh_secret_spec(),
            },
    {
        match exchange.shared_secret_from(body) {
            Some(s) => {
                self.dh = Some(s);
                true
            },
            None => false,
        }
    }

    /// The session secret, once both sub-exchanges have completed.
    pub fn session_secret(&self) -> (r: Option<String>)
        ensures
            match (self.kem_secret_spec(), self.dh_secret_spec()) {
                (Some(k), Some(d)) => r matches Some(s) && s@ == combined_secret(k, d),
                _ => r is None,
            },
    {
        match (&self.kem, &self.dh) {
            (Some(k), Some(d)) => Some(combine_shared_secrets(k.as_str(), d.as_str())),
            _ => None,
        }
    }
}

} // verus!
