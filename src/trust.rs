//! Fingerprints of public keys, the set of fingerprints a session has
//! accepted, and the choice of which announced key to put to the user next.
use crate::digest::{sha256, sha256_digest};
use crate::encoding::{hex_bytes, hex_decode, hex_encode, hex_text, is_hex_text,
    lemma_hex_text_injective};
use crate::text::{chars_of, string_of, trim, trimmed_slice, views};
use vstd::prelude::*;

verus! {

/// The fingerprint of a public key: the hex text of the SHA-256 digest of its bytes.
pub open spec fn fingerprint(key: Seq<u8>) -> Seq<char> {
    hex_text(sha256(key))
}

/// The fingerprint of a post-quantum signature public key.
pub fn fingerprint_dilithium_public_key(public_key: &[u8]) -> (r: String)
    ensures
        r@ == fingerprint(public_key@),
{
    let digest = sha256_digest(public_key);
    hex_encode(digest.as_slice())
}

/// The fingerprint of an Ed25519 public key.
pub fn fingerprint_eddsa_public_key(public_key: &[u8]) -> (r: String)
    ensures
        r@ == fingerprint(public_key@),
{
    let digest = sha256_digest(public_key);
    hex_encode(digest.as_slice())
}

/// A fingerprint depends on the key's bytes alone, and two keys share a
/// fingerprint exactly when they share a SHA-256 digest.
pub proof fn lemma_fingerprint_deterministic(a: Seq<u8>, b: Seq<u8>)
    ensures
        a == b ==> fingerprint(a) == fingerprint(b),
        fingerprint(a) == fingerprint(b) <==> sha256(a) == sha256(b),
{
    lemma_hex_text_injective(sha256(a), sha256(b));
}

/// The fingerprints a session has accepted, each once.
pub struct TrustSet {
    fingerprints: Vec<String>,
}

impl View for TrustSet {
    type V = Seq<Seq<char>>;

    closed spec fn view(&self) -> Seq<Seq<char>> {
        views(self.fingerprints@)
    }
}

impl TrustSet {
    pub open spec fn well_formed(&self) -> bool {
        self@.no_duplicates()
    }

    pub open spec fn trusts(&self, fp: Seq<char>) -> bool {
        self@.contains(fp)
    }

    /// A set holding the local user's own two fingerprints.
    pub fn new(own_signature_fp: &str, own_classical_fp: &str) -> (r: TrustSet)
        ensures
            r.well_formed(),
            forall|fp: Seq<char>|
                #[trigger] r.trusts(fp) <==> fp == own_signature_fp@ || fp == own_classical_fp@,
    {
        let mut t = TrustSet { fingerprints: Vec::new() };
        assert(t@ =~= Seq::<Seq<char>>::empty());
        t.insert(own_signature_fp);
        t.insert(own_classical_fp);
        t
    }

    /// Whether `fp` has been accepted.
    pub fn contains(&self, fp: &str) -> (r: bool)
        ensures
            r == self.trusts(fp@),
    {
        let key = String::from_str(fp);
        let mut i: usize = 0;
        while i < self.fingerprints.len()
            invariant
                i <= self.fingerprints@.len(),
                key@ == fp@,
                forall|k: int| 0 <= k < i ==> self@[k] != fp@,
            decreases self.fingerprints@.len() - i,
        {
            if self.fingerprints[i] == key {
                assert(self@[i as int] == fp@);
                return true;
            }
            i = i + 1;
        }
        proof {
            if self@.contains(fp@) {
                let k = choose|k: int| 0 <= k < self@.len() && self@[k] == fp@;
                assert(self@[k] != fp@);
            }
        }
        false
    }

    /// Accepts `fp`; true when it was not accepted before.
    pub fn insert(&mut self, fp: &str) -> (r: bool)
        requires
            old(self).well_formed(),
        ensures
            final(self).well_formed(),
            r == !old(self).trusts(fp@),
            forall|x: Seq<char>| #[trigger] final(self).trusts(x) <==> old(self).trusts(x) || x == fp@,
    {
        if self.contains(fp) {
            return false;
        }
        let ghost before = self@;
        self.fingerprints.push(String::from_str(fp));
        assert(self@ =~= before.push(fp@));
        proof {
            assert forall|x: Seq<char>| #[trigger] self.trusts(x) <==> before.contains(x) || x
                == fp@ by {
                if before.contains(x) {
                    let k = choose|k: int| 0 <= k < before.len() && before[k] == x;
                    assert(self@[k] == x);
                }
                if x == fp@ {
                    assert(self@[before.len() as int] == x);
                }
            }
        }
        true
    }

    /// Records the user's decision on `fp`: a confirmed fingerprint is
    /// accepted, a refused one leaves the set as it was.
    pub fn record_decision(&mut self, fp: &str, confirmed: bool)
        requires
            old(self).well_formed(),
        ensures
            final(self).well_formed(),
            confirmed ==> forall|x: Seq<char>| #[trigger] final(self).trusts(x) <==> old(self).trusts(
                x,
            ) || x == fp@,
            !confirmed ==> final(self)@ == old(self)@,
    {
        if confirmed {
            self.insert(fp);
        }
    }

    /// The number of accepted fingerprints.
    pub fn len(&self) -> (r: usize)
        ensures
            r == self@.len(),
    {
        self.fingerprints.len()
    }
}

/// Unicode lower-case mapping of a text.
pub uninterp spec fn lowercase(s: Seq<char>) -> Seq<char>;

/// Relies on `str::to_lowercase`: the lower-case mapping, which depends on the
/// characters alone.
#[verifier::external_body]
fn to_lower(s: &str) -> (r: String)
    ensures
        r@ == lowercase(s@),
{
    s.to_lowercase()
}

/// A fingerprint equal to our own is confirmed without asking: it is our own
/// key, echoed back by the relay.
pub fn auto_confirms(fingerprint: &str, own_fingerprint: &str) -> (r: bool)
    ensures
        r == (fingerprint@ == own_fingerprint@),
{
    let a = String::from_str(fingerprint);
    let b = String::from_str(own_fingerprint);
    a == b
}

/// What the user's answer to a confirmation prompt decides: `yes` and `no`
/// in any case, with surrounding whitespace; anything else asks again.
pub open spec fn reply_decision(reply: Seq<char>) -> Option<bool> {
    let l = lowercase(trim(reply));
    if l == "yes"@ {
        Some(true)
    } else if l == "no"@ {
        Some(false)
    } else {
        None
    }
}

/// Reads the user's answer to a confirmation prompt.
pub fn parse_confirmation_reply(reply: &str) -> (r: Option<bool>)
    ensures
        r == reply_decision(reply@),
{
    let v = chars_of(reply);
    let t = trimmed_slice(&v, 0, v.len());
    assert(v@.subrange(0, v@.len() as int) =~= v@);
    let trimmed = string_of(t.as_slice());
    let lower = to_lower(trimmed.as_str());
    if lower == String::from_str("yes") {
        Some(true)
    } else if lower == String::from_str("no") {
        Some(false)
    } else {
        None
    }
}

/// An announced key that needs the user's decision: hex of the expected
/// length whose fingerprint is not accepted yet.
pub open spec fn needs_review(trust: Seq<Seq<char>>, announced: Seq<char>, key_len: nat) -> bool {
    is_hex_text(announced) && hex_bytes(announced).len() == key_len && !trust.contains(
        fingerprint(hex_bytes(announced)),
    )
}

/// The first announced key, from position `from` on, that needs the user's
/// decision, with its bytes and fingerprint.
pub fn next_unreviewed(trust: &TrustSet, announced: &Vec<String>, from: usize, key_len: usize) -> (r:
    Option<(usize, Vec<u8>, String)>)
    ensures
        match r {
            Some((i, key, fp)) => {
                &&& from <= i < announced@.len()
                &&& needs_review(trust@, announced@[i as int]@, key_len as nat)
                &&& key@ == hex_bytes(announced@[i as int]@)
                &&& fp@ == fingerprint(key@)
                &&& forall|k: int|
                    from <= k < i ==> !needs_review(trust@, #[trigger] announced@[k]@, key_len as nat)
            },
            None => forall|k: int|
                from <= k < announced@.len() ==> !needs_review(
                    trust@,
                    #[trigger] announced@[k]@,
                    key_len as nat,
                ),
        },
{
    let mut i: usize = from;
    while i < announced.len()
        invariant
            from <= i,
            forall|k: int|
                from <= k < i && k < announced@.len() ==> !needs_review(
                    trust@,
                    #[trigger] announced@[k]@,
                    key_len as nat,
                ),
        decreases announced@.len() - i,
    {
        let text = chars_of(announced[i].as_str());
        match hex_decode(text.as_slice()) {
            Some(key) => {
                if key.len() == key_len {
                    let fp = fingerprint_dilithium_public_key(key.as_slice());
                    if !trust.contains(fp.as_str()) {
                        return Some((i, key, fp));
                    }
                }
            },
            None => {},
        }
        i = i + 1;
    }
    None
}

} // verus!
