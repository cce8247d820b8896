//! The chat session: chat lines, their framing on the relay, and the
//! decryption of everything a poll returns.
use crate::digest::{sha256, sha256_digest};
use crate::encoding::{hex_encode, hex_text};
use crate::envelope::{aead_fits, CodecError, NONCE_LEN, SALT_LEN};
use crate::relay::{all_delimited, delimited_from};
use crate::secret_codec::{
    argon2_key, decrypt_data, decrypt_post, derive_key, encrypt_data, password_fits, sealed_envelope,
};
use crate::text::views;
use vstd::prelude::*;
use vstd::utf8::encode_utf8;

verus! {

pub const MESSAGE_BEGIN: &'static str = "-----BEGIN ENCRYPTED MESSAGE-----";

pub const MESSAGE_END: &'static str = "-----END ENCRYPTED MESSAGE-----";

/// A chat line with the sender's name in bold markup.
pub open spec fn chat_line(username: Seq<char>, message: Seq<char>) -> Seq<char> {
    "<strong>"@ + username + "</strong>: "@ + message
}

pub fn format_chat_line(username: &str, message: &str) -> (r: String)
    ensures
        r@ == chat_line(username@, message@),
{
    let mut out = String::from_str("<strong>");
    out.append(username);
    out.append("</strong>: ");
    out.append(message);
    out
}

/// An envelope between the encrypted-message markers.
pub open spec fn framed(envelope: Seq<char>) -> Seq<char> {
    MESSAGE_BEGIN@ + envelope + MESSAGE_END@
}

pub fn frame_encrypted_message(envelope: &str) -> (r: String)
    ensures
        r@ == framed(envelope@),
{
    let mut out = String::from_str(MESSAGE_BEGIN);
    out.append(envelope);
    out.append(MESSAGE_END);
    out
}

/// The framed envelopes of a relay body, trimmed, in order.
pub fn extract_encrypted_messages(body: &str) -> (r: Vec<String>)
    ensures
        views(r@) == delimited_from(body@, MESSAGE_BEGIN@, MESSAGE_END@, 0),
{
    proof {
        reveal_strlit("-----END ENCRYPTED MESSAGE-----");
    }
    all_delimited(body, MESSAGE_BEGIN, MESSAGE_END)
}

/// Encrypts a chat line under the session secret and frames it.
pub fn encrypt_chat_message(username: &str, message: &str, secret: &str) -> (r: Result<
    String,
    CodecError,
>)
    ensures
        r is Ok <==> password_fits(secret@) && aead_fits(
            encode_utf8(chat_line(username@, message@)).len() as int,
        ),
        r matches Ok(f) ==> exists|salt: Seq<u8>, nonce: Seq<u8>|
            salt.len() == SALT_LEN && nonce.len() == NONCE_LEN && f@ == framed(
                #[trigger] sealed_envelope(chat_line(username@, message@), secret@, salt, nonce),
            ),
{
    let line = format_chat_line(username, message);
    match encrypt_data(line.as_str(), secret) {
        Ok(e) => Ok(frame_encrypted_message(e.as_str())),
        Err(err) => Err(err),
    }
}

/// `out` holds, in order, the texts of the fragments that decrypt under
/// `password`; the others are dropped.
pub open spec fn received(frags: Seq<Seq<char>>, password: Seq<char>, out: Seq<Seq<char>>) -> bool
    decreases frags.len(),
{
    if frags.len() == 0 {
        out.len() == 0
    } else {
        ||| (out.len() > 0 && decrypt_post(
            Ok::<Seq<char>, CodecError>(out.last()),
            frags.last(),
            password,
        ) && received(frags.drop_last(), password, out.drop_last()))
        ||| ((exists|e: CodecError|
            #[trigger] decrypt_post(Err::<Seq<char>, CodecError>(e), frags.last(), password))
            && received(frags.drop_last(), password, out))
    }
}

/// The messages of a relay body that decrypt under the session secret, in
/// the order they stand; fragments that do not decrypt are skipped.
pub fn receive_messages(body: &str, secret: &str) -> (r: Vec<String>)
    ensures
        received(delimited_from(body@, MESSAGE_BEGIN@, MESSAGE_END@, 0), secret@, views(r@)),
{
    let frags = extract_encrypted_messages(body);
    let ghost fs = views(frags@);
    let mut out: Vec<String> = Vec::new();
    let mut i: usize = 0;
    assert(fs.subrange(0, 0).len() == 0);
    assert(views(out@).len() == 0);
    while i < frags.len()
        invariant
            fs == views(frags@),
            fs.len() == frags@.len(),
            i <= frags@.len(),
            received(fs.subrange(0, i as int), secret@, views(out@)),
        decreases frags@.len() - i,
    {
        let r = decrypt_data(frags[i].as_str(), secret);
        let ghost before = out@;
        let ghost pre = fs.subrange(0, i as int);
        let ghost now = fs.subrange(0, i + 1);
        assert(now.drop_last() =~= pre);
        assert(now.last() == frags@[i as int]@);
        match r {
            Ok(m) => {
                out.push(m);
                assert(views(out@).drop_last() =~= views(before));
                assert(views(out@).last() == m@);
            },
            Err(e) => {
                assert(decrypt_post(Err::<Seq<char>, CodecError>(e), now.last(), secret@));
            },
        }
        i = i + 1;
    }
    assert(fs.subrange(0, frags@.len() as int) =~= fs);
    out
}

/// Characters of a room identifier.
pub const ROOM_ID_LEN: usize = 16;

/// The character that a random draw picks from `A-Z`, `a-z`, `0-9`.
pub open spec fn room_char(draw: u32) -> char {
    let k = draw as int % 62;
    if k < 26 {
        (65 + k) as char
    } else if k < 52 {
        (97 + k - 26) as char
    } else {
        (48 + k - 52) as char
    }
}

/// A room identifier from random draws, one character per draw.
pub fn room_id_from_draws(draws: &Vec<u32>) -> (r: String)
    ensures
        r@ == Seq::new(draws@.len(), |i: int| room_char(draws@[i])),
{
    let mut chars: Vec<char> = Vec::new();
    let mut i: usize = 0;
    while i < draws.len()
        invariant
            i <= draws@.len(),
            chars@ == Seq::new(i as nat, |k: int| room_char(draws@[k])),
        decreases draws@.len() - i,
    {
        let k = draws[i] % 62;
        let c = if k < 26 {
            ((65 + k) as u8) as char
        } else if k < 52 {
            ((97 + k - 26) as u8) as char
        } else {
            ((48 + k - 52) as u8) as char
        };
        chars.push(c);
        assert(chars@ =~= Seq::new((i + 1) as nat, |k: int| room_char(draws@[k])));
        i = i + 1;
    }
    crate::text::string_of(chars.as_slice())
}

/// Room passwords of group chats are longer than 8 bytes.
pub fn room_password_acceptable(password: &str) -> (r: bool)
    ensures
        r == (encode_utf8(password@).len() > 8),
{
    password.as_bytes().len() > 8
}

/// The salt that group mode derives from the room password: the first 16
/// bytes of its SHA-256 digest.
pub open spec fn salt_of_password(password: Seq<char>) -> Seq<u8> {
    sha256(encode_utf8(password)).subrange(0, 16)
}

pub fn derive_salt_from_password(password: &str) -> (r: Vec<u8>)
    ensures
        r@ == salt_of_password(password@),
        r@.len() == SALT_LEN,
{
    let digest = sha256_digest(password.as_bytes());
    let mut salt: Vec<u8> = Vec::new();
    let mut i: usize = 0;
    while i < SALT_LEN
        invariant
            i <= SALT_LEN,
            digest@.len() == 32,
            salt@ == digest@.subrange(0, i as int),
        decreases SALT_LEN - i,
    {
        salt.push(digest[i]);
        assert(salt@ =~= digest@.subrange(0, i + 1));
        i = i + 1;
    }
    salt
}

/// The session secret of a group chat: hex of the key derived from the room
/// password with the salt taken from the password itself.
pub fn group_session_secret(room_password: &str) -> (r: Result<String, CodecError>)
    ensures
        password_fits(room_password@) ==> (r matches Ok(s) && s@ == hex_text(
            argon2_key(room_password@, salt_of_password(room_password@)),
        )),
        !password_fits(room_password@) ==> r == Err::<String, CodecError>(
            CodecError::KeyDerivation,
        ),
{
    let salt = derive_salt_from_password(room_password);
    match derive_key(room_password, salt.as_slice()) {
        Ok(k) => Ok(hex_encode(k.as_slice())),
        Err(e) => Err(e),
    }
}

} // verus!
