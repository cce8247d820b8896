//! Settings of the older relay flow, whose messages are OpenPGP blocks.
use vstd::prelude::*;

verus! {

/// A session with a relay of the older flow: where it is, who we are, the
/// password of our private key, the room password, and the session cookie.
#[derive(Debug)]
pub struct Amnesichat {
    pub base_url: String,
    pub username: String,
    pub private_password: String,
    pub password: String,
    pub cookie: Option<String>,
}

} // verus!
