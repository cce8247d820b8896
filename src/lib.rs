//! The core of a peer-to-peer encrypted chat client that talks through an
//! untrusted relay: the password codec, signed blobs, fingerprints and the
//! trust set, the hybrid handshake's decisions, and the session framing.
pub mod digest;
pub mod encoding;
pub mod encryption;
pub mod envelope;
pub mod handshake;
pub mod legacy;
pub mod relay;
pub mod secret_codec;
pub mod session;
pub mod signing;
pub mod text;
pub mod trust;
