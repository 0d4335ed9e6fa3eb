//! Verified core of a multi-account streaming-media web server.
//!
//! The library holds the parts of the server with real design content:
//! the per-account token lifecycle, the account registry, the signed
//! stream-capability codec, track resolution with format fallback, and
//! the stall-aware decrypting byte stream.  Network, HTTP and protocol
//! plumbing live outside, in the unverified application shell, which
//! feeds plain values into these verified functions.

pub mod account;
pub mod capability;
pub mod cipher;
pub mod errors;
pub mod hex;
pub mod params;
pub mod registry;
pub mod resolver;
pub mod retry;
pub mod streamer;
pub mod token;
