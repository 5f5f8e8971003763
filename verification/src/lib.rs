//! Verified core of a shadowsocks-style encrypted tunnel: cipher registry,
//! key derivation, anti-replay salt tracking, and chunked AEAD stream framing.

use vstd::prelude::*;

pub mod aead;
pub mod builder;
pub mod bytes_util;
pub mod cipher;
pub mod error;
pub mod kdf;
pub mod nonce;
pub mod replay;
pub mod stream;

verus! {

/// Largest payload a single chunk may carry on the wire.
pub const MAX_CHUNK: usize = 0x3FFF;

/// A chunk payload length is valid only when it does not exceed the protocol
/// maximum; a decoded length above it is a protocol violation.
pub fn chunk_len_ok(len: usize) -> (r: bool)
    ensures
        r == (len <= MAX_CHUNK),
{
    len <= MAX_CHUNK
}

} // verus!
