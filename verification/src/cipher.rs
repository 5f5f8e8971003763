//! The cipher registry: the closed set of supported ciphers and their AEAD
//! parameters, and resolution of a configuration string to a cipher.

use vstd::prelude::*;
use vstd::string::StringSliceAdditionalSpecFns;

use crate::bytes_util::bytes_eq;
use crate::error::SsError;

verus! {

/// The supported ciphers. `Plain` is the `"none"` cipher: a pass-through with
/// no salt, no chunking and no authentication, kept for diagnostic pipelines.
#[derive(Clone, Copy, Debug, PartialEq, Eq, Structural)]
pub enum CipherKind {
    Plain,
    Aes128Gcm,
    Aes256Gcm,
    ChaCha20Poly1305,
}

impl CipherKind {
    /// Length in bytes of the AEAD key (and of the derived master key).
    pub open spec fn spec_key_len(self) -> nat {
        match self {
            CipherKind::Plain => 16,
            CipherKind::Aes128Gcm => 16,
            CipherKind::Aes256Gcm => 32,
            CipherKind::ChaCha20Poly1305 => 32,
        }
    }

    /// Length in bytes of the per-connection salt; equal to the key length
    /// for the AEAD ciphers, absent for `Plain`.
    pub open spec fn spec_salt_len(self) -> nat {
        match self {
            CipherKind::Plain => 0,
            _ => self.spec_key_len(),
        }
    }

    /// Length in bytes of the AEAD nonce.
    pub open spec fn spec_nonce_len(self) -> nat {
        match self {
            CipherKind::Plain => 0,
            _ => 12,
        }
    }

    /// Length in bytes of the AEAD authentication tag.
    pub open spec fn spec_tag_len(self) -> nat {
        match self {
            CipherKind::Plain => 0,
            _ => 16,
        }
    }

    /// Whether this cipher really encrypts: every kind but `Plain`.
    pub open spec fn is_aead(self) -> bool {
        self != CipherKind::Plain
    }

    pub fn key_len(self) -> (r: usize)
        ensures
            r == self.spec_key_len(),
    {
        match self {
            CipherKind::Plain => 16,
            CipherKind::Aes128Gcm => 16,
            CipherKind::Aes256Gcm => 32,
            CipherKind::ChaCha20Poly1305 => 32,
        }
    }

    pub fn salt_len(self) -> (r: usize)
        ensures
            r == self.spec_salt_len(),
    {
        match self {
            CipherKind::Plain => 0,
            _ => self.key_len(),
        }
    }

    pub fn nonce_len(self) -> (r: usize)
        ensures
            r == self.spec_nonce_len(),
    {
        match self {
            CipherKind::Plain => 0,
            _ => 12,
        }
    }

    pub fn tag_len(self) -> (r: usize)
        ensures
            r == self.spec_tag_len(),
    {
        match self {
            CipherKind::Plain => 0,
            _ => 16,
        }
    }
}

/// The cipher, if any, that a configuration string (given here by its UTF-8
/// bytes) names. Exact match only: no partial match, no case folding.
pub open spec fn spec_resolve(id: Seq<u8>) -> Option<CipherKind> {
    if id == "none".spec_bytes() {
        Some(CipherKind::Plain)
    } else if id == "aes-128-gcm".spec_bytes() {
        Some(CipherKind::Aes128Gcm)
    } else if id == "aes-256-gcm".spec_bytes() {
        Some(CipherKind::Aes256Gcm)
    } else if id == "chacha20-ietf-poly1305".spec_bytes() {
        Some(CipherKind::ChaCha20Poly1305)
    } else {
        None
    }
}

/// Resolves a cipher identifier string; any string outside the registry is an
/// `UnsupportedCipher` error.
pub fn resolve(method: &str) -> (r: Result<CipherKind, SsError>)
    ensures
        match r {
            Ok(k) => spec_resolve(method.spec_bytes()) == Some(k),
            Err(e) => spec_resolve(method.spec_bytes()) is None && e
                == SsError::UnsupportedCipher,
        },
{
    let id = method.as_bytes();
    if bytes_eq(id, "none".as_bytes()) {
        Ok(CipherKind::Plain)
    } else if bytes_eq(id, "aes-128-gcm".as_bytes()) {
        Ok(CipherKind::Aes128Gcm)
    } else if bytes_eq(id, "aes-256-gcm".as_bytes()) {
        Ok(CipherKind::Aes256Gcm)
    } else if bytes_eq(id, "chacha20-ietf-poly1305".as_bytes()) {
        Ok(CipherKind::ChaCha20Poly1305)
    } else {
        Err(SsError::UnsupportedCipher)
    }
}

} // verus!
