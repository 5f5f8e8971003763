//! The AEAD primitives behind the framing: sealing appends an authentication
//! tag, opening verifies it and fails closed.
//!
//! What each primitive returns is named by an uninterpreted function per
//! cipher; the contracts of the trusted wrappers state that opening inverts
//! sealing, and that a block only opens to a payload it is a genuine seal of.

use vstd::prelude::*;

use aes_gcm::aead::Aead;
use aes_gcm::aead::KeyInit;

use crate::cipher::CipherKind;

verus! {

/// Ciphertext-with-tag that AES-128-GCM yields for this key, nonce and
/// plaintext; a function of those three alone.
pub uninterp spec fn aes128_seal_of(key: Seq<u8>, nonce: Seq<u8>, pt: Seq<u8>) -> Seq<u8>;

/// Ciphertext-with-tag that AES-256-GCM yields for this key, nonce and
/// plaintext; a function of those three alone.
pub uninterp spec fn aes256_seal_of(key: Seq<u8>, nonce: Seq<u8>, pt: Seq<u8>) -> Seq<u8>;

/// Ciphertext-with-tag that ChaCha20-Poly1305 yields for this key, nonce and
/// plaintext; a function of those three alone.
pub uninterp spec fn chacha_seal_of(key: Seq<u8>, nonce: Seq<u8>, pt: Seq<u8>) -> Seq<u8>;

/// The sealed block a cipher produces: ciphertext of `pt` followed by the
/// 16-byte authentication tag. `Plain` does not seal at all; it is excluded
/// by every caller.
pub open spec fn seal_of(kind: CipherKind, key: Seq<u8>, nonce: Seq<u8>, pt: Seq<u8>) -> Seq<
    u8,
> {
    match kind {
        CipherKind::Plain => pt,
        CipherKind::Aes128Gcm => aes128_seal_of(key, nonce, pt),
        CipherKind::Aes256Gcm => aes256_seal_of(key, nonce, pt),
        CipherKind::ChaCha20Poly1305 => chacha_seal_of(key, nonce, pt),
    }
}

/// Relies on aes_gcm::Aes128Gcm with aead::Aead::encrypt: AES-128-GCM with
/// no associated data returns the ciphertext followed by the 16-byte tag, a
/// function of key, nonce and plaintext alone; it cannot fail for plaintexts
/// far below the GCM length limit.
#[verifier::external_body]
fn aes128_seal(key: &[u8], nonce: &[u8], pt: &[u8]) -> (r: Vec<u8>)
    requires
        key@.len() == 16,
        nonce@.len() == 12,
        pt@.len() <= 0xFFFF,
    ensures
        r@ == aes128_seal_of(key@, nonce@, pt@),
        r@.len() == pt@.len() + 16,
{
    let cipher = aes_gcm::Aes128Gcm::new_from_slice(key).expect("aes-128-gcm key length");
    let n = aes_gcm::aead::Nonce::<aes_gcm::Aes128Gcm>::try_from(nonce).expect("nonce length");
    cipher.encrypt(&n, pt).expect("aes-128-gcm seal")
}

/// Relies on aes_gcm::Aes128Gcm with aead::Aead::decrypt: returns the
/// plaintext exactly when the tag over the ciphertext verifies. GCM
/// decryption inverts encryption, so a block opens if and only if it is the
/// seal of the returned plaintext under this key and nonce.
#[verifier::external_body]
fn aes128_open(key: &[u8], nonce: &[u8], ct: &[u8]) -> (r: Option<Vec<u8>>)
    requires
        key@.len() == 16,
        nonce@.len() == 12,
    ensures
        r is Some ==> ct@ == aes128_seal_of(key@, nonce@, r->0@) && r->0@.len() + 16 == ct@.len(),
        forall|pt: Seq<u8>|
            ct@ == aes128_seal_of(key@, nonce@, pt) ==> r is Some && r->0@ == pt,
{
    let cipher = aes_gcm::Aes128Gcm::new_from_slice(key).expect("aes-128-gcm key length");
    let n = aes_gcm::aead::Nonce::<aes_gcm::Aes128Gcm>::try_from(nonce).expect("nonce length");
    cipher.decrypt(&n, ct).ok()
}

/// Relies on aes_gcm::Aes256Gcm with aead::Aead::encrypt, as for AES-128-GCM.
#[verifier::external_body]
fn aes256_seal(key: &[u8], nonce: &[u8], pt: &[u8]) -> (r: Vec<u8>)
    requires
        key@.len() == 32,
        nonce@.len() == 12,
        pt@.len() <= 0xFFFF,
    ensures
        r@ == aes256_seal_of(key@, nonce@, pt@),
        r@.len() == pt@.len() + 16,
{
    let cipher = aes_gcm::Aes256Gcm::new_from_slice(key).expect("aes-256-gcm key length");
    let n = aes_gcm::aead::Nonce::<aes_gcm::Aes256Gcm>::try_from(nonce).expect("nonce length");
    cipher.encrypt(&n, pt).expect("aes-256-gcm seal")
}

/// Relies on aes_gcm::Aes256Gcm with aead::Aead::decrypt, as for AES-128-GCM.
#[verifier::external_body]
fn aes256_open(key: &[u8], nonce: &[u8], ct: &[u8]) -> (r: Option<Vec<u8>>)
    requires
        key@.len() == 32,
        nonce@.len() == 12,
    ensures
        r is Some ==> ct@ == aes256_seal_of(key@, nonce@, r->0@) && r->0@.len() + 16 == ct@.len(),
        forall|pt: Seq<u8>|
            ct@ == aes256_seal_of(key@, nonce@, pt) ==> r is Some && r->0@ == pt,
{
    let cipher = aes_gcm::Aes256Gcm::new_from_slice(key).expect("aes-256-gcm key length");
    let n = aes_gcm::aead::Nonce::<aes_gcm::Aes256Gcm>::try_from(nonce).expect("nonce length");
    cipher.decrypt(&n, ct).ok()
}

/// Relies on chacha20poly1305::ChaCha20Poly1305 with aead::Aead::encrypt:
/// ChaCha20-Poly1305 with no associated data returns the ciphertext followed
/// by the 16-byte tag, a function of key, nonce and plaintext alone.
#[verifier::external_body]
fn chacha_seal(key: &[u8], nonce: &[u8], pt: &[u8]) -> (r: Vec<u8>)
    requires
        key@.len() == 32,
        nonce@.len() == 12,
        pt@.len() <= 0xFFFF,
    ensures
        r@ == chacha_seal_of(key@, nonce@, pt@),
        r@.len() == pt@.len() + 16,
{
    let cipher = chacha20poly1305::ChaCha20Poly1305::new_from_slice(key).expect(
        "chacha20-poly1305 key length",
    );
    let n = chacha20poly1305::Nonce::try_from(nonce).expect("nonce length");
    cipher.encrypt(&n, pt).expect("chacha20-poly1305 seal")
}

/// Relies on chacha20poly1305::ChaCha20Poly1305 with aead::Aead::decrypt:
/// returns the plaintext exactly when the tag verifies, inverting sealing.
#[verifier::external_body]
fn chacha_open(key: &[u8], nonce: &[u8], ct: &[u8]) -> (r: Option<Vec<u8>>)
    requires
        key@.len() == 32,
        nonce@.len() == 12,
    ensures
        r is Some ==> ct@ == chacha_seal_of(key@, nonce@, r->0@) && r->0@.len() + 16 == ct@.len(),
        forall|pt: Seq<u8>|
            ct@ == chacha_seal_of(key@, nonce@, pt) ==> r is Some && r->0@ == pt,
{
    let cipher = chacha20poly1305::ChaCha20Poly1305::new_from_slice(key).expect(
        "chacha20-poly1305 key length",
    );
    let n = chacha20poly1305::Nonce::try_from(nonce).expect("nonce length");
    cipher.decrypt(&n, ct).ok()
}

/// Seals one block: AEAD-encrypts `pt` under `kind`, appending the tag.
pub fn seal_block(kind: CipherKind, key: &[u8], nonce: &[u8], pt: &[u8]) -> (r: Vec<u8>)
    requires
        kind.is_aead(),
        key@.len() == kind.spec_key_len(),
        nonce@.len() == kind.spec_nonce_len(),
        pt@.len() <= 0xFFFF,
    ensures
        r@ == seal_of(kind, key@, nonce@, pt@),
        r@.len() == pt@.len() + kind.spec_tag_len(),
{
    match kind {
        CipherKind::Plain => {
            proof {
                assert(false);
            }
            Vec::new()
        },
        CipherKind::Aes128Gcm => aes128_seal(key, nonce, pt),
        CipherKind::Aes256Gcm => aes256_seal(key, nonce, pt),
        CipherKind::ChaCha20Poly1305 => chacha_seal(key, nonce, pt),
    }
}

/// Opens one block: verifies the tag and returns the plaintext, or nothing
/// on any forgery. A block opens to `p` exactly when it is `seal_of(.., p)`.
pub fn open_block(kind: CipherKind, key: &[u8], nonce: &[u8], ct: &[u8]) -> (r: Option<Vec<u8>>)
    requires
        kind.is_aead(),
        key@.len() == kind.spec_key_len(),
        nonce@.len() == kind.spec_nonce_len(),
    ensures
        r is Some ==> ct@ == seal_of(kind, key@, nonce@, r->0@) && r->0@.len()
            + kind.spec_tag_len() == ct@.len(),
        forall|pt: Seq<u8>|
            ct@ == seal_of(kind, key@, nonce@, pt) ==> r is Some && r->0@ == pt,
{
    match kind {
        CipherKind::Plain => {
            proof {
                assert(false);
            }
            None
        },
        CipherKind::Aes128Gcm => aes128_open(key, nonce, ct),
        CipherKind::Aes256Gcm => aes256_open(key, nonce, ct),
        CipherKind::ChaCha20Poly1305 => chacha_open(key, nonce, ct),
    }
}

} // verus!
