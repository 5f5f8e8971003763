//! Key derivation: the legacy OpenSSL-style password stretch that yields the
//! master key, and the per-connection HKDF-SHA1 subkey derivation.

use vstd::prelude::*;

use crate::bytes_util::push_all;
use crate::cipher::CipherKind;

verus! {

/// The MD5 digest of a byte sequence; a function of the input alone.
pub uninterp spec fn md5_of(data: Seq<u8>) -> Seq<u8>;

/// Relies on md5::compute: the 16-byte MD5 digest of the input, depending on
/// the input bytes alone.
#[verifier::external_body]
fn md5_digest(data: &[u8]) -> (r: Vec<u8>)
    ensures
        r@ == md5_of(data@),
        r@.len() == 16,
{
    md5::compute(data).0.to_vec()
}

/// The `i`-th digest block of the OpenSSL key stretch: the first block hashes
/// the password alone, every later block hashes the previous digest followed
/// by the password.
pub open spec fn evp_block(pw: Seq<u8>, i: nat) -> Seq<u8>
    decreases i,
{
    if i == 0 {
        md5_of(pw)
    } else {
        md5_of(evp_block(pw, (i - 1) as nat) + pw)
    }
}

/// The first `k` stretch blocks, concatenated in order.
pub open spec fn evp_concat(pw: Seq<u8>, k: nat) -> Seq<u8>
    decreases k,
{
    if k == 0 {
        Seq::empty()
    } else {
        evp_concat(pw, (k - 1) as nat) + evp_block(pw, (k - 1) as nat)
    }
}

/// The master key for a password: enough stretch blocks to cover `key_len`
/// bytes, truncated to `key_len`.
pub open spec fn spec_master_key(pw: Seq<u8>, key_len: nat) -> Seq<u8> {
    evp_concat(pw, (key_len + 15) / 16).take(key_len as int)
}

/// Derives the fixed-length master key from a password, compatible with the
/// OpenSSL digest-then-concatenate stretch. Deterministic: the result is a
/// function of `password` and `key_len` alone.
pub fn derive_master_key(password: &[u8], key_len: usize) -> (r: Vec<u8>)
    requires
        key_len <= 64,
    ensures
        r@ == spec_master_key(password@, key_len as nat),
        r@.len() == key_len,
{
    let nblocks: usize = (key_len + 15) / 16;
    let mut out: Vec<u8> = Vec::new();
    let mut prev: Vec<u8> = Vec::new();
    let mut b: usize = 0;
    while b < nblocks
        invariant
            b <= nblocks,
            nblocks == (key_len + 15) / 16,
            key_len <= 64,
            out@ == evp_concat(password@, b as nat),
            out@.len() == 16 * b,
            b > 0 ==> prev@ == evp_block(password@, (b - 1) as nat),
        decreases nblocks - b,
    {
        let mut input: Vec<u8> = Vec::new();
        if b > 0 {
            push_all(&mut input, prev.as_slice());
        }
        push_all(&mut input, password);
        let d = md5_digest(input.as_slice());
        proof {
            if b == 0 {
                assert(input@ =~= password@);
            } else {
                assert(input@ =~= evp_block(password@, (b - 1) as nat) + password@);
            }
            assert(d@ == evp_block(password@, b as nat));
        }
        push_all(&mut out, d.as_slice());
        prev = d;
        b += 1;
    }
    proof {
        assert(out@.take(key_len as int) == spec_master_key(password@, key_len as nat));
    }
    out.truncate(key_len);
    out
}

/// The HKDF-SHA1 output keying material for a salt and input keying material,
/// expanded with the protocol's fixed info string to 64 bytes; a function of
/// salt and key alone.
pub uninterp spec fn hkdf_sha1_okm(salt: Seq<u8>, key: Seq<u8>) -> Seq<u8>;

/// Relies on hkdf::Hkdf::<sha1::Sha1>::new and Hkdf::expand: RFC 5869
/// extract-then-expand with SHA-1, the connection salt as the HKDF salt, the
/// master key as input keying material and the fixed info string
/// "ss-subkey"; 64 bytes of output, depending on salt and key alone. A 64
/// byte expansion is always within HKDF-SHA1's limit, so `expand` cannot
/// fail; if it ever did, that would be a parameter-mismatch bug and the
/// process aborts loudly.
#[verifier::external_body]
fn hkdf_sha1_expand(salt: &[u8], key: &[u8]) -> (r: Vec<u8>)
    ensures
        r@ == hkdf_sha1_okm(salt@, key@),
        r@.len() == 64,
{
    let hk = hkdf::Hkdf::<sha1::Sha1>::new(Some(salt), key);
    let mut okm = vec![0u8; 64];
    hk.expand(b"ss-subkey", &mut okm).expect("hkdf-sha1 expansion failed");
    okm
}

/// The per-connection subkey: a `key_len`-byte prefix of the HKDF-SHA1
/// expansion for this salt and master key.
pub open spec fn spec_subkey(salt: Seq<u8>, master_key: Seq<u8>, key_len: nat) -> Seq<u8> {
    hkdf_sha1_okm(salt, master_key).take(key_len as int)
}

/// Derives the connection subkey from the connection salt and the master key.
pub fn derive_subkey(salt: &[u8], master_key: &[u8], key_len: usize) -> (r: Vec<u8>)
    requires
        key_len <= 64,
    ensures
        r@ == spec_subkey(salt@, master_key@, key_len as nat),
        r@.len() == key_len,
{
    let mut okm = hkdf_sha1_expand(salt, master_key);
    okm.truncate(key_len);
    okm
}

/// Subkey derivation is deterministic: identical salts and identical master
/// keys always yield the identical subkey.
pub proof fn lemma_subkey_deterministic(
    salt1: Seq<u8>,
    key1: Seq<u8>,
    salt2: Seq<u8>,
    key2: Seq<u8>,
    key_len: nat,
)
    requires
        salt1 == salt2,
        key1 == key2,
    ensures
        spec_subkey(salt1, key1, key_len) == spec_subkey(salt2, key2, key_len),
{
}

/// Every supported cipher declares a key length of 16 or 32 bytes, and
/// `derive_master_key` returns exactly that many bytes for it.
pub proof fn lemma_cipher_key_len_supported(kind: CipherKind)
    ensures
        kind.spec_key_len() == 16 || kind.spec_key_len() == 32,
{
}

} // verus!
