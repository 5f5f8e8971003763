//! The composition-facing builder: resolves the cipher, derives the master
//! key once, and stamps out primed per-connection streams.

use vstd::prelude::*;
use vstd::string::StringSliceAdditionalSpecFns;

use crate::cipher::CipherKind;
use crate::cipher::resolve;
use crate::cipher::spec_resolve;
use crate::error::SsError;
use crate::kdf::derive_master_key;
use crate::kdf::spec_master_key;
use crate::kdf::spec_subkey;
use crate::nonce::iter_inc;
use crate::nonce::zero_nonce;
use crate::stream::CryptoStream;
use crate::stream::greedy_chunks;
use crate::stream::is_chunk_encoding;
use crate::stream::wire_len_of;

verus! {

/// A destination address, already serialized by the caller's own
/// address-encoding routine; this core only forwards its bytes as the first
/// application payload of the connection.
#[derive(Clone)]
pub struct Address {
    pub bytes: Vec<u8>,
}

impl Address {
    pub fn from_bytes(bytes: Vec<u8>) -> (r: Self)
        ensures
            r.bytes == bytes,
    {
        Address { bytes }
    }
}

/// An immutable, freely copyable connection template: destination address,
/// resolved cipher, and the master key derived once from the password.
#[derive(Clone)]
pub struct ShadowsocksBuilder {
    pub addr: Address,
    pub method: CipherKind,
    pub key: Vec<u8>,
}

impl ShadowsocksBuilder {
    /// Resolves the cipher identifier and derives the master key from the
    /// password; any unsupported identifier fails fast, before any
    /// connection exists.
    pub fn new(addr: Address, password: &str, method: &str) -> (r: Result<
        ShadowsocksBuilder,
        SsError,
    >)
        ensures
            match r {
                Ok(b) => spec_resolve(method.spec_bytes()) == Some(b.method) && b.key@
                    == spec_master_key(password.spec_bytes(), b.method.spec_key_len()) && b.key@.len()
                    == b.method.spec_key_len() && b.addr == addr,
                Err(e) => spec_resolve(method.spec_bytes()) is None && e
                    == SsError::UnsupportedCipher,
            },
    {
        let kind = match resolve(method) {
            Ok(k) => k,
            Err(e) => { return Err(e) },
        };
        let key = derive_master_key(password.as_bytes(), kind.key_len());
        Ok(ShadowsocksBuilder { addr, method: kind, key })
    }

    /// Builds one primed stream-mode connection: a fresh `CryptoStream` whose
    /// write side has performed its handshake by encrypting the destination
    /// address as the first chunk. The returned wire bytes — the cleartext
    /// salt followed by the sealed address chunks, or the bare address bytes
    /// for the `Plain` cipher — must be sent on the underlying connection
    /// before anything else; the stream is then ready for general use.
    pub fn build_tcp(&self) -> (r: (CryptoStream, Vec<u8>))
        requires
            self.key@.len() == self.method.spec_key_len(),
        ensures
            r.0.wf(),
            r.0.kind == self.method,
            r.0.master_key@ == self.key@,
            !r.0.read_started,
            r.0.read_buf@.len() == 0,
            !r.0.closed,
            self.method is Plain ==> r.1@ == self.addr.bytes@,
            self.method.is_aead() ==> {
                &&& r.0.write_started
                &&& r.0.write_salt@.len() == self.method.spec_salt_len()
                &&& r.0.write_key@ == spec_subkey(
                    r.0.write_salt@,
                    self.key@,
                    self.method.spec_key_len(),
                )
                &&& r.1@ == r.0.write_salt@ + r.1@.skip(r.0.write_salt@.len() as int)
                &&& r.1@.len() == r.0.write_salt@.len() + wire_len_of(
                    greedy_chunks(self.addr.bytes@),
                )
                &&& is_chunk_encoding(
                    self.method,
                    r.0.write_key@,
                    zero_nonce(self.method.spec_nonce_len()),
                    r.1@.skip(r.0.write_salt@.len() as int),
                    greedy_chunks(self.addr.bytes@),
                )
                &&& r.0.write_nonce@ == iter_inc(
                    zero_nonce(self.method.spec_nonce_len()),
                    2 * greedy_chunks(self.addr.bytes@).len(),
                )
            },
    {
        let key = clone_bytes(&self.key);
        let mut stream = CryptoStream::new(self.method, key);
        let wire = stream.write(self.addr.bytes.as_slice());
        (stream, wire)
    }

    /// The datagram variant of the protocol is not implemented at this
    /// layer: requesting it fails with a clear signal instead of behaving
    /// incorrectly.
    pub fn build_udp(&self) -> (r: Result<CryptoStream, SsError>)
        ensures
            r == Err::<CryptoStream, SsError>(SsError::NotImplemented),
    {
        Err(SsError::NotImplemented)
    }
}

/// An owned copy of a byte vector.
fn clone_bytes(v: &Vec<u8>) -> (r: Vec<u8>)
    ensures
        r@ == v@,
{
    crate::bytes_util::copy_range(v.as_slice(), 0, v.len())
}

} // verus!
