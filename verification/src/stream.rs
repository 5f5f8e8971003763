//! The chunked AEAD stream: wire-format specifications and the per-connection
//! `CryptoStream` that encodes writes and decodes reads.
//!
//! Wire format per direction: once, the cleartext salt (absent for the
//! `Plain` cipher); then repeated chunks, each a sealed two-byte big-endian
//! payload length followed by the sealed payload, under consecutive nonces.

use vstd::prelude::*;

use rand::Rng;

use crate::MAX_CHUNK;
use crate::aead::open_block;
use crate::aead::seal_block;
use crate::aead::seal_of;
use crate::bytes_util::copy_range;
use crate::bytes_util::push_all;
use crate::cipher::CipherKind;
use crate::error::SsError;
use crate::kdf::derive_subkey;
use crate::kdf::spec_subkey;
use crate::nonce::inc_le;
use crate::nonce::iter_inc;
use crate::nonce::nonce_increment;
use crate::nonce::zero_nonce;
use crate::replay::ReplayContext;

verus! {

/// Relies on rand::rng with rand_core::Rng::fill_bytes: `n` bytes from
/// the thread-local cryptographically secure generator. Nothing is assumed
/// of the values, only the length.
#[verifier::external_body]
fn random_bytes(n: usize) -> (r: Vec<u8>)
    ensures
        r@.len() == n,
{
    let mut v = vec![0u8; n];
    rand::rng().fill_bytes(&mut v);
    v
}

/// Big-endian two-byte encoding of a chunk payload length.
pub open spec fn be2(n: nat) -> Seq<u8> {
    seq![((n / 256) % 256) as u8, (n % 256) as u8]
}

/// A sequence of chunk payloads a stream may carry: each no longer than the
/// protocol maximum.
pub open spec fn valid_chunks(pts: Seq<Seq<u8>>) -> bool {
    forall|i: int| 0 <= i < pts.len() ==> (#[trigger] pts[i]).len() <= MAX_CHUNK
}

/// The payloads of a chunk sequence, in order, as one byte stream.
pub open spec fn flatten_chunks(pts: Seq<Seq<u8>>) -> Seq<u8>
    decreases pts.len(),
{
    if pts.len() == 0 {
        Seq::empty()
    } else {
        pts[0] + flatten_chunks(pts.skip(1))
    }
}

/// How many wire bytes one chunk occupies: sealed two-byte length block,
/// then the sealed payload block, each carrying a 16-byte tag.
pub open spec fn wire_chunk_len(pt: Seq<u8>) -> nat {
    2 + 16 + pt.len() + 16
}

/// Total wire bytes of a chunk sequence.
pub open spec fn wire_len_of(pts: Seq<Seq<u8>>) -> nat
    decreases pts.len(),
{
    if pts.len() == 0 {
        0
    } else {
        wire_chunk_len(pts[0]) + wire_len_of(pts.skip(1))
    }
}

/// `wire` is exactly the encoding of the chunk payloads `pts` under `kind`
/// and `key`, starting at nonce `nv`: for each chunk in order, its first 18
/// bytes seal the payload's length and the following bytes seal the payload,
/// under consecutive nonces.
pub open spec fn is_chunk_encoding(
    kind: CipherKind,
    key: Seq<u8>,
    nv: Seq<u8>,
    wire: Seq<u8>,
    pts: Seq<Seq<u8>>,
) -> bool
    decreases pts.len(),
{
    if pts.len() == 0 {
        wire.len() == 0
    } else {
        let cl = wire_chunk_len(pts[0]) as int;
        &&& wire.len() >= cl
        &&& wire.take(18) == seal_of(kind, key, nv, be2(pts[0].len()))
        &&& wire.subrange(18, cl) == seal_of(kind, key, inc_le(nv), pts[0])
        &&& is_chunk_encoding(kind, key, iter_inc(nv, 2), wire.skip(cl), pts.skip(1))
    }
}

/// The greedy split of a write into chunk payloads: full chunks of the
/// maximum size, then the remainder.
pub open spec fn greedy_chunks(data: Seq<u8>) -> Seq<Seq<u8>>
    decreases data.len(),
{
    if data.len() == 0 {
        Seq::empty()
    } else if data.len() <= MAX_CHUNK {
        seq![data]
    } else {
        seq![data.take(MAX_CHUNK as int)] + greedy_chunks(data.skip(MAX_CHUNK as int))
    }
}

/// Splitting a write into chunks loses nothing: flattening the greedy split
/// gives the written bytes back. This is the glue of the round-trip law: a
/// writer emits the encoding of `greedy_chunks(data)`, a reader of that
/// encoding delivers its flattening — `data` itself.
pub proof fn lemma_flatten_greedy(data: Seq<u8>)
    ensures
        valid_chunks(greedy_chunks(data)),
        flatten_chunks(greedy_chunks(data)) == data,
    decreases data.len(),
{
    if data.len() == 0 {
        assert(flatten_chunks(greedy_chunks(data)) =~= data);
    } else if data.len() <= MAX_CHUNK {
        assert(greedy_chunks(data) == seq![data]);
        assert(seq![data].skip(1) =~= Seq::<Seq<u8>>::empty());
        assert(flatten_chunks(Seq::<Seq<u8>>::empty()) == Seq::<u8>::empty());
        assert(flatten_chunks(seq![data]) == data + flatten_chunks(seq![data].skip(1)));
        assert(flatten_chunks(greedy_chunks(data)) =~= data);
    } else {
        lemma_flatten_greedy(data.skip(MAX_CHUNK as int));
        assert(greedy_chunks(data).skip(1) =~= greedy_chunks(data.skip(MAX_CHUNK as int)));
        assert(flatten_chunks(greedy_chunks(data)) =~= data.take(MAX_CHUNK as int) + data.skip(
            MAX_CHUNK as int,
        ));
        assert(data.take(MAX_CHUNK as int) + data.skip(MAX_CHUNK as int) =~= data);
        assert forall|i: int| 0 <= i < greedy_chunks(data).len() implies (#[trigger] greedy_chunks(
            data,
        )[i]).len() <= MAX_CHUNK by {
            if i > 0 {
                assert(greedy_chunks(data)[i] == greedy_chunks(data.skip(MAX_CHUNK as int))[i - 1]);
            }
        };
    }
}

/// A per-connection encrypted stream: the write side seals outgoing bytes
/// into chunks, the read side verifies and decodes incoming bytes. The salt
/// of each direction is handled on the first write or read of that
/// direction; the two directions are independent.
pub struct CryptoStream {
    pub kind: CipherKind,
    pub master_key: Vec<u8>,
    pub write_started: bool,
    pub write_salt: Vec<u8>,
    pub write_key: Vec<u8>,
    pub write_nonce: Vec<u8>,
    pub read_started: bool,
    pub read_key: Vec<u8>,
    pub read_nonce: Vec<u8>,
    pub read_buf: Vec<u8>,
    pub closed: bool,
}

impl CryptoStream {
    /// Internal consistency: key and nonce material has the lengths the
    /// cipher declares.
    pub open spec fn wf(self) -> bool {
        &&& self.master_key@.len() == self.kind.spec_key_len()
        &&& self.write_started ==> self.write_salt@.len() == self.kind.spec_salt_len()
        &&& self.write_started ==> self.write_key@.len() == self.kind.spec_key_len()
        &&& self.write_started ==> self.write_nonce@.len() == self.kind.spec_nonce_len()
        &&& self.read_started ==> self.read_key@.len() == self.kind.spec_key_len()
        &&& self.read_started ==> self.read_nonce@.len() == self.kind.spec_nonce_len()
    }

    /// A fresh stream for one connection, before either direction has
    /// exchanged its salt.
    pub fn new(kind: CipherKind, master_key: Vec<u8>) -> (r: Self)
        requires
            master_key@.len() == kind.spec_key_len(),
        ensures
            r.wf(),
            r.kind == kind,
            r.master_key == master_key,
            !r.write_started,
            !r.read_started,
            r.read_buf@.len() == 0,
            !r.closed,
    {
        CryptoStream {
            kind,
            master_key,
            write_started: false,
            write_salt: Vec::new(),
            write_key: Vec::new(),
            write_nonce: Vec::new(),
            read_started: false,
            read_key: Vec::new(),
            read_nonce: Vec::new(),
            read_buf: Vec::new(),
            closed: false,
        }
    }

    /// Encrypts application bytes into wire bytes. On the first write of an
    /// AEAD stream the fresh salt is generated, the write subkey is derived
    /// from it, and the salt leads the output in cleartext. The data is
    /// split greedily into chunks of at most the protocol maximum and each
    /// chunk is sealed under the next two nonces. For the `Plain` cipher the
    /// bytes pass through untouched: no salt, no framing.
    pub fn write(&mut self, data: &[u8]) -> (wire: Vec<u8>)
        requires
            old(self).wf(),
            !old(self).closed,
        ensures
            final(self).wf(),
            final(self).kind == old(self).kind,
            final(self).master_key == old(self).master_key,
            final(self).read_started == old(self).read_started,
            final(self).read_key == old(self).read_key,
            final(self).read_nonce == old(self).read_nonce,
            final(self).read_buf == old(self).read_buf,
            !final(self).closed,
            final(self).write_started == (old(self).write_started || old(self).kind.is_aead()),
            old(self).kind is Plain ==> wire@ == data@ && *final(self) == *old(self),
            old(self).kind.is_aead() ==> {
                let salt_part = if old(self).write_started {
                    Seq::<u8>::empty()
                } else {
                    final(self).write_salt@
                };
                let key = final(self).write_key@;
                let nv0 = if old(self).write_started {
                    old(self).write_nonce@
                } else {
                    zero_nonce(old(self).kind.spec_nonce_len())
                };
                &&& wire@ == salt_part + wire@.skip(salt_part.len() as int)
                &&& wire@.len() == salt_part.len() + wire_len_of(greedy_chunks(data@))
                &&& is_chunk_encoding(
                    old(self).kind,
                    key,
                    nv0,
                    wire@.skip(salt_part.len() as int),
                    greedy_chunks(data@),
                )
                &&& final(self).write_nonce@ == iter_inc(nv0, 2 * greedy_chunks(data@).len())
                &&& final(self).write_salt@.len() == old(self).kind.spec_salt_len()
                &&& (!old(self).write_started ==> final(self).write_key@ == spec_subkey(
                    final(self).write_salt@,
                    old(self).master_key@,
                    old(self).kind.spec_key_len(),
                ))
                &&& (old(self).write_started ==> final(self).write_salt == old(self).write_salt
                    && final(self).write_key == old(self).write_key)
            },
    {
        if matches!(self.kind, CipherKind::Plain) {
            return crate::bytes_util::copy_range(data, 0, data.len());
        }
        let mut wire: Vec<u8> = Vec::new();
        if !self.write_started {
            let salt = random_bytes(self.kind.salt_len());
            self.write_key = derive_subkey(
                salt.as_slice(),
                self.master_key.as_slice(),
                self.kind.key_len(),
            );
            self.write_nonce = make_zero_nonce(self.kind.nonce_len());
            self.write_salt = salt;
            self.write_started = true;
            push_all(&mut wire, self.write_salt.as_slice());
        }
        let ghost salt_part = wire@;
        let ghost key = self.write_key@;
        let ghost nv0 = self.write_nonce@;
        let mut i: usize = 0;
        let ghost mut done: Seq<Seq<u8>> = Seq::empty();
        proof {
            assert(wire@.skip(salt_part.len() as int) =~= Seq::<u8>::empty());
            assert(data@.skip(0) =~= data@);
            assert(done + greedy_chunks(data@) =~= greedy_chunks(data@));
        }
        while i < data.len()
            invariant
                self.wf(),
                self.kind.is_aead(),
                self.kind == old(self).kind,
                self.master_key == old(self).master_key,
                self.read_started == old(self).read_started,
                self.read_key == old(self).read_key,
                self.read_nonce == old(self).read_nonce,
                self.read_buf == old(self).read_buf,
                !self.closed,
                self.write_started,
                self.write_key@ == key,
                self.write_salt@.len() == self.kind.spec_salt_len(),
                old(self).write_started ==> self.write_salt == old(self).write_salt
                    && self.write_key == old(self).write_key,
                !old(self).write_started ==> self.write_key@ == spec_subkey(
                    self.write_salt@,
                    old(self).master_key@,
                    old(self).kind.spec_key_len(),
                ),
                !old(self).write_started ==> salt_part == self.write_salt@,
                old(self).write_started ==> salt_part == Seq::<u8>::empty(),
                i <= data@.len(),
                greedy_chunks(data@) == done + greedy_chunks(data@.skip(i as int)),
                wire@.len() == salt_part.len() + wire_len_of(done),
                wire@ == salt_part + wire@.skip(salt_part.len() as int),
                is_chunk_encoding(
                    self.kind,
                    key,
                    nv0,
                    wire@.skip(salt_part.len() as int),
                    done,
                ),
                self.write_nonce@ == iter_inc(nv0, 2 * done.len()),
            decreases data@.len() - i,
        {
            let i0 = i;
            let ghost done0 = done;
            let ghost wire0 = wire@;
            let ghost nvk = iter_inc(nv0, 2 * done0.len());
            let n = if data.len() - i > MAX_CHUNK {
                MAX_CHUNK
            } else {
                data.len() - i
            };
            let mut lb: Vec<u8> = Vec::new();
            lb.push((n / 256) as u8);
            lb.push((n % 256) as u8);
            let b1 = seal_block(
                self.kind,
                self.write_key.as_slice(),
                self.write_nonce.as_slice(),
                lb.as_slice(),
            );
            nonce_increment(&mut self.write_nonce);
            let b2 = seal_block(
                self.kind,
                self.write_key.as_slice(),
                self.write_nonce.as_slice(),
                &data[i..i + n],
            );
            nonce_increment(&mut self.write_nonce);
            push_all(&mut wire, b1.as_slice());
            push_all(&mut wire, b2.as_slice());
            let ghost piece = data@.subrange(i as int, i + n as int);
            proof {
                done = done0.push(piece);
            }
            i += n;
            proof {
                assert(n / 256 < 256);
                assert(lb@ =~= be2(piece.len()));
                assert(b1@ == seal_of(self.kind, key, nvk, be2(piece.len())));
                assert(b2@ == seal_of(self.kind, key, inc_le(nvk), piece));
                assert(self.write_nonce@ == inc_le(inc_le(nvk)));
                assert(iter_inc(nv0, 2 * done.len()) == inc_le(iter_inc(nv0, 2 * done0.len() + 1)));
                assert(iter_inc(nv0, 2 * done0.len() + 1) == inc_le(nvk));
                lemma_encoding_snoc(
                    self.kind,
                    key,
                    nv0,
                    wire0.skip(salt_part.len() as int),
                    done0,
                    b1@,
                    b2@,
                    piece,
                );
                lemma_wire_len_snoc(done0, piece);
                assert(wire@.skip(salt_part.len() as int) =~= wire0.skip(salt_part.len() as int)
                    + b1@ + b2@);
                assert(wire@ =~= salt_part + wire@.skip(salt_part.len() as int));
                let rem = data@.skip(i0 as int);
                if data@.len() - i0 > MAX_CHUNK {
                    assert(rem.take(MAX_CHUNK as int) =~= piece);
                    assert(rem.skip(MAX_CHUNK as int) =~= data@.skip(i as int));
                    assert(greedy_chunks(rem) == seq![piece] + greedy_chunks(data@.skip(i as int)));
                } else {
                    assert(rem =~= piece);
                    assert(greedy_chunks(rem) == seq![piece]);
                    assert(data@.skip(i as int) =~= Seq::<u8>::empty());
                    assert(greedy_chunks(rem) =~= seq![piece] + greedy_chunks(data@.skip(i as int)));
                }
                assert(done0 + (seq![piece] + greedy_chunks(data@.skip(i as int))) =~= done + greedy_chunks(
                    data@.skip(i as int),
                ));
            }
        }
        proof {
            assert(data@.skip(i as int) =~= Seq::<u8>::empty());
            assert(greedy_chunks(data@) =~= done);
        }
        wire
    }

    /// Decrypts incoming wire bytes into application bytes. Bytes are staged
    /// until complete protocol elements are available. On the first read of
    /// an AEAD stream the peer's salt is taken first and checked against the
    /// replay window: a replayed salt closes the connection before any
    /// payload is decrypted. Then complete chunks are verified and decoded
    /// in order; a failed tag or an oversized length closes the connection.
    /// For the `Plain` cipher the bytes pass through untouched.
    pub fn read(&mut self, input: &[u8], replay: &mut ReplayContext) -> (r: Result<
        Vec<u8>,
        SsError,
    >)
        requires
            old(self).wf(),
            !old(self).closed,
            old(replay).wf(),
        ensures
            final(self).wf(),
            final(replay).wf(),
            final(self).kind == old(self).kind,
            final(self).master_key == old(self).master_key,
            final(self).write_started == old(self).write_started,
            final(self).write_salt == old(self).write_salt,
            final(self).write_key == old(self).write_key,
            final(self).write_nonce == old(self).write_nonce,
            old(self).kind is Plain ==> r is Ok && r->Ok_0@ == input@ && *final(self) == *old(
                self,
            ) && *final(replay) == *old(replay),
            old(self).kind.is_aead() ==> {
                let buf0 = old(self).read_buf@ + input@;
                let salt_len = old(self).kind.spec_salt_len() as int;
                &&& (!old(self).read_started && buf0.len() < salt_len ==> r is Ok
                    && r->Ok_0@.len() == 0 && final(self).read_buf@ == buf0
                    && !final(self).read_started && !final(self).closed && *final(replay) == *old(
                    replay,
                ))
                &&& (!old(self).read_started && buf0.len() >= salt_len && old(replay).seen(
                    buf0.take(salt_len),
                ) ==> r == Err::<Vec<u8>, SsError>(SsError::ReplayRejected) && final(self).closed
                    && *final(replay) == *old(replay))
                &&& (!old(self).read_started && buf0.len() >= salt_len && !old(replay).seen(
                    buf0.take(salt_len),
                ) ==> final(self).read_started && final(self).read_key@ == spec_subkey(
                    buf0.take(salt_len),
                    old(self).master_key@,
                    old(self).kind.spec_key_len(),
                ) && final(replay).seen(buf0.take(salt_len)) && drained(
                    old(self).kind,
                    spec_subkey(
                        buf0.take(salt_len),
                        old(self).master_key@,
                        old(self).kind.spec_key_len(),
                    ),
                    zero_nonce(old(self).kind.spec_nonce_len()),
                    buf0.skip(salt_len),
                    *final(self),
                    r,
                ))
                &&& (old(self).read_started ==> final(self).read_started && final(self).read_key
                    == old(self).read_key && *final(replay) == *old(replay) && drained(
                    old(self).kind,
                    old(self).read_key@,
                    old(self).read_nonce@,
                    buf0,
                    *final(self),
                    r,
                ))
            },
    {
        if matches!(self.kind, CipherKind::Plain) {
            return Ok(crate::bytes_util::copy_range(input, 0, input.len()));
        }
        push_all(&mut self.read_buf, input);
        if !self.read_started {
            let salt_len = self.kind.salt_len();
            if self.read_buf.len() < salt_len {
                return Ok(Vec::new());
            }
            let salt = copy_range(self.read_buf.as_slice(), 0, salt_len);
            let rest = copy_range(self.read_buf.as_slice(), salt_len, self.read_buf.len());
            self.read_buf = rest;
            if !replay.check_and_insert(salt.as_slice()) {
                self.closed = true;
                return Err(SsError::ReplayRejected);
            }
            self.read_key = derive_subkey(
                salt.as_slice(),
                self.master_key.as_slice(),
                self.kind.key_len(),
            );
            self.read_nonce = make_zero_nonce(self.kind.nonce_len());
            self.read_started = true;
        }
        self.drain_chunks()
    }

    /// Decodes every complete staged chunk, in order, verifying each tag.
    fn drain_chunks(&mut self) -> (r: Result<Vec<u8>, SsError>)
        requires
            old(self).wf(),
            old(self).kind.is_aead(),
            old(self).read_started,
            !old(self).closed,
        ensures
            final(self).wf(),
            final(self).kind == old(self).kind,
            final(self).master_key == old(self).master_key,
            final(self).write_started == old(self).write_started,
            final(self).write_salt == old(self).write_salt,
            final(self).write_key == old(self).write_key,
            final(self).write_nonce == old(self).write_nonce,
            final(self).read_started,
            final(self).read_key == old(self).read_key,
            drained(
                old(self).kind,
                old(self).read_key@,
                old(self).read_nonce@,
                old(self).read_buf@,
                *final(self),
                r,
            ),
    {
        let kind = self.kind;
        let ghost key = self.read_key@;
        let ghost nv0 = self.read_nonce@;
        let ghost buf1 = self.read_buf@;
        let mut out: Vec<u8> = Vec::new();
        let ghost mut done: Seq<Seq<u8>> = Seq::empty();
        proof {
            assert(buf1.take(0) =~= Seq::<u8>::empty());
            assert(buf1.skip(0) =~= buf1);
            assert(out@ =~= flatten_chunks(done));
            assert forall|pts: Seq<Seq<u8>>|
                valid_chunks(pts) && is_chunk_encoding(kind, key, nv0, buf1, pts) implies (
            done.len() <= pts.len() && done == pts.take(done.len() as int) && is_chunk_encoding(
                kind,
                key,
                self.read_nonce@,
                self.read_buf@,
                pts.skip(done.len() as int),
            )) by {
                assert(pts.take(0) =~= done);
                assert(pts.skip(0) =~= pts);
            };
        }
        loop
            invariant
                self.wf(),
                kind == self.kind,
                self.kind.is_aead(),
                self.read_started,
                !self.closed,
                self.kind == old(self).kind,
                self.master_key == old(self).master_key,
                self.write_started == old(self).write_started,
                self.write_salt == old(self).write_salt,
                self.write_key == old(self).write_key,
                self.write_nonce == old(self).write_nonce,
                self.read_key == old(self).read_key,
                self.read_key@ == key,
                nv0 == old(self).read_nonce@,
                buf1 == old(self).read_buf@,
                valid_chunks(done),
                out@ == flatten_chunks(done),
                wire_len_of(done) <= buf1.len(),
                self.read_buf@ == buf1.skip(wire_len_of(done) as int),
                buf1.take(wire_len_of(done) as int) + self.read_buf@ == buf1,
                is_chunk_encoding(kind, key, nv0, buf1.take(wire_len_of(done) as int), done),
                self.read_nonce@ == iter_inc(nv0, 2 * done.len()),
                forall|pts: Seq<Seq<u8>>|
                    valid_chunks(pts) && is_chunk_encoding(kind, key, nv0, buf1, pts) ==> (
                    done.len() <= pts.len() && done == pts.take(done.len() as int)
                        && is_chunk_encoding(
                        kind,
                        key,
                        self.read_nonce@,
                        self.read_buf@,
                        pts.skip(done.len() as int),
                    )),
            decreases self.read_buf.len(),
        {
            let ghost done0 = done;
            let ghost nvk = self.read_nonce@;
            let ghost rb0 = self.read_buf@;
            if self.read_buf.len() < 18 {
                proof {
                    assert forall|pts: Seq<Seq<u8>>|
                        valid_chunks(pts) && is_chunk_encoding(kind, key, nv0, buf1, pts) implies (
                    drain_finished(pts, done, rb0)) by {
                        let k = done.len() as int;
                        if k < pts.len() {
                            assert(pts.skip(k)[0] == pts[k]);
                            assert(rb0.len() >= wire_chunk_len(pts.skip(k)[0]));
                        }
                        assert(pts.take(pts.len() as int) =~= pts);
                    };
                }
                return Ok(out);
            }
            let lb = copy_range(self.read_buf.as_slice(), 0, 18);
            let lres = open_block(
                kind,
                self.read_key.as_slice(),
                self.read_nonce.as_slice(),
                lb.as_slice(),
            );
            proof {
                assert(lb@ =~= rb0.take(18));
            }
            match lres {
                Option::None => {
                    self.closed = true;
                    proof {
                        assert forall|pts: Seq<Seq<u8>>|
                            !(valid_chunks(pts) && is_chunk_encoding(
                                kind,
                                key,
                                nv0,
                                buf1,
                                pts,
                            )) by {
                            if valid_chunks(pts) && is_chunk_encoding(kind, key, nv0, buf1, pts) {
                                chunk_head_facts(kind, key, nv0, buf1, pts, done0, nvk, rb0);
                                assert(lb@ == seal_of(
                                    kind,
                                    key,
                                    nvk,
                                    be2(pts[done0.len() as int].len()),
                                ));
                            }
                        };
                    }
                    return Err(SsError::AuthenticationFailure);
                },
                Option::Some(lpt) => {
                    let l: usize = (lpt[0] as usize) * 256 + (lpt[1] as usize);
                    proof {
                        assert(lpt@.len() == 2);
                        assert(lpt@ =~= be2(l as nat)) by {
                            vstd::arithmetic::div_mod::lemma_fundamental_div_mod(l as int, 256);
                            assert(l == lpt@[0] * 256 + lpt@[1]);
                            assert(l / 256 == lpt@[0]);
                            assert(l % 256 == lpt@[1]);
                        };
                    }
                    if !crate::chunk_len_ok(l) {
                        self.closed = true;
                        proof {
                            assert forall|pts: Seq<Seq<u8>>|
                                valid_chunks(pts) && is_chunk_encoding(kind, key, nv0, buf1, pts)
                                implies false by {
                                let k = done0.len() as int;
                                chunk_head_facts(kind, key, nv0, buf1, pts, done0, nvk, rb0);
                                assert(lb@ == seal_of(kind, key, nvk, be2(pts[k].len())));
                                assert(lpt@ == be2(pts[k].len()));
                                lemma_be2_injective(l as nat, pts[k].len());
                                assert(pts[k].len() <= MAX_CHUNK);
                            };
                        }
                        return Err(SsError::ProtocolViolation);
                    }
                    if self.read_buf.len() < 18 + l + 16 {
                        proof {
                            assert forall|pts: Seq<Seq<u8>>|
                                valid_chunks(pts) && is_chunk_encoding(kind, key, nv0, buf1, pts)
                                implies false by {
                                let k = done0.len() as int;
                                chunk_head_facts(kind, key, nv0, buf1, pts, done0, nvk, rb0);
                                assert(lb@ == seal_of(kind, key, nvk, be2(pts[k].len())));
                                assert(lpt@ == be2(pts[k].len()));
                                lemma_be2_injective(l as nat, pts[k].len());
                                assert(rb0.len() >= wire_chunk_len(pts[k]));
                            };
                        }
                        return Ok(out);
                    }
                    let pb = copy_range(self.read_buf.as_slice(), 18, 18 + l + 16);
                    nonce_increment(&mut self.read_nonce);
                    let pres = open_block(
                        kind,
                        self.read_key.as_slice(),
                        self.read_nonce.as_slice(),
                        pb.as_slice(),
                    );
                    match pres {
                        Option::None => {
                            self.closed = true;
                            proof {
                                assert forall|pts: Seq<Seq<u8>>|
                                    valid_chunks(pts) && is_chunk_encoding(
                                        kind,
                                        key,
                                        nv0,
                                        buf1,
                                        pts,
                                    ) implies false by {
                                    let k = done0.len() as int;
                                    chunk_head_facts(kind, key, nv0, buf1, pts, done0, nvk, rb0);
                                    assert(lpt@ == be2(pts[k].len()));
                                    lemma_be2_injective(l as nat, pts[k].len());
                                    assert(pb@ =~= rb0.subrange(18, wire_chunk_len(pts[k]) as int));
                                    assert(pb@ == seal_of(kind, key, inc_le(nvk), pts[k]));
                                };
                            }
                            return Err(SsError::AuthenticationFailure);
                        },
                        Option::Some(pt) => {
                            nonce_increment(&mut self.read_nonce);
                            push_all(&mut out, pt.as_slice());
                            let consumed = 18 + l + 16;
                            let rest = copy_range(
                                self.read_buf.as_slice(),
                                consumed,
                                self.read_buf.len(),
                            );
                            self.read_buf = rest;
                            proof {
                                done = done0.push(pt@);
                                assert(pt@.len() == l);
                                lemma_flatten_snoc(done0, pt@);
                                lemma_wire_len_snoc(done0, pt@);
                                let w0 = wire_len_of(done0) as int;
                                let w1 = wire_len_of(done) as int;
                                assert(w1 == w0 + 18 + l + 16);
                                assert(lb@ == seal_of(kind, key, nvk, lpt@));
                                assert(lpt@ == be2(pt@.len()));
                                assert(pb@ == seal_of(kind, key, inc_le(nvk), pt@));
                                assert(buf1.take(w1) =~= buf1.take(w0) + lb@ + pb@);
                                lemma_encoding_snoc(
                                    kind,
                                    key,
                                    nv0,
                                    buf1.take(w0),
                                    done0,
                                    lb@,
                                    pb@,
                                    pt@,
                                );
                                assert(self.read_buf@ =~= buf1.skip(w1));
                                assert(buf1.take(w1) + self.read_buf@ =~= buf1);
                                assert(self.read_nonce@ == inc_le(inc_le(nvk)));
                                assert(iter_inc(nvk, 2) == inc_le(iter_inc(nvk, 1)));
                                assert(iter_inc(nvk, 1) == inc_le(iter_inc(nvk, 0)));
                                assert(iter_inc(nvk, 0) == nvk);
                                assert(iter_inc(nv0, 2 * done.len()) == inc_le(
                                    iter_inc(nv0, 2 * done0.len() + 1),
                                ));
                                assert(iter_inc(nv0, 2 * done0.len() + 1) == inc_le(nvk));
                                assert forall|pts: Seq<Seq<u8>>|
                                    valid_chunks(pts) && is_chunk_encoding(
                                        kind,
                                        key,
                                        nv0,
                                        buf1,
                                        pts,
                                    ) implies (done.len() <= pts.len() && done == pts.take(
                                    done.len() as int,
                                ) && is_chunk_encoding(
                                    kind,
                                    key,
                                    self.read_nonce@,
                                    self.read_buf@,
                                    pts.skip(done.len() as int),
                                )) by {
                                    let k = done0.len() as int;
                                    chunk_head_facts(kind, key, nv0, buf1, pts, done0, nvk, rb0);
                                    assert(lb@ == seal_of(kind, key, nvk, be2(pts[k].len())));
                                    assert(lpt@ == be2(pts[k].len()));
                                    lemma_be2_injective(l as nat, pts[k].len());
                                    assert(pb@ =~= rb0.subrange(18, wire_chunk_len(pts[k]) as int));
                                    assert(pb@ == seal_of(kind, key, inc_le(nvk), pts[k]));
                                    assert(pt@ == pts[k]);
                                    assert(done =~= pts.take(k + 1));
                                    assert(self.read_buf@ =~= rb0.skip(
                                        wire_chunk_len(pts[k]) as int,
                                    ));
                                    assert(pts.skip(k).skip(1) =~= pts.skip(k + 1));
                                };
                            }
                        },
                    }
                },
            }
        }
    }
}

/// What a finished drain of an exactly-complete staged buffer guarantees:
/// every chunk was decoded and nothing remains staged.
spec fn drain_finished(pts: Seq<Seq<u8>>, done: Seq<Seq<u8>>, rb0: Seq<u8>) -> bool {
    done == pts && rb0.len() == 0
}

/// After a drain of staged bytes `buf1` under `key` from nonce `nv0`:
/// everything delivered is the in-order payloads of a prefix of `buf1` that
/// is a genuine chunk encoding (never silently wrong plaintext); and when
/// `buf1` is exactly a complete chunk encoding, all of it is delivered.
/// Errors close the stream: a failed tag is an authentication failure, an
/// oversized decoded length a protocol violation.
pub open spec fn drained(
    kind: CipherKind,
    key: Seq<u8>,
    nv0: Seq<u8>,
    buf1: Seq<u8>,
    post: CryptoStream,
    r: Result<Vec<u8>, SsError>,
) -> bool {
    &&& (r is Ok ==> !post.closed && (exists|pts: Seq<Seq<u8>>|
        valid_chunks(pts) && r->Ok_0@ == flatten_chunks(pts) && wire_len_of(pts) <= buf1.len()
            && is_chunk_encoding(kind, key, nv0, buf1.take(wire_len_of(pts) as int), pts)
            && post.read_buf@ == buf1.skip(wire_len_of(pts) as int) && post.read_nonce@ == iter_inc(
            nv0,
            2 * pts.len(),
        )))
    &&& (r is Err ==> post.closed && (r == Err::<Vec<u8>, SsError>(SsError::AuthenticationFailure)
        || r == Err::<Vec<u8>, SsError>(SsError::ProtocolViolation)))
    &&& (forall|pts: Seq<Seq<u8>>|
        valid_chunks(pts) && is_chunk_encoding(kind, key, nv0, buf1, pts) ==> r is Ok
            && r->Ok_0@ == flatten_chunks(pts) && post.read_buf@.len() == 0)
}

/// The two-byte length encoding is injective on lengths that fit.
pub proof fn lemma_be2_injective(a: nat, b: nat)
    requires
        a < 65536,
        b < 65536,
        be2(a) == be2(b),
    ensures
        a == b,
{
    vstd::arithmetic::div_mod::lemma_fundamental_div_mod(a as int, 256);
    vstd::arithmetic::div_mod::lemma_fundamental_div_mod(b as int, 256);
    assert(be2(a)[0] == be2(b)[0]);
    assert(be2(a)[1] == be2(b)[1]);
    assert(a / 256 < 256) by (nonlinear_arith)
        requires
            a < 65536,
    ;
    assert(b / 256 < 256) by (nonlinear_arith)
        requires
            b < 65536,
    ;
}

/// Flattening after appending a chunk appends its payload.
pub proof fn lemma_flatten_snoc(pts: Seq<Seq<u8>>, pt: Seq<u8>)
    ensures
        flatten_chunks(pts.push(pt)) == flatten_chunks(pts) + pt,
    decreases pts.len(),
{
    let q = pts.push(pt);
    if pts.len() == 0 {
        assert(q[0] == pt);
        assert(q.skip(1) =~= Seq::<Seq<u8>>::empty());
        assert(flatten_chunks(Seq::<Seq<u8>>::empty()) == Seq::<u8>::empty());
        assert(flatten_chunks(q) == pt + flatten_chunks(q.skip(1)));
        assert(flatten_chunks(q) =~= flatten_chunks(pts) + pt);
    } else {
        lemma_flatten_snoc(pts.skip(1), pt);
        assert(q.skip(1) =~= pts.skip(1).push(pt));
        assert(q[0] == pts[0]);
        assert(flatten_chunks(q) == q[0] + flatten_chunks(q.skip(1)));
        assert(flatten_chunks(q) =~= flatten_chunks(pts) + pt);
    }
}

/// Inside the drain loop, under the hypothesis that the whole staged buffer
/// is a chunk encoding of `pts`, the next staged bytes are the sealed blocks
/// of chunk `done.len()` of `pts`.
proof fn chunk_head_facts(
    kind: CipherKind,
    key: Seq<u8>,
    nv0: Seq<u8>,
    buf1: Seq<u8>,
    pts: Seq<Seq<u8>>,
    done: Seq<Seq<u8>>,
    nvk: Seq<u8>,
    rb0: Seq<u8>,
)
    requires
        valid_chunks(pts),
        is_chunk_encoding(kind, key, nv0, buf1, pts),
        done.len() <= pts.len(),
        done == pts.take(done.len() as int),
        is_chunk_encoding(kind, key, nvk, rb0, pts.skip(done.len() as int)),
        rb0.len() >= 18,
    ensures
        done.len() < pts.len(),
        rb0.take(18) == seal_of(kind, key, nvk, be2(pts[done.len() as int].len())),
        rb0.len() >= wire_chunk_len(pts[done.len() as int]),
        rb0.subrange(18, wire_chunk_len(pts[done.len() as int]) as int) == seal_of(
            kind,
            key,
            inc_le(nvk),
            pts[done.len() as int],
        ),
        is_chunk_encoding(
            kind,
            key,
            iter_inc(nvk, 2),
            rb0.skip(wire_chunk_len(pts[done.len() as int]) as int),
            pts.skip(done.len() as int).skip(1),
        ),
        pts[done.len() as int].len() <= MAX_CHUNK,
{
    let k = done.len() as int;
    if k == pts.len() {
        assert(pts.skip(k).len() == 0);
        assert(rb0.len() == 0);
    }
    assert(pts.skip(k)[0] == pts[k]);
}

/// A zeroed nonce counter of the given width.
fn make_zero_nonce(n: usize) -> (r: Vec<u8>)
    ensures
        r@ == zero_nonce(n as nat),
        r@.len() == n,
{
    let mut v: Vec<u8> = Vec::new();
    let mut i: usize = 0;
    while i < n
        invariant
            i <= n,
            v@ =~= zero_nonce(i as nat),
        decreases n - i,
    {
        v.push(0);
        proof {
            assert(v@ =~= zero_nonce((i + 1) as nat));
        }
        i += 1;
    }
    v
}

/// Total wire length grows by one chunk's length when a chunk is appended.
proof fn lemma_wire_len_snoc(pts: Seq<Seq<u8>>, pt: Seq<u8>)
    ensures
        wire_len_of(pts.push(pt)) == wire_len_of(pts) + wire_chunk_len(pt),
    decreases pts.len(),
{
    let q = pts.push(pt);
    if pts.len() == 0 {
        assert(q[0] == pt);
        assert(q.skip(1) =~= Seq::<Seq<u8>>::empty());
        assert(wire_len_of(Seq::<Seq<u8>>::empty()) == 0);
        assert(wire_len_of(q) == wire_chunk_len(pt) + wire_len_of(q.skip(1)));
    } else {
        lemma_wire_len_snoc(pts.skip(1), pt);
        assert(q.skip(1) =~= pts.skip(1).push(pt));
        assert(q[0] == pts[0]);
        assert(wire_len_of(q) == wire_chunk_len(pts[0]) + wire_len_of(q.skip(1)));
    }
}

/// Appending one sealed chunk to the encoding of `pts` yields the encoding
/// of `pts` with the chunk's payload appended.
proof fn lemma_encoding_snoc(
    kind: CipherKind,
    key: Seq<u8>,
    nv: Seq<u8>,
    wire: Seq<u8>,
    pts: Seq<Seq<u8>>,
    b1: Seq<u8>,
    b2: Seq<u8>,
    pt: Seq<u8>,
)
    requires
        is_chunk_encoding(kind, key, nv, wire, pts),
        wire.len() == wire_len_of(pts),
        b1 == seal_of(kind, key, iter_inc(nv, 2 * pts.len()), be2(pt.len())),
        b1.len() == 2 + 16,
        b2 == seal_of(kind, key, inc_le(iter_inc(nv, 2 * pts.len())), pt),
        b2.len() == pt.len() + 16,
    ensures
        is_chunk_encoding(kind, key, nv, wire + b1 + b2, pts.push(pt)),
    decreases pts.len(),
{
    if pts.len() == 0 {
        let w = wire + b1 + b2;
        let q = pts.push(pt);
        assert(q[0] == pt);
        assert(w.len() == wire_chunk_len(pt));
        assert(w.take(18) =~= b1);
        assert(w.subrange(18, wire_chunk_len(pt) as int) =~= b2);
        assert(iter_inc(nv, 0) == nv);
        assert(w.skip(wire_chunk_len(pt) as int) =~= Seq::<u8>::empty());
        assert(q.skip(1) =~= Seq::<Seq<u8>>::empty());
        assert(is_chunk_encoding(kind, key, iter_inc(nv, 2), w.skip(wire_chunk_len(pt) as int), q.skip(1)));
        assert(is_chunk_encoding(kind, key, nv, w, q));
    } else {
        let cl = wire_chunk_len(pts[0]) as int;
        let w = wire + b1 + b2;
        let q = pts.push(pt);
        assert(q[0] == pts[0]);
        assert(w.take(18) =~= wire.take(18));
        assert(w.subrange(18, cl) =~= wire.subrange(18, cl));
        assert(w.skip(cl) =~= wire.skip(cl) + b1 + b2);
        assert(q.skip(1) =~= pts.skip(1).push(pt));
        assert(2 * pts.len() == 2 * pts.skip(1).len() + 2);
        assert(iter_inc(nv, 2 * pts.len()) == iter_inc(iter_inc(nv, 2), 2 * pts.skip(1).len()))
            by {
            lemma_iter_inc_add(nv, 2, 2 * pts.skip(1).len());
        };
        lemma_encoding_snoc(kind, key, iter_inc(nv, 2), wire.skip(cl), pts.skip(1), b1, b2, pt);
        assert(is_chunk_encoding(kind, key, iter_inc(nv, 2), w.skip(cl), q.skip(1)));
        assert(w.len() >= wire_chunk_len(q[0]));
        assert(is_chunk_encoding(kind, key, nv, w, q));
    }
}

/// Increment counts compose: `k` more increments after `a` are `a + k`.
pub proof fn lemma_iter_inc_add(s: Seq<u8>, a: nat, k: nat)
    ensures
        iter_inc(iter_inc(s, a), k) == iter_inc(s, a + k),
    decreases k,
{
    if k > 0 {
        lemma_iter_inc_add(s, a, (k - 1) as nat);
    }
}

} // verus!
