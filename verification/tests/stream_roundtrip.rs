use shadowsocks_core::MAX_CHUNK;
use shadowsocks_core::chunk_len_ok;
use shadowsocks_core::cipher::CipherKind;
use shadowsocks_core::error::SsError;
use shadowsocks_core::kdf::derive_master_key;
use shadowsocks_core::replay::ReplayContext;
use shadowsocks_core::stream::CryptoStream;

fn aead_kinds() -> [CipherKind; 3] {
    [CipherKind::Aes128Gcm, CipherKind::Aes256Gcm, CipherKind::ChaCha20Poly1305]
}

fn pair(kind: CipherKind, password: &[u8]) -> (CryptoStream, CryptoStream) {
    let key = derive_master_key(password, kind.key_len());
    (CryptoStream::new(kind, key.clone()), CryptoStream::new(kind, key))
}

#[test]
fn round_trip_small_message_every_aead_cipher() {
    for kind in aead_kinds() {
        let (mut w, mut r) = pair(kind, b"round trip");
        let data = b"attack at dawn";
        let wire = w.write(data);
        assert!(wire.len() > data.len());
        let mut replay = ReplayContext::new(64);
        let out = r.read(&wire, &mut replay).unwrap();
        assert_eq!(out, data.to_vec());
    }
}

#[test]
fn round_trip_multi_chunk_message() {
    let kind = CipherKind::Aes256Gcm;
    let (mut w, mut r) = pair(kind, b"large transfer");
    let data: Vec<u8> = (0..40_000u32).map(|i| (i % 251) as u8).collect();
    assert!(data.len() > 2 * MAX_CHUNK);
    let wire = w.write(&data);
    // salt + three chunks, each 2 + 16 + payload + 16 bytes
    let chunks = data.len().div_ceil(MAX_CHUNK);
    assert_eq!(wire.len(), kind.salt_len() + data.len() + chunks * (2 + 16 + 16));
    let mut replay = ReplayContext::new(64);
    let out = r.read(&wire, &mut replay).unwrap();
    assert_eq!(out, data);
}

#[test]
fn round_trip_with_byte_at_a_time_delivery() {
    let kind = CipherKind::ChaCha20Poly1305;
    let (mut w, mut r) = pair(kind, b"trickle");
    let data = b"delivered one byte at a time across many reads";
    let wire = w.write(data);
    let mut replay = ReplayContext::new(64);
    let mut out = Vec::new();
    for b in &wire {
        out.extend(r.read(std::slice::from_ref(b), &mut replay).unwrap());
    }
    assert_eq!(out, data.to_vec());
}

#[test]
fn round_trip_across_multiple_writes() {
    let kind = CipherKind::Aes128Gcm;
    let (mut w, mut r) = pair(kind, b"many writes");
    let mut replay = ReplayContext::new(64);
    let mut out = Vec::new();
    for part in [b"first ".as_slice(), b"second ".as_slice(), b"third".as_slice()] {
        let wire = w.write(part);
        out.extend(r.read(&wire, &mut replay).unwrap());
    }
    assert_eq!(out, b"first second third".to_vec());
}

#[test]
fn plain_cipher_is_exact_passthrough() {
    let kind = CipherKind::Plain;
    let (mut w, mut r) = pair(kind, b"whatever");
    let data = b"visible bytes";
    let wire = w.write(data);
    // no salt, no framing: the wire bytes equal the input bytes
    assert_eq!(wire, data.to_vec());
    let mut replay = ReplayContext::new(64);
    let out = r.read(&wire, &mut replay).unwrap();
    assert_eq!(out, data.to_vec());
}

#[test]
fn replayed_salt_is_rejected_before_any_payload() {
    let kind = CipherKind::Aes256Gcm;
    let key = derive_master_key(b"replay me", kind.key_len());
    let mut w = CryptoStream::new(kind, key.clone());
    let wire = w.write(b"hello");
    let mut replay = ReplayContext::new(64);

    let mut r1 = CryptoStream::new(kind, key.clone());
    assert_eq!(r1.read(&wire, &mut replay).unwrap(), b"hello".to_vec());

    // The same wire bytes replayed against the same context must be thrown
    // out at the salt, before any chunk is decrypted.
    let mut r2 = CryptoStream::new(kind, key);
    assert_eq!(r2.read(&wire, &mut replay), Err(SsError::ReplayRejected));
}

#[test]
fn tampered_bits_always_fail_authentication() {
    let kind = CipherKind::Aes128Gcm;
    let key = derive_master_key(b"tamper", kind.key_len());
    let mut w = CryptoStream::new(kind, key.clone());
    let data = b"integrity!";
    let wire = w.write(data);
    let salt_len = kind.salt_len();
    // Flip every single bit of the framed part (length block, payload block,
    // both tags) in turn: each flip must surface as an authentication
    // failure, never as silently wrong plaintext.
    for byte in salt_len..wire.len() {
        for bit in 0..8 {
            let mut evil = wire.clone();
            evil[byte] ^= 1 << bit;
            let mut replay = ReplayContext::new(4);
            let mut r = CryptoStream::new(kind, key.clone());
            assert_eq!(r.read(&evil, &mut replay), Err(SsError::AuthenticationFailure));
        }
    }
    // A flipped salt derives a different subkey, so the first tag check
    // fails as well.
    let mut evil = wire.clone();
    evil[0] ^= 1;
    let mut replay = ReplayContext::new(4);
    let mut r = CryptoStream::new(kind, key);
    assert_eq!(r.read(&evil, &mut replay), Err(SsError::AuthenticationFailure));
}

#[test]
fn truncated_wire_stays_pending_without_error() {
    let kind = CipherKind::Aes256Gcm;
    let (mut w, mut r) = pair(kind, b"partial");
    let data = b"partial delivery";
    let wire = w.write(data);
    let mut replay = ReplayContext::new(4);
    // All but the last byte: nothing may be delivered wrong, nothing errors.
    let out = r.read(&wire[..wire.len() - 1], &mut replay).unwrap();
    assert_eq!(out, Vec::<u8>::new());
    // The last byte completes the chunk.
    let out = r.read(&wire[wire.len() - 1..], &mut replay).unwrap();
    assert_eq!(out, data.to_vec());
}

#[test]
fn oversized_length_is_a_protocol_violation() {
    let kind = CipherKind::Aes256Gcm;
    let key = derive_master_key(b"oversize", kind.key_len());
    let salt = vec![0x42u8; kind.salt_len()];
    let subkey = shadowsocks_core::kdf::derive_subkey(&salt, &key, kind.key_len());
    let zero_nonce = vec![0u8; 12];
    // A forged length block claiming 50,000 bytes (far above the chunk
    // maximum) sealed with the correct subkey: the decoder must reject it
    // as a protocol violation instead of allocating for the claimed size.
    let evil_len: usize = 50_000;
    let len_block = shadowsocks_core::aead::seal_block(
        kind,
        &subkey,
        &zero_nonce,
        &[(evil_len >> 8) as u8, (evil_len & 0xFF) as u8],
    );
    let mut wire = salt;
    wire.extend_from_slice(&len_block);
    let mut replay = ReplayContext::new(4);
    let mut r = CryptoStream::new(kind, key);
    assert_eq!(r.read(&wire, &mut replay), Err(SsError::ProtocolViolation));
    // And a length field of 500,000 cannot even be a valid chunk length.
    assert!(!chunk_len_ok(500_000));
    assert!(!chunk_len_ok(evil_len));
    assert!(chunk_len_ok(MAX_CHUNK));
}

#[test]
fn nonces_advance_by_two_per_chunk() {
    let kind = CipherKind::Aes256Gcm;
    let key = derive_master_key(b"nonce watch", kind.key_len());
    let mut w = CryptoStream::new(kind, key);
    w.write(b"one");
    assert_eq!(w.write_nonce[0], 2);
    w.write(b"two");
    assert_eq!(w.write_nonce[0], 4);
    let data: Vec<u8> = vec![7u8; MAX_CHUNK + 1];
    w.write(&data);
    assert_eq!(w.write_nonce[0], 8);
    assert!(w.write_nonce[1..].iter().all(|&b| b == 0));
}

#[test]
fn directions_are_independent_full_duplex() {
    let kind = CipherKind::Aes256Gcm;
    let key = derive_master_key(b"duplex", kind.key_len());
    let mut a = CryptoStream::new(kind, key.clone());
    let mut b = CryptoStream::new(kind, key);
    let mut replay = ReplayContext::new(16);

    // a -> b carries its own salt; b -> a carries another.
    let wire_ab = a.write(b"ping");
    assert_eq!(b.read(&wire_ab, &mut replay).unwrap(), b"ping".to_vec());
    let wire_ba = b.write(b"pong");
    assert_eq!(a.read(&wire_ba, &mut replay).unwrap(), b"pong".to_vec());

    // Both directions keep streaming independently afterwards.
    let wire_ab2 = a.write(b"ping 2");
    assert_eq!(b.read(&wire_ab2, &mut replay).unwrap(), b"ping 2".to_vec());
    let wire_ba2 = b.write(b"pong 2");
    assert_eq!(a.read(&wire_ba2, &mut replay).unwrap(), b"pong 2".to_vec());
    assert_ne!(a.write_salt, b.write_salt);
}
