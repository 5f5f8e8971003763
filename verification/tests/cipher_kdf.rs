use shadowsocks_core::cipher::CipherKind;
use shadowsocks_core::cipher::resolve;
use shadowsocks_core::error::SsError;
use shadowsocks_core::kdf::derive_master_key;
use shadowsocks_core::kdf::derive_subkey;
use rand::Rng;

#[test]
fn resolve_known_identifiers() {
    assert_eq!(resolve("none"), Ok(CipherKind::Plain));
    assert_eq!(resolve("aes-128-gcm"), Ok(CipherKind::Aes128Gcm));
    assert_eq!(resolve("aes-256-gcm"), Ok(CipherKind::Aes256Gcm));
    assert_eq!(resolve("chacha20-ietf-poly1305"), Ok(CipherKind::ChaCha20Poly1305));
}

#[test]
fn resolve_rejects_unknown_identifiers() {
    assert_eq!(resolve(""), Err(SsError::UnsupportedCipher));
    assert_eq!(resolve("aes-256"), Err(SsError::UnsupportedCipher));
    assert_eq!(resolve("AES-256-GCM"), Err(SsError::UnsupportedCipher));
    assert_eq!(resolve("aes-256-gcm "), Err(SsError::UnsupportedCipher));
    assert_eq!(resolve("rc4-md5"), Err(SsError::UnsupportedCipher));
}

#[test]
fn cipher_parameters() {
    for kind in [
        CipherKind::Plain,
        CipherKind::Aes128Gcm,
        CipherKind::Aes256Gcm,
        CipherKind::ChaCha20Poly1305,
    ] {
        assert!(kind.key_len() == 16 || kind.key_len() == 32);
        if kind == CipherKind::Plain {
            assert_eq!(kind.salt_len(), 0);
            assert_eq!(kind.tag_len(), 0);
            assert_eq!(kind.nonce_len(), 0);
        } else {
            assert_eq!(kind.salt_len(), kind.key_len());
            assert_eq!(kind.tag_len(), 16);
            assert_eq!(kind.nonce_len(), 12);
        }
    }
}

#[test]
fn master_key_length_matches_every_cipher() {
    for kind in [
        CipherKind::Plain,
        CipherKind::Aes128Gcm,
        CipherKind::Aes256Gcm,
        CipherKind::ChaCha20Poly1305,
    ] {
        let key = derive_master_key(b"correct horse", kind.key_len());
        assert_eq!(key.len(), kind.key_len());
    }
}

#[test]
fn master_key_matches_openssl_stretch() {
    // Independent recomputation of the digest-then-concatenate stretch.
    let pw = b"barfoo!";
    let d1 = md5::compute(pw).0;
    let mut second = d1.to_vec();
    second.extend_from_slice(pw);
    let d2 = md5::compute(&second).0;
    let mut expected = d1.to_vec();
    expected.extend_from_slice(&d2);
    assert_eq!(derive_master_key(pw, 32), expected);
    assert_eq!(derive_master_key(pw, 16), d1.to_vec());
    assert_eq!(derive_master_key(pw, 20), expected[..20].to_vec());
}

#[test]
fn subkey_matches_hkdf_sha1_reference() {
    let salt = [7u8; 32];
    let key = [9u8; 32];
    let hk = hkdf::Hkdf::<sha1::Sha1>::new(Some(&salt), &key);
    let mut okm = [0u8; 64];
    hk.expand(b"ss-subkey", &mut okm).unwrap();
    assert_eq!(derive_subkey(&salt, &key, 32), okm[..32].to_vec());
}

#[test]
fn subkey_deterministic() {
    let salt = [3u8; 16];
    let key = derive_master_key(b"pw", 16);
    let a = derive_subkey(&salt, &key, 16);
    let b = derive_subkey(&salt, &key, 16);
    assert_eq!(a, b);
    assert_eq!(a.len(), 16);
}

#[test]
fn subkeys_of_distinct_salts_do_not_collide() {
    let key = derive_master_key(b"collision probe", 32);
    let mut rng = rand::rng();
    let mut salts: Vec<[u8; 32]> = Vec::new();
    for _ in 0..1000 {
        let mut s = [0u8; 32];
        rng.fill_bytes(&mut s);
        salts.push(s);
    }
    let mut subkeys: Vec<Vec<u8>> = salts.iter().map(|s| derive_subkey(s, &key, 32)).collect();
    subkeys.sort();
    for w in subkeys.windows(2) {
        assert_ne!(w[0], w[1]);
    }
}
