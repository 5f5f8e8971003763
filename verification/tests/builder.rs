use shadowsocks_core::builder::Address;
use shadowsocks_core::builder::ShadowsocksBuilder;
use shadowsocks_core::cipher::CipherKind;
use shadowsocks_core::error::SsError;
use shadowsocks_core::kdf::derive_master_key;
use shadowsocks_core::replay::ReplayContext;
use shadowsocks_core::stream::CryptoStream;

#[test]
fn new_rejects_unsupported_method() {
    let addr = Address::from_bytes(b"example.com:443".to_vec());
    let r = ShadowsocksBuilder::new(addr, "pw", "rot13");
    assert!(matches!(r, Err(SsError::UnsupportedCipher)));
}

#[test]
fn new_resolves_method_and_key() {
    let addr = Address::from_bytes(b"example.com:443".to_vec());
    let b = ShadowsocksBuilder::new(addr, "correct horse", "aes-256-gcm").unwrap();
    assert_eq!(b.method, CipherKind::Aes256Gcm);
    assert_eq!(b.key, derive_master_key(b"correct horse", 32));
    assert_eq!(b.key.len(), 32);
}

#[test]
fn build_udp_not_implemented() {
    let addr = Address::from_bytes(b"example.com:443".to_vec());
    let b = ShadowsocksBuilder::new(addr, "pw", "aes-128-gcm").unwrap();
    assert!(matches!(b.build_udp(), Err(SsError::NotImplemented)));
}

#[test]
fn end_to_end_address_then_payload() {
    // Writer side: build over cipher aes-256-gcm, password "correct horse",
    // destination example.com:443, then send a request.
    let addr = Address::from_bytes(b"example.com:443".to_vec());
    let b = ShadowsocksBuilder::new(addr, "correct horse", "aes-256-gcm").unwrap();
    let (mut w, handshake_wire) = b.build_tcp();
    let request_wire = w.write(b"GET / HTTP/1.1\r\n\r\n");

    // Reader side: same password and cipher, fresh replay window.
    let key = derive_master_key(b"correct horse", 32);
    let mut r = CryptoStream::new(CipherKind::Aes256Gcm, key);
    let mut replay = ReplayContext::new(16);

    // The destination address must come out first, decoded exactly.
    let first = r.read(&handshake_wire, &mut replay).unwrap();
    assert_eq!(first, b"example.com:443".to_vec());

    // Then the exact request bytes.
    let second = r.read(&request_wire, &mut replay).unwrap();
    assert_eq!(second, b"GET / HTTP/1.1\r\n\r\n".to_vec());
}

#[test]
fn cloned_builder_yields_fresh_salts() {
    let addr = Address::from_bytes(b"example.com:443".to_vec());
    let b = ShadowsocksBuilder::new(addr, "pw", "aes-128-gcm").unwrap();
    let b2 = b.clone();
    let (w1, wire1) = b.build_tcp();
    let (w2, wire2) = b2.build_tcp();
    assert_eq!(w1.write_salt.len(), 16);
    assert_eq!(w2.write_salt.len(), 16);
    // Salts are fresh per connection: a collision of two random 16-byte
    // salts is effectively impossible.
    assert_ne!(w1.write_salt, w2.write_salt);
    assert_ne!(wire1[..16], wire2[..16]);
}

#[test]
fn plain_builder_sends_address_in_clear() {
    let addr = Address::from_bytes(b"example.com:443".to_vec());
    let b = ShadowsocksBuilder::new(addr, "pw", "none").unwrap();
    let (_w, wire) = b.build_tcp();
    assert_eq!(wire, b"example.com:443".to_vec());
}
