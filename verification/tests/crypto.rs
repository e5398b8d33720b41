//! The session-key layer: keypair generation, the DER wire encoding of
//! public keys, and PKCS#1 v1.5 encryption of whole messages.

use p2p_node::crypto::{decrypt, encrypt, generate_keypair, parse_public_key, respond_handshake,
    serialize_public_key};

#[test]
fn serialize_parse_round_trip() {
    let (_sk, pk) = generate_keypair().expect("keypair");
    let der = serialize_public_key(&pk);
    let parsed = parse_public_key(&der).expect("generated key parses back");
    assert_eq!(serialize_public_key(&parsed), der);
}

#[test]
fn parse_rejects_garbage() {
    assert!(parse_public_key(&[1u8, 2, 3, 4]).is_none());
    assert!(parse_public_key(&[]).is_none());
}

#[test]
fn encrypt_decrypt_round_trip() {
    let (sk, pk) = generate_keypair().expect("keypair");
    for msg in [&b""[..], b"hi", b"a somewhat longer message, 40 bytes long"] {
        let cipher = encrypt(&pk, msg).expect("message fits one block");
        assert_eq!(cipher.len(), 64);
        let plain = decrypt(&sk, &cipher).expect("matching key decrypts");
        assert_eq!(plain, msg.to_vec());
    }
}

#[test]
fn encrypt_round_trip_at_maximum_payload() {
    let (sk, pk) = generate_keypair().expect("keypair");
    let msg = vec![7u8; 53];
    let cipher = encrypt(&pk, &msg).expect("53 bytes fit a 512-bit block");
    assert_eq!(decrypt(&sk, &cipher), Some(msg));
}

#[test]
fn encrypt_rejects_oversized_message() {
    let (_sk, pk) = generate_keypair().expect("keypair");
    let msg = vec![7u8; 54];
    assert!(encrypt(&pk, &msg).is_none());
}

#[test]
fn mismatched_private_key_does_not_recover_plaintext() {
    let (_sk1, pk1) = generate_keypair().expect("keypair one");
    let (sk2, _pk2) = generate_keypair().expect("keypair two");
    let msg = b"secret".to_vec();
    let cipher = encrypt(&pk1, &msg).expect("encrypt");
    match decrypt(&sk2, &cipher) {
        None => (),
        Some(other) => assert_ne!(other, msg),
    }
}

#[test]
fn decrypt_rejects_garbage() {
    let (sk, _pk) = generate_keypair().expect("keypair");
    assert!(decrypt(&sk, &[0u8; 64]).is_none());
}

#[test]
fn responder_keeps_initiator_key_as_sent() {
    let (a_sk, a_pk) = generate_keypair().expect("initiator keypair");
    let a_der = serialize_public_key(&a_pk);
    let hk = respond_handshake(&a_der).expect("responder accepts the key");
    assert_eq!(serialize_public_key(&hk.peer_key), a_der);
    // The stored key behaves as the initiator's: what the responder encrypts
    // under it, the initiator's private half decrypts.
    let cipher = encrypt(&hk.peer_key, b"pong").expect("encrypt");
    assert_eq!(decrypt(&a_sk, &cipher), Some(b"pong".to_vec()));
    // And the responder's own halves match each other.
    let cipher2 = encrypt(&hk.local_public, b"ping").expect("encrypt");
    assert_eq!(decrypt(&hk.local_private, &cipher2), Some(b"ping".to_vec()));
}

#[test]
fn responder_rejects_malformed_key() {
    assert!(respond_handshake(&[0u8; 16]).is_none());
}
