use swiftssh::crypto::{compute_hmac, derive_key, verify_hmac, AesCipher, CipherPair};
use swiftssh::error::SshError;

#[test]
fn test_aes_encrypt_decrypt() {
    let key = [0x42u8; 32];
    let iv = [0x00u8; 16];

    let plaintext = b"Hello, SwiftSSH!";
    let mut ciphertext = plaintext.to_vec();

    let mut enc = AesCipher::new(&key, &iv).unwrap();
    enc.apply(&mut ciphertext);
    assert_ne!(&ciphertext, plaintext);

    // Decrypt with a fresh cipher (same key/iv, CTR resets)
    let mut dec = AesCipher::new(&key, &iv).unwrap();
    dec.apply(&mut ciphertext);
    assert_eq!(&ciphertext, plaintext);
}

#[test]
fn test_hmac_verify() {
    let key = b"test-key";
    let data = b"test-data";
    let mac = compute_hmac(key, data);
    assert!(verify_hmac(key, data, &mac).is_ok());

    let mut bad_mac = mac.clone();
    bad_mac[0] ^= 0xFF;
    assert!(verify_hmac(key, data, &bad_mac).is_err());
}

#[test]
fn test_derive_key_deterministic() {
    let secret = vec![0x01; 32];
    let hash = vec![0x02; 32];
    let session_id = vec![0x03; 32];

    let k1 = derive_key(&secret, &hash, b'A', &session_id, 32);
    let k2 = derive_key(&secret, &hash, b'A', &session_id, 32);
    assert_eq!(k1, k2);

    // Different key_char produces different key
    let k3 = derive_key(&secret, &hash, b'B', &session_id, 32);
    assert_ne!(k1, k3);
}

#[test]
fn test_derive_key_extension() {
    // Request more than 32 bytes (SHA-256 output) to test key extension
    let secret = vec![0x01; 32];
    let hash = vec![0x02; 32];
    let session_id = vec![0x03; 32];

    let key = derive_key(&secret, &hash, b'C', &session_id, 64);
    assert_eq!(key.len(), 64);
}

#[test]
fn aes_ctr_known_answer() {
    // NIST SP 800-38A, F.5.5 CTR-AES256.Encrypt, first block.
    let key = [
        0x60, 0x3d, 0xeb, 0x10, 0x15, 0xca, 0x71, 0xbe, 0x2b, 0x73, 0xae, 0xf0, 0x85, 0x7d, 0x77, 0x81, 0x1f, 0x35,
        0x2c, 0x07, 0x3b, 0x61, 0x08, 0xd7, 0x2d, 0x98, 0x10, 0xa3, 0x09, 0x14, 0xdf, 0xf4,
    ];
    let iv = [
        0xf0, 0xf1, 0xf2, 0xf3, 0xf4, 0xf5, 0xf6, 0xf7, 0xf8, 0xf9, 0xfa, 0xfb, 0xfc, 0xfd, 0xfe, 0xff,
    ];
    let mut data = vec![
        0x6b, 0xc1, 0xbe, 0xe2, 0x2e, 0x40, 0x9f, 0x96, 0xe9, 0x3d, 0x7e, 0x11, 0x73, 0x93, 0x17, 0x2a,
    ];
    let mut c = AesCipher::new(&key, &iv).unwrap();
    c.apply(&mut data);
    assert_eq!(
        data,
        vec![0x60, 0x1e, 0xc3, 0x13, 0x77, 0x57, 0x89, 0xa5, 0xb7, 0xa7, 0xf5, 0x04, 0xbb, 0xf3, 0xd2, 0x28]
    );
    assert_eq!(c.used(), 16);
}

#[test]
fn aes_ctr_pieces_match_whole() {
    let key = [7u8; 32];
    let iv = [9u8; 16];
    let msg: Vec<u8> = (0..50u8).collect();
    let mut whole = msg.clone();
    AesCipher::new(&key, &iv).unwrap().apply(&mut whole);
    let mut a = msg[..13].to_vec();
    let mut b = msg[13..].to_vec();
    let mut c = AesCipher::new(&key, &iv).unwrap();
    c.apply(&mut a);
    c.apply(&mut b);
    a.extend_from_slice(&b);
    assert_eq!(a, whole);
}

#[test]
fn aes_bad_sizes_rejected() {
    match AesCipher::new(&[0u8; 31], &[0u8; 16]) {
        Err(SshError::Encryption(m)) => assert_eq!(m, "AES-256 key must be 32 bytes, got 31"),
        _ => panic!("expected an error"),
    }
    match AesCipher::new(&[0u8; 32], &[0u8; 12]) {
        Err(SshError::Encryption(m)) => assert_eq!(m, "AES IV must be 16 bytes, got 12"),
        _ => panic!("expected an error"),
    }
    assert!(CipherPair::new(&[0u8; 32], &[0u8; 16], &[0u8; 32], &[0u8; 15]).is_err());
    assert!(CipherPair::new(&[0u8; 32], &[0u8; 16], &[0u8; 32], &[0u8; 16]).is_ok());
}

#[test]
fn hmac_known_answer() {
    // The RFC 4231 HMAC-SHA-256 vector with the key "Jefe".
    let mac = compute_hmac(b"Jefe", b"what do ya want for nothing?");
    assert_eq!(
        mac,
        vec![
            0x5b, 0xdc, 0xc1, 0x46, 0xbf, 0x60, 0x75, 0x4e, 0x6a, 0x04, 0x24, 0x26, 0x08, 0x95, 0x75, 0xc7, 0x5a, 0x00,
            0x3f, 0x08, 0x9d, 0x27, 0x39, 0x83, 0x9d, 0xec, 0x58, 0xb9, 0x64, 0xec, 0x38, 0x43,
        ]
    );
    assert!(matches!(verify_hmac(b"Jefe", b"x", &mac[..31]), Err(SshError::MacMismatch)));
}

#[test]
fn derived_keys_extend_as_prefixes() {
    let secret = vec![0x81; 32];
    let hash = vec![0x02; 32];
    let short = derive_key(&secret, &hash, b'E', &hash, 20);
    let long = derive_key(&secret, &hash, b'E', &hash, 100);
    assert_eq!(short.len(), 20);
    assert_eq!(long.len(), 100);
    assert_eq!(&long[..20], &short[..]);
    assert!(derive_key(&secret, &hash, b'E', &hash, 0).is_empty());
}

#[test]
fn derive_key_known_answer() {
    // K1 = SHA-256(mpint(K) || H || 'A' || session_id), K2 = SHA-256(mpint(K) || H || K1)
    let key = derive_key(&[1u8; 32], &[2u8; 32], b'A', &[3u8; 32], 40);
    assert_eq!(
        key,
        vec![
            0xfb, 0x69, 0x84, 0x53, 0x9e, 0x52, 0xff, 0xdb, 0xa1, 0xe0, 0x9e, 0x71, 0x55, 0x67, 0x1a, 0x0c, 0xc2, 0x08,
            0x64, 0x1f, 0x44, 0x90, 0x72, 0xa4, 0x39, 0x51, 0x48, 0xf4, 0xbb, 0x8e, 0x84, 0x58, 0xbf, 0x4f, 0x34, 0x5f,
            0x35, 0x9b, 0x03, 0xb0,
        ]
    );
    // A secret with its high bit set is hashed as an mpint with a zero byte in front.
    let k = derive_key(&[0x81, 0, 0, 0], b"h", b'B', b"s", 8);
    assert_eq!(k, vec![0x59, 0xd9, 0xa6, 0xbb, 0xeb, 0x33, 0x16, 0x6c]);
}

#[test]
fn every_shorter_key_is_a_prefix() {
    let secret = vec![0x7f, 0x00, 0x33];
    let hash = vec![0x5a; 32];
    let sid = vec![0x11; 32];
    let long = derive_key(&secret, &hash, b'C', &sid, 97);
    for j in 0..=97 {
        assert_eq!(derive_key(&secret, &hash, b'C', &sid, j), long[..j].to_vec(), "length {}", j);
    }
}
