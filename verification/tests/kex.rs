use sha2::{Digest, Sha256};
use swiftssh::error::SshError;
use swiftssh::packet::{MessageType, SshPacket};
use swiftssh::session::SessionKeys;
use swiftssh::transport::io::{seal_packet, block_size};
use swiftssh::transport::kex::{
    build_ecdh_init, build_ecdh_reply, build_kexinit_payload, build_kexinit_payload_with_cookie,
    install_session_keys, kexinit_transcript, parse_ecdh_init, parse_ecdh_reply, KexClient, KexServer, Role,
    KEX_ALGORITHMS,
};

#[test]
fn test_kex_exchange() {
    let mut client = KexClient::new();
    let mut server = KexServer::new();

    let client_version = "SSH-2.0-SwiftSSH_client";
    let server_version = "SSH-2.0-SwiftSSH_server";
    let client_kexinit = build_kexinit_payload();
    let server_kexinit = build_kexinit_payload();
    let host_key_blob = b"fake-host-key";

    let client_pub = client.client_ephemeral_pub;
    let server_pub = server.server_ephemeral_pub;

    let server_result = server
        .complete(&client_pub, client_version, server_version, &client_kexinit, &server_kexinit, host_key_blob)
        .unwrap();

    let client_result = client
        .complete(&server_pub, client_version, server_version, &client_kexinit, &server_kexinit, host_key_blob)
        .unwrap();

    assert_eq!(client_result.shared_secret, server_result.shared_secret);
    assert_eq!(client_result.exchange_hash, server_result.exchange_hash);
}

#[test]
fn test_kexinit_payload_not_empty() {
    let payload = build_kexinit_payload();
    assert!(payload.len() > 16); // at least the cookie
}

#[test]
fn kex_completes_only_once() {
    let mut client = KexClient::new();
    let peer = KexServer::new().server_ephemeral_pub;
    assert!(client.complete(&peer, "a", "b", &[], &[], &[]).is_ok());
    match client.complete(&peer, "a", "b", &[], &[], &[]) {
        Err(SshError::KeyExchange(m)) => assert_eq!(m, "Key exchange already completed"),
        _ => panic!("expected an error"),
    }
    let mut server = KexServer::new();
    assert!(server.complete(&peer, "a", "b", &[], &[], &[]).is_ok());
    assert!(server.complete(&peer, "a", "b", &[], &[], &[]).is_err());
}

#[test]
fn exchange_hash_depends_on_transcript() {
    let mut c1 = KexClient::new();
    let s = KexServer::new();
    let r1 = c1.complete(&s.server_ephemeral_pub, "v1", "v2", &[1], &[2], &[3]).unwrap();
    assert_eq!(r1.exchange_hash.len(), 32);
    assert_eq!(r1.shared_secret.len(), 32);
}

#[test]
fn kexinit_payload_layout() {
    let cookie = [0xaau8; 16];
    let p = build_kexinit_payload_with_cookie(&cookie);
    assert_eq!(&p[..16], &cookie);
    assert_eq!(&p[16..20], &[0, 0, 0, 17]);
    assert_eq!(&p[20..37], KEX_ALGORITHMS[0].as_bytes());
    // two empty language lists, first_kex_packet_follows, reserved
    assert_eq!(&p[p.len() - 13..], &[0, 0, 0, 0, 0, 0, 0, 0, 0, 0, 0, 0, 0]);
    let t = kexinit_transcript(&p);
    assert_eq!(t[0], MessageType::KexInit.to_u8());
    assert_eq!(&t[1..], &p[..]);
}

#[test]
fn ecdh_messages_roundtrip() {
    let pk = [5u8; 32];
    let init = build_ecdh_init(&pk);
    assert_eq!(init.msg_type, 30);
    assert_eq!(parse_ecdh_init(&init.payload).unwrap(), pk);
    let reply = build_ecdh_reply(b"host", &pk, &[1, 2, 3]);
    assert_eq!(reply.msg_type, 31);
    let (blob, f) = parse_ecdh_reply(&reply.payload).unwrap();
    assert_eq!(blob, b"host");
    assert_eq!(f, pk);
}

#[test]
fn ecdh_bad_key_lengths_rejected() {
    let init = vec![0, 0, 0, 2, 1, 2];
    match parse_ecdh_init(&init) {
        Err(SshError::KeyExchange(m)) => assert_eq!(m, "Invalid client public key length"),
        _ => panic!("expected an error"),
    }
    assert!(matches!(parse_ecdh_init(&[0, 0]), Err(SshError::InvalidPacket(_))));
    let reply = vec![0, 0, 0, 0, 0, 0, 0, 1, 9, 0, 0, 0, 0];
    match parse_ecdh_reply(&reply) {
        Err(SshError::KeyExchange(m)) => assert_eq!(m, "Invalid server public key length"),
        _ => panic!("expected an error"),
    }
    assert!(matches!(parse_ecdh_reply(&reply[..9]), Err(SshError::InvalidPacket(_))));
}

#[test]
fn installed_keys_switch_on_encryption() {
    let mut client = KexClient::new();
    let mut server = KexServer::new();
    let cp = client.client_ephemeral_pub;
    let sp = server.server_ephemeral_pub;
    let rc = client.complete(&sp, "c", "s", &[1], &[2], &[3]).unwrap();
    let rs = server.complete(&cp, "c", "s", &[1], &[2], &[3]).unwrap();
    let mut ck = SessionKeys::new();
    let mut sk = SessionKeys::new();
    install_session_keys(&mut ck, &rc, Role::Client);
    install_session_keys(&mut sk, &rs, Role::Server);
    assert!(ck.is_encrypted() && sk.is_encrypted());
    assert_eq!(block_size(&ck), 16);
    assert_eq!(ck.session_id, Some(rc.exchange_hash.clone()));
    assert_eq!(ck.send_mac_key, sk.recv_mac_key);
    assert_eq!(ck.recv_mac_key, sk.send_mac_key);
    assert_ne!(ck.send_mac_key, ck.recv_mac_key);
    // What the client seals, the server opens (exercised in full in the transport tests).
    let pkt = SshPacket::new(MessageType::Ignore, vec![1]);
    let wire = seal_packet(&pkt, &mut ck).unwrap();
    assert_eq!(wire.len(), 20 + 32);
}

#[test]
fn exchange_hash_covers_the_transcript() {
    fn string(out: &mut Vec<u8>, b: &[u8]) {
        out.extend_from_slice(&(b.len() as u32).to_be_bytes());
        out.extend_from_slice(b);
    }
    let mut client = KexClient::new();
    let server = KexServer::new();
    let e = client.client_ephemeral_pub;
    let f = server.server_ephemeral_pub;
    let r = client.complete(&f, "V_C", "V_S", &[20, 1], &[20, 2], b"K_S").unwrap();
    let mut t = Vec::new();
    string(&mut t, b"V_C");
    string(&mut t, b"V_S");
    string(&mut t, &[20, 1]);
    string(&mut t, &[20, 2]);
    string(&mut t, b"K_S");
    string(&mut t, &e);
    string(&mut t, &f);
    // K as an mpint
    let k = &r.shared_secret;
    let start = k.iter().position(|&b| b != 0).unwrap_or(k.len() - 1);
    let mag = &k[start..];
    if mag[0] & 0x80 != 0 {
        t.extend_from_slice(&((mag.len() + 1) as u32).to_be_bytes());
        t.push(0);
    } else {
        t.extend_from_slice(&(mag.len() as u32).to_be_bytes());
    }
    t.extend_from_slice(mag);
    assert_eq!(r.exchange_hash, Sha256::digest(&t).to_vec());
}

#[test]
fn shared_secret_depends_on_both_key_pairs() {
    let mut basepoint = [0u8; 32];
    basepoint[0] = 9;
    let mut client = KexClient::new();
    let mut other_client = KexClient::new();
    let server = KexServer::new();
    let server_pub = server.server_ephemeral_pub;
    assert_ne!(client.client_ephemeral_pub, basepoint);
    assert_ne!(client.client_ephemeral_pub, other_client.client_ephemeral_pub);
    let a = client.complete(&server_pub, "a", "b", &[], &[], &[]).unwrap();
    let b = other_client.complete(&server_pub, "a", "b", &[], &[], &[]).unwrap();
    assert_ne!(a.shared_secret, server_pub.to_vec());
    assert_ne!(a.shared_secret, b.shared_secret);
}
