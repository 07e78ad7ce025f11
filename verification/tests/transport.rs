use swiftssh::error::SshError;
use swiftssh::packet::{MessageType, SshPacket};
use swiftssh::session::{SessionKeys, SessionState};
use swiftssh::transport::io::{
    block_size, decrypt_in_place, expects_mac, finish_packet, open_first_block, rest_length, seal_packet,
    version_line, VersionReader,
};
use swiftssh::transport::kex::{install_session_keys, KexClient, KexServer, Role};

/// Receive one packet from `wire` the way the connection loop does.
fn open(wire: &[u8], keys: &mut SessionKeys) -> Result<SshPacket, SshError> {
    let bs = block_size(keys);
    let mut first = wire[..bs].to_vec();
    let len = open_first_block(keys, &mut first);
    let rest_len = rest_length(len, bs)?;
    let mut rest = wire[bs..bs + rest_len].to_vec();
    decrypt_in_place(keys, &mut rest);
    let mac: &[u8] = if expects_mac(keys) { &wire[bs + rest_len..bs + rest_len + 32] } else { &[] };
    finish_packet(keys, first, &rest, mac)
}

fn paired_keys() -> (SessionKeys, SessionKeys) {
    let mut client = KexClient::new();
    let mut server = KexServer::new();
    let cp = client.client_ephemeral_pub;
    let sp = server.server_ephemeral_pub;
    let rc = client.complete(&sp, "c", "s", &[1], &[2], &[3]).unwrap();
    let rs = server.complete(&cp, "c", "s", &[1], &[2], &[3]).unwrap();
    let mut ck = SessionKeys::new();
    let mut sk = SessionKeys::default();
    install_session_keys(&mut ck, &rc, Role::Client);
    install_session_keys(&mut sk, &rs, Role::Server);
    (ck, sk)
}

#[test]
fn plain_packets_roundtrip() {
    let mut a = SessionKeys::new();
    let mut b = SessionKeys::new();
    let pkt = SshPacket::new(MessageType::ServiceRequest, vec![1, 2, 3]);
    let wire = seal_packet(&pkt, &mut a).unwrap();
    assert_eq!((wire.len() - 4) % 8, 0);
    let got = open(&wire, &mut b).unwrap();
    assert_eq!((got.msg_type, got.payload), (5, vec![1, 2, 3]));
    assert_eq!((a.send_seq, b.recv_seq), (1, 1));
}

#[test]
fn encrypted_packets_roundtrip_both_ways() {
    let (mut ck, mut sk) = paired_keys();
    for i in 0..5u8 {
        let pkt = SshPacket::new(MessageType::ChannelData, vec![i; 40 + i as usize]);
        let wire = seal_packet(&pkt, &mut ck).unwrap();
        assert_ne!(&wire[6..10], &[i; 4]);
        let got = open(&wire, &mut sk).unwrap();
        assert_eq!(got.payload, vec![i; 40 + i as usize]);
        let back = SshPacket::new(MessageType::ChannelEof, vec![i]);
        let wire = seal_packet(&back, &mut sk).unwrap();
        assert_eq!(open(&wire, &mut ck).unwrap().payload, vec![i]);
    }
}

#[test]
fn tampered_packet_fails_mac() {
    let (mut ck, mut sk) = paired_keys();
    let pkt = SshPacket::new(MessageType::Ignore, vec![0; 20]);
    let mut wire = seal_packet(&pkt, &mut ck).unwrap();
    wire[10] ^= 1;
    assert!(matches!(open(&wire, &mut sk), Err(SshError::MacMismatch)));
}

#[test]
fn oversized_length_rejected() {
    match rest_length(35001, 8) {
        Err(SshError::InvalidPacket(m)) => assert_eq!(m, "Packet length too large: 35001"),
        _ => panic!("expected an error"),
    }
    assert_eq!(rest_length(12, 8).unwrap(), 8);
    let mut keys = SessionKeys::new();
    let mut block = vec![0, 0, 0x88, 0xb9, 0, 0, 0, 0];
    assert_eq!(open_first_block(&mut keys, &mut block), 35001);
}

#[test]
fn sequence_numbers_wrap() {
    let mut k = SessionKeys::new();
    k.send_seq = u32::MAX;
    assert_eq!(k.next_send_seq(), u32::MAX);
    assert_eq!(k.send_seq, 0);
    assert_eq!(k.next_recv_seq(), 0);
    assert_eq!(k.recv_seq, 1);
    assert!(!k.is_encrypted());
    assert_eq!(SessionState::Active, SessionState::Active);
}

#[test]
fn version_lines() {
    assert_eq!(version_line("SSH-2.0-X"), b"SSH-2.0-X\r\n");
    let mut r = VersionReader::new();
    let mut out = None;
    for b in version_line("SSH-2.0-Peer_1") {
        assert!(out.is_none());
        out = r.push_byte(b);
    }
    assert_eq!(out.unwrap().unwrap(), "SSH-2.0-Peer_1");
}

#[test]
fn version_line_errors() {
    let mut r = VersionReader::new();
    let mut out = None;
    for b in b"SSH-1.99-Old\r\n" {
        out = r.push_byte(*b);
    }
    match out {
        Some(Err(SshError::Protocol(m))) => assert_eq!(m, "Unsupported protocol version: SSH-1.99-Old"),
        _ => panic!("expected an error"),
    }
    let mut r = VersionReader::new();
    let mut out = None;
    for b in [0xffu8, b'\r', b'\n'] {
        out = r.push_byte(b);
    }
    assert!(matches!(out, Some(Err(SshError::Protocol(m))) if m == "Invalid UTF-8 in version string"));
    let mut r = VersionReader::new();
    let mut last = None;
    for _ in 0..256 {
        last = r.push_byte(b'a');
        if last.is_some() {
            break;
        }
    }
    assert!(matches!(last, Some(Err(SshError::Protocol(m))) if m == "Version string too long"));
}
