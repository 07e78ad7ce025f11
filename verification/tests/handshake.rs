use swiftssh::error::SshError;
use swiftssh::packet::{MessageType, SshPacket};
use swiftssh::session::HandshakePhase;
use swiftssh::transport::kex::Role;

fn pkt(t: MessageType) -> SshPacket {
    SshPacket::new(t, Vec::new())
}

#[test]
fn server_walks_the_handshake_in_order() {
    let order = [
        MessageType::KexInit,
        MessageType::KexEcdhInit,
        MessageType::NewKeys,
        MessageType::ServiceRequest,
        MessageType::UserAuthRequest,
    ];
    let mut phase = HandshakePhase::start();
    for t in order {
        assert!(!phase.is_connected());
        assert!(phase.check(Role::Server, &pkt(t)).is_ok());
        phase = phase.next(true);
    }
    assert_eq!(phase, HandshakePhase::Connected);
    assert!(phase.is_connected());
}

#[test]
fn failed_authentication_keeps_the_server_waiting() {
    let phase = HandshakePhase::Auth;
    assert_eq!(phase.next(false), HandshakePhase::Auth);
    assert_eq!(phase.next(true), HandshakePhase::Connected);
    assert_eq!(HandshakePhase::Service.next(false), HandshakePhase::Auth);
}

#[test]
fn out_of_order_messages_are_protocol_errors() {
    let cases = [
        (Role::Server, HandshakePhase::KexInit, "Expected KEXINIT"),
        (Role::Client, HandshakePhase::KexInit, "Expected KEXINIT from server"),
        (Role::Server, HandshakePhase::Ecdh, "Expected KEX_ECDH_INIT"),
        (Role::Client, HandshakePhase::Ecdh, "Expected KEX_ECDH_REPLY"),
        (Role::Server, HandshakePhase::NewKeys, "Expected NEWKEYS"),
        (Role::Client, HandshakePhase::NewKeys, "Expected NEWKEYS"),
        (Role::Server, HandshakePhase::Service, "Expected SERVICE_REQUEST"),
        (Role::Client, HandshakePhase::Service, "Expected SERVICE_ACCEPT"),
        (Role::Server, HandshakePhase::Auth, "Expected USERAUTH_REQUEST"),
    ];
    for (role, phase, text) in cases {
        match phase.check(role, &pkt(MessageType::ChannelData)) {
            Err(SshError::Protocol(m)) => assert_eq!(m, text),
            _ => panic!("no protocol error for {:?} {:?}", role, phase),
        }
    }
}

#[test]
fn client_reads_the_answer_to_its_auth_request() {
    let phase = HandshakePhase::Auth;
    assert!(phase.check(Role::Client, &pkt(MessageType::UserAuthSuccess)).is_ok());
    assert!(matches!(
        phase.check(Role::Client, &pkt(MessageType::UserAuthFailure)),
        Err(SshError::AuthFailed(m)) if m == "Authentication rejected by server"
    ));
    assert!(matches!(
        phase.check(Role::Client, &pkt(MessageType::UserAuthRequest)),
        Err(SshError::Protocol(m)) if m == "Unexpected auth response"
    ));
    assert!(phase.check(Role::Client, &pkt(MessageType::KexEcdhReply)).is_err());
    assert!(HandshakePhase::Ecdh.check(Role::Client, &pkt(MessageType::KexEcdhReply)).is_ok());
}
