use swiftssh::auth::{build_password_auth_request, build_pubkey_auth_request, AuthRequest, UserDatabase};
use swiftssh::client::{
    auth_outcome, build_disconnect, channel_confirmation, expect_message, parse_open_confirmation, session_step, ClientStep,
};
use swiftssh::connection::{build_channel_data, build_channel_open, build_exec_request, build_shell_request};
use swiftssh::error::SshError;
use swiftssh::packet::{MessageType, SshPacket};
use swiftssh::server::{auth_response, ServerAction, ServerConfig, ServerSession};
use swiftssh::sftp::{FsOutcome, PathFacts, SftpPacket, SSH_FXP_OPENDIR, SSH_FXP_STATUS};

fn sent(a: ServerAction) -> Vec<SshPacket> {
    match a {
        ServerAction::Send(ps) => ps,
        _ => panic!("expected packets to send"),
    }
}

fn open_session_channel(s: &mut ServerSession, sender: u32) -> Vec<SshPacket> {
    sent(s.handle_message(&build_channel_open("session", sender, 1000, 500)).unwrap())
}

#[test]
fn server_config_defaults() {
    let c = ServerConfig::default();
    assert_eq!(c.bind_addr, "0.0.0.0");
    assert_eq!(c.port, 2222);
    assert_eq!(c.sftp_root, "/tmp/swiftssh");
}

#[test]
fn auth_answers() {
    let mut db = UserDatabase::new();
    db.add_password_user("admin", "admin");
    db.add_public_key("k", vec![1, 2]);
    let ok = AuthRequest::parse(&build_password_auth_request("admin", "ssh-connection", "admin").payload).unwrap();
    let (p, yes) = auth_response(&db, &ok);
    assert!(yes);
    assert_eq!(p.msg_type, 52);
    let bad = AuthRequest::parse(&build_password_auth_request("admin", "ssh-connection", "x").payload).unwrap();
    let (p, yes) = auth_response(&db, &bad);
    assert!(!yes);
    assert_eq!(p.msg_type, 51);
    let unsigned =
        AuthRequest::parse(&build_pubkey_auth_request("k", "ssh-connection", "ssh-ed25519", &[1, 2], None).payload)
            .unwrap();
    let (p, yes) = auth_response(&db, &unsigned);
    assert!(!yes);
    assert_eq!(p.msg_type, 51);
    let signed = AuthRequest::parse(
        &build_pubkey_auth_request("k", "ssh-connection", "ssh-ed25519", &[1, 2], Some(&[9, 9])).payload,
    )
    .unwrap();
    let (p, yes) = auth_response(&db, &signed);
    assert!(!yes);
    assert_eq!(p.msg_type, 51);
    let other_key = AuthRequest::parse(
        &build_pubkey_auth_request("k", "ssh-connection", "ssh-ed25519", &[3], Some(&[9, 9])).payload,
    )
    .unwrap();
    assert!(!auth_response(&db, &other_key).1);
}

#[test]
fn channel_open_is_confirmed() {
    let mut s = ServerSession::new("/tmp/swiftssh");
    let ps = open_session_channel(&mut s, 9);
    assert_eq!(ps.len(), 1);
    assert_eq!(ps[0].msg_type, MessageType::ChannelOpenConfirmation.to_u8());
    assert_eq!(
        ps[0].payload,
        vec![0, 0, 0, 9, 0, 0, 0, 0, 0, 0x20, 0, 0, 0, 0, 0x80, 0]
    );
    let ps = open_session_channel(&mut s, 10);
    assert_eq!(&ps[0].payload[4..8], &[0, 0, 0, 1]);
    assert!(!s.channel_ids_exhausted());
}

#[test]
fn exec_request_hands_out_the_command() {
    let mut s = ServerSession::new("/tmp/swiftssh");
    open_session_channel(&mut s, 4);
    match s.handle_message(&build_exec_request(4, "echo hi", true)).unwrap() {
        ServerAction::Exec { recipient, want_reply, command } => {
            assert_eq!((recipient, want_reply, command.as_str()), (4, true, "echo hi"));
        }
        _ => panic!("expected a command"),
    }
    let ps = s.exec_finished(4, true, b"hi\n").unwrap();
    let types: Vec<u8> = ps.iter().map(|p| p.msg_type).collect();
    assert_eq!(types, vec![99, 94, 96, 97]);
    assert_eq!(ps[1].payload, vec![0, 0, 0, 4, 0, 0, 0, 3, b'h', b'i', b'\n']);
    assert!(matches!(s.exec_finished(5, false, b""), Err(SshError::Channel(_))));
    assert_eq!(s.exec_finished(4, false, b"").unwrap().len(), 3);
}

#[test]
fn shell_and_unknown_requests() {
    let mut s = ServerSession::new("/tmp/swiftssh");
    open_session_channel(&mut s, 4);
    let ps = sent(s.handle_message(&build_shell_request(4, true)).unwrap());
    assert_eq!((ps[0].msg_type, ps[0].payload.clone()), (99, vec![0, 0, 0, 4]));
    assert!(sent(s.handle_message(&build_shell_request(4, false)).unwrap()).is_empty());
    assert!(matches!(s.handle_message(&build_shell_request(8, true)), Err(SshError::Channel(_))));
    // "env" is not supported: failure
    let mut payload = vec![0, 0, 0, 4, 0, 0, 0, 3, b'e', b'n', b'v', 1];
    payload.extend_from_slice(&[0, 0, 0, 0]);
    let ps = sent(s.handle_message(&SshPacket { msg_type: 98, payload }).unwrap());
    assert_eq!(ps[0].msg_type, 100);
    // exec with malformed command data
    let bad = SshPacket { msg_type: 98, payload: vec![0, 0, 0, 4, 0, 0, 0, 4, b'e', b'x', b'e', b'c', 1, 0, 0] };
    assert!(matches!(s.handle_message(&bad), Err(SshError::InvalidPacket(_))));
}

#[test]
fn sftp_over_channel_data() {
    let mut s = ServerSession::new("/srv");
    open_session_channel(&mut s, 3);
    let req = SftpPacket::new(SSH_FXP_OPENDIR, 1, vec![0, 0, 0, 1, b'd']).encode();
    let action = s.handle_message(&build_channel_data(3, &req)).unwrap();
    let (recipient, task) = match action {
        ServerAction::SftpResolve { recipient, task } => (recipient, task),
        _ => panic!("expected a path to resolve"),
    };
    assert_eq!(recipient, 3);
    let task = match s.sftp_resolved(recipient, task, PathFacts::Unknown, None).unwrap() {
        ServerAction::SftpPerform { task, .. } => task,
        _ => panic!("expected file work"),
    };
    let ps = sent(s.sftp_completed(3, task, FsOutcome::IsDir(false)).unwrap());
    assert_eq!(ps[0].msg_type, 94);
    // channel data: recipient, string( sftp packet )
    let inner = &ps[0].payload[8..];
    let reply = SftpPacket::decode(&inner[4..]).unwrap();
    assert_eq!(reply.packet_type, SSH_FXP_STATUS);
    assert_eq!(reply.request_id, 1);
    // Too short to be SFTP: ignored
    assert!(sent(s.handle_message(&build_channel_data(3, &[1, 2])).unwrap()).is_empty());
}

#[test]
fn window_eof_close_disconnect() {
    let mut s = ServerSession::new("/tmp/swiftssh");
    open_session_channel(&mut s, 6);
    let adjust = SshPacket { msg_type: 93, payload: vec![0, 0, 0, 6, 0, 0, 0, 10] };
    assert!(sent(s.handle_message(&adjust).unwrap()).is_empty());
    let eof = SshPacket { msg_type: 96, payload: vec![0, 0, 0, 6] };
    assert!(sent(s.handle_message(&eof).unwrap()).is_empty());
    let close = SshPacket { msg_type: 97, payload: vec![0, 0, 0, 6] };
    let ps = sent(s.handle_message(&close).unwrap());
    assert_eq!((ps[0].msg_type, ps[0].payload.clone()), (97, vec![0, 0, 0, 6]));
    let close_unknown = SshPacket { msg_type: 97, payload: vec![0, 0, 0, 7] };
    assert!(sent(s.handle_message(&close_unknown).unwrap()).is_empty());
    assert!(matches!(s.handle_message(&SshPacket { msg_type: 96, payload: vec![] }), Err(SshError::InvalidPacket(_))));
    assert!(matches!(s.handle_message(&SshPacket { msg_type: 1, payload: vec![] }).unwrap(), ServerAction::Stop));
    assert!(sent(s.handle_message(&SshPacket { msg_type: 2, payload: vec![] }).unwrap()).is_empty());
    assert!(!s.sftp_handles_exhausted());
}

#[test]
fn client_decisions() {
    assert!(auth_outcome(52).is_ok());
    assert!(matches!(auth_outcome(51), Err(SshError::AuthFailed(m)) if m == "Authentication rejected by server"));
    assert!(matches!(auth_outcome(3), Err(SshError::Protocol(m)) if m == "Unexpected auth response"));
    let p = SshPacket::new(MessageType::NewKeys, vec![]);
    assert!(expect_message(&p, MessageType::NewKeys, "Expected NEWKEYS").is_ok());
    assert!(matches!(expect_message(&p, MessageType::KexInit, "Expected KEXINIT"), Err(SshError::Protocol(m)) if m == "Expected KEXINIT"));
    assert_eq!(
        parse_open_confirmation(&[0, 0, 0, 1, 0, 0, 0, 2, 0, 0, 0, 3, 0, 0, 0, 4]).unwrap(),
        (1, 2, 3, 4)
    );
    assert!(parse_open_confirmation(&[0, 0, 0, 1]).is_err());
    let not_confirmed = SshPacket { msg_type: 92, payload: vec![] };
    assert!(matches!(channel_confirmation(&not_confirmed), Err(SshError::Channel(m)) if m == "Channel open failed"));
    let confirmed = SshPacket { msg_type: 91, payload: vec![0, 0, 0, 1, 0, 0, 0, 2, 0, 0, 0, 3, 0, 0, 0, 4] };
    assert_eq!(channel_confirmation(&confirmed).unwrap(), (1, 2, 3, 4));
    match session_step(&build_channel_data(0, b"out"), 5, false).unwrap() {
        ClientStep::Stdout(d) => assert_eq!(d, b"out"),
        _ => panic!("expected output"),
    }
    let ext = SshPacket { msg_type: 95, payload: vec![0, 0, 0, 0, 0, 0, 0, 1, 0, 0, 0, 1, b'e'] };
    assert!(matches!(session_step(&ext, 5, false).unwrap(), ClientStep::Stderr(d) if d == b"e"));
    assert!(matches!(session_step(&ext, 5, true).unwrap(), ClientStep::Continue));
    match session_step(&SshPacket { msg_type: 97, payload: vec![0, 0, 0, 0] }, 5, false).unwrap() {
        ClientStep::CloseAndStop(p) => assert_eq!((p.msg_type, p.payload), (97, vec![0, 0, 0, 5])),
        _ => panic!("expected a close"),
    }
    let d = build_disconnect();
    assert_eq!(d.msg_type, 1);
    assert_eq!(&d.payload[..4], &[0, 0, 0, 11]);
}
