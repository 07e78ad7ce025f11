use swiftssh::auth::{
    build_auth_failure, build_auth_success, build_password_auth_request, build_pubkey_auth_request,
    build_service_accept, build_service_request, AuthRequest, Credential, UserDatabase,
};
use swiftssh::error::SshError;
use swiftssh::packet::MessageType;

#[test]
fn test_user_database() {
    let mut db = UserDatabase::new();
    db.add_password_user("alice", "secret123");
    db.add_public_key("bob", vec![1, 2, 3, 4]);

    assert!(db.verify_password("alice", "secret123"));
    assert!(!db.verify_password("alice", "wrong"));
    assert!(!db.verify_password("nobody", "secret123"));

    assert!(db.is_key_authorized("bob", &[1, 2, 3, 4]));
    assert!(!db.is_key_authorized("bob", &[5, 6, 7, 8]));
    assert!(!db.is_key_authorized("alice", &[1, 2, 3, 4]));
}

#[test]
fn test_password_auth_roundtrip() {
    let pkt = build_password_auth_request("alice", "ssh-connection", "mypass");
    let req = AuthRequest::parse(&pkt.payload).unwrap();
    assert_eq!(req.username, "alice");
    assert_eq!(req.service, "ssh-connection");
    assert_eq!(req.method, "password");
    match req.credential {
        Credential::Password(p) => assert_eq!(p, "mypass"),
        _ => panic!("Expected password credential"),
    }
}

#[test]
fn test_pubkey_auth_roundtrip() {
    let key_blob = vec![10, 20, 30];
    let sig = vec![40, 50, 60];
    let pkt = build_pubkey_auth_request("bob", "ssh-connection", "ssh-ed25519", &key_blob, Some(&sig));
    let req = AuthRequest::parse(&pkt.payload).unwrap();
    assert_eq!(req.username, "bob");
    assert_eq!(req.method, "publickey");
    match req.credential {
        Credential::PublicKey { algorithm, key_blob: kb, signature: s } => {
            assert_eq!(algorithm, "ssh-ed25519");
            assert_eq!(kb, key_blob);
            assert_eq!(s, Some(sig));
        }
        _ => panic!("Expected public key credential"),
    }
}

#[test]
fn password_replaced_by_later_add() {
    let mut db = UserDatabase::new();
    db.add_password_user("carol", "old");
    db.add_password_user("carol", "new");
    assert!(db.verify_password("carol", "new"));
    assert!(!db.verify_password("carol", "old"));
}

#[test]
fn several_keys_per_user() {
    let mut db = UserDatabase::default();
    db.add_public_key("dave", vec![1]);
    db.add_public_key("dave", vec![2, 2]);
    assert!(db.is_key_authorized("dave", &[1]));
    assert!(db.is_key_authorized("dave", &[2, 2]));
    assert!(!db.is_key_authorized("dave", &[3]));
}

#[test]
fn unsupported_auth_method_rejected() {
    // username "u", service "s", method "none"
    let payload = vec![0, 0, 0, 1, b'u', 0, 0, 0, 1, b's', 0, 0, 0, 4, b'n', b'o', b'n', b'e'];
    match AuthRequest::parse(&payload) {
        Err(SshError::AuthFailed(m)) => assert_eq!(m, "Unsupported auth method: none"),
        other => panic!("unexpected: {:?}", other.is_ok()),
    }
}

#[test]
fn truncated_auth_request_rejected() {
    let pkt = build_password_auth_request("alice", "ssh-connection", "mypass");
    let cut = &pkt.payload[..pkt.payload.len() - 2];
    assert!(matches!(AuthRequest::parse(cut), Err(SshError::InvalidPacket(_))));
}

#[test]
fn auth_replies_have_exact_bytes() {
    let ok = build_auth_success();
    assert_eq!(ok.msg_type, MessageType::UserAuthSuccess.to_u8());
    assert!(ok.payload.is_empty());

    let fail = build_auth_failure(&["password", "publickey"], false);
    assert_eq!(fail.msg_type, 51);
    let mut expected = vec![0, 0, 0, 18];
    expected.extend_from_slice(b"password,publickey");
    expected.push(0);
    assert_eq!(fail.payload, expected);

    let req = build_service_request("ssh-userauth");
    assert_eq!(req.msg_type, 5);
    let mut svc = vec![0, 0, 0, 12];
    svc.extend_from_slice(b"ssh-userauth");
    assert_eq!(req.payload, svc);
    let acc = build_service_accept("ssh-userauth");
    assert_eq!(acc.msg_type, 6);
    assert_eq!(acc.payload, svc);
}
