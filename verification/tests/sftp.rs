use swiftssh::error::SshError;
use swiftssh::packet::Cursor;
use swiftssh::sftp::{
    attrs_from_metadata, build_sftp_attrs, build_sftp_data, build_sftp_handle, build_sftp_init, build_sftp_name,
    build_sftp_status, build_sftp_version, normalize_path, path_components, path_starts_with, path_text, FileAttrs,
    FsOp, FsOutcome, PathComponent, PathFacts, PathOp, ReadOutcome, SftpAction, SftpHandler, SftpPacket, WriteOutcome,
    SSH_FILEXFER_ATTR_PERMISSIONS, SSH_FILEXFER_ATTR_SIZE, SSH_FXF_READ, SSH_FXF_WRITE, SSH_FXP_ATTRS,
    SSH_FXP_CLOSE, SSH_FXP_DATA, SSH_FXP_HANDLE, SSH_FXP_NAME, SSH_FXP_OPEN, SSH_FXP_OPENDIR, SSH_FXP_READ,
    SSH_FXP_READDIR, SSH_FXP_REALPATH, SSH_FXP_STATUS, SSH_FXP_WRITE, SSH_FX_EOF, SSH_FX_FAILURE, SSH_FX_OK,
    SSH_FX_OP_UNSUPPORTED, SSH_FX_PERMISSION_DENIED,
};

#[test]
fn test_sftp_packet_roundtrip() {
    let pkt = SftpPacket::new(SSH_FXP_OPEN, 42, vec![1, 2, 3]);
    let encoded = pkt.encode();

    // Skip the 4-byte length prefix for decode
    let decoded = SftpPacket::decode(&encoded[4..]).unwrap();
    assert_eq!(decoded.packet_type, SSH_FXP_OPEN);
    assert_eq!(decoded.request_id, 42);
    assert_eq!(decoded.data, vec![1, 2, 3]);
}

#[test]
fn test_file_attrs_encode_decode() {
    let attrs = FileAttrs {
        flags: SSH_FILEXFER_ATTR_SIZE | SSH_FILEXFER_ATTR_PERMISSIONS,
        size: Some(1024),
        permissions: Some(0o755),
        ..Default::default()
    };

    let encoded = attrs.encode();
    let mut cursor = Cursor::new(encoded.as_slice());
    let decoded = FileAttrs::decode(&mut cursor).unwrap();
    assert_eq!(decoded.size, Some(1024));
    assert_eq!(decoded.permissions, Some(0o755));
}

#[test]
fn test_sftp_handler_path_traversal() {
    let handler = SftpHandler::new("/tmp/sftp_test_root");
    // Attempting to escape root should fail (neither path exists, so both are
    // normalized lexically).
    let result = handler.resolve_path("../../etc/passwd", PathFacts::Unknown, None);
    assert!(result.is_err());
}

fn status_code(p: &SftpPacket) -> u32 {
    assert_eq!(p.packet_type, SSH_FXP_STATUS);
    u32::from_be_bytes([p.data[0], p.data[1], p.data[2], p.data[3]])
}

fn reply(a: SftpAction) -> SftpPacket {
    match a {
        SftpAction::Reply(p) => p,
        _ => panic!("expected a reply"),
    }
}

fn path_request(t: u8, id: u32, path: &str) -> SftpPacket {
    let mut data = vec![];
    data.extend_from_slice(&(path.len() as u32).to_be_bytes());
    data.extend_from_slice(path.as_bytes());
    SftpPacket::new(t, id, data)
}

#[test]
fn sftp_builders_exact_bytes() {
    assert_eq!(build_sftp_init(), vec![0, 0, 0, 5, 1, 0, 0, 0, 3]);
    assert_eq!(build_sftp_version(), vec![0, 0, 0, 5, 2, 0, 0, 0, 3]);
    let st = build_sftp_status(7, SSH_FX_OK, "OK");
    assert_eq!(st.request_id, 7);
    assert_eq!(st.data, vec![0, 0, 0, 0, 0, 0, 0, 2, b'O', b'K', 0, 0, 0, 2, b'e', b'n']);
    let h = build_sftp_handle(1, &[0, 0, 0, 9]);
    assert_eq!((h.packet_type, h.data.clone()), (SSH_FXP_HANDLE, vec![0, 0, 0, 4, 0, 0, 0, 9]));
    let d = build_sftp_data(1, &[5]);
    assert_eq!((d.packet_type, d.data.clone()), (SSH_FXP_DATA, vec![0, 0, 0, 1, 5]));
    let a = build_sftp_attrs(1, &FileAttrs::default());
    assert_eq!((a.packet_type, a.data.clone()), (SSH_FXP_ATTRS, vec![0, 0, 0, 0]));
    let n = build_sftp_name(1, &[("f".to_string(), FileAttrs::default())]);
    assert_eq!(n.packet_type, SSH_FXP_NAME);
    assert_eq!(n.data, vec![0, 0, 0, 1, 0, 0, 0, 1, b'f', 0, 0, 0, 1, b'f', 0, 0, 0, 0]);
}

#[test]
fn attrs_with_every_field_roundtrip() {
    let attrs = FileAttrs {
        flags: 0x0f,
        size: Some(1),
        uid: Some(2),
        gid: Some(3),
        permissions: Some(4),
        atime: Some(5),
        mtime: Some(6),
    };
    let enc = attrs.encode();
    assert_eq!(enc.len(), 4 + 8 + 8 + 4 + 8);
    let mut c = Cursor::new(enc.as_slice());
    let back = FileAttrs::decode(&mut c).unwrap();
    assert_eq!(
        (back.flags, back.size, back.uid, back.gid, back.permissions, back.atime, back.mtime),
        (0x0f, Some(1), Some(2), Some(3), Some(4), Some(5), Some(6))
    );
    let m = attrs_from_metadata(10, 0o644, 1000, 1001);
    assert_eq!(m.flags, 7);
    assert_eq!((m.size, m.uid, m.gid, m.permissions), (Some(10), Some(1000), Some(1001), Some(0o644)));
}

#[test]
fn short_sftp_packet_rejected() {
    assert!(matches!(SftpPacket::decode(&[1, 0, 0, 0]), Err(SshError::Sftp(_))));
}

#[test]
fn paths_normalize_and_join() {
    let p = path_components("/a/./b//../c/");
    assert_eq!(path_text(&p), "/a/b/../c");
    assert_eq!(path_text(&normalize_path(&p)), "/a/c");
    assert!(path_starts_with(&normalize_path(&p), &path_components("/a")));
    assert!(!path_starts_with(&path_components("/ab"), &path_components("/a")));
    let rel = path_components("./x");
    assert!(matches!(rel[0], PathComponent::CurDir));
}

#[test]
fn resolve_inside_and_outside_root() {
    let h = SftpHandler::new("/srv/files");
    let ok = h.resolve_path("/docs/../readme.txt", PathFacts::Unknown, None).unwrap();
    assert_eq!(path_text(&ok), "/srv/files/readme.txt");
    assert!(h.resolve_path("//etc/passwd", PathFacts::Unknown, None).is_err());
    // A canonical form given by the file system decides.
    let c = path_components("/elsewhere");
    assert!(h.resolve_path("x", PathFacts::Exists(c), None).is_err());
    let c = path_components("/real/srv/files/x");
    let r = path_components("/real/srv/files");
    assert_eq!(path_text(&h.resolve_path("x", PathFacts::Exists(c), Some(r)).unwrap()), "/real/srv/files/x");
}

#[test]
fn handler_open_write_read_close() {
    let mut h = SftpHandler::new("/srv");
    // OPEN "f" for reading and writing
    let mut data = vec![0, 0, 0, 1, b'f'];
    data.extend_from_slice(&(SSH_FXF_READ | SSH_FXF_WRITE).to_be_bytes());
    data.extend_from_slice(&[0, 0, 0, 0]);
    let task = match h.handle_request(&SftpPacket::new(SSH_FXP_OPEN, 1, data)) {
        SftpAction::Resolve(t) => t,
        _ => panic!("expected a path to resolve"),
    };
    assert!(matches!(task.op, PathOp::Open(3)));
    assert_eq!(path_text(&task.joined), "/srv/f");
    let handle_reply = reply(h.resolved(task, PathFacts::Unknown, None));
    assert_eq!(handle_reply.packet_type, SSH_FXP_HANDLE);
    assert_eq!(handle_reply.data, vec![0, 0, 0, 4, 0, 0, 0, 0]);
    let handle = vec![0, 0, 0, 0];

    // WRITE 3 bytes at offset 5
    let mut w = vec![0, 0, 0, 4];
    w.extend_from_slice(&handle);
    w.extend_from_slice(&5u64.to_be_bytes());
    w.extend_from_slice(&[0, 0, 0, 3, 7, 8, 9]);
    let task = match h.handle_request(&SftpPacket::new(SSH_FXP_WRITE, 2, w)) {
        SftpAction::Perform(t) => t,
        _ => panic!("expected file work"),
    };
    match &task.op {
        FsOp::WriteFile { path, create, truncate, offset, data } => {
            assert_eq!(path_text(path), "/srv/f");
            assert_eq!((*create, *truncate, *offset), (false, false, 5));
            assert_eq!(data, &vec![7, 8, 9]);
        }
        _ => panic!("expected a write"),
    }
    let ok = h.completed(task, FsOutcome::Write(WriteOutcome::Written));
    assert_eq!(status_code(&ok), SSH_FX_OK);

    // READ up to 100000 bytes: capped at 32768
    let mut r = vec![0, 0, 0, 4];
    r.extend_from_slice(&handle);
    r.extend_from_slice(&0u64.to_be_bytes());
    r.extend_from_slice(&100000u32.to_be_bytes());
    let task = match h.handle_request(&SftpPacket::new(SSH_FXP_READ, 3, r.clone())) {
        SftpAction::Perform(t) => t,
        _ => panic!("expected file work"),
    };
    assert!(matches!(task.op, FsOp::ReadFile { max_len: 32768, .. }));
    let data = h.completed(task, FsOutcome::Read(ReadOutcome::Data(vec![1, 2])));
    assert_eq!((data.packet_type, data.data.clone()), (SSH_FXP_DATA, vec![0, 0, 0, 2, 1, 2]));
    let task = match h.handle_request(&SftpPacket::new(SSH_FXP_READ, 4, r.clone())) {
        SftpAction::Perform(t) => t,
        _ => panic!("expected file work"),
    };
    assert_eq!(status_code(&h.completed(task, FsOutcome::Read(ReadOutcome::Data(vec![])))), SSH_FX_EOF);

    // CLOSE, then the handle is gone
    let mut c = vec![0, 0, 0, 4];
    c.extend_from_slice(&handle);
    assert_eq!(status_code(&reply(h.handle_request(&SftpPacket::new(SSH_FXP_CLOSE, 5, c)))), SSH_FX_OK);
    assert_eq!(status_code(&reply(h.handle_request(&SftpPacket::new(SSH_FXP_READ, 6, r)))), SSH_FX_FAILURE);
}

#[test]
fn handler_refuses_writes_to_read_only_handles() {
    let mut h = SftpHandler::new("/srv");
    let mut data = vec![0, 0, 0, 1, b'g'];
    data.extend_from_slice(&SSH_FXF_READ.to_be_bytes());
    let task = match h.handle_request(&SftpPacket::new(SSH_FXP_OPEN, 1, data)) {
        SftpAction::Resolve(t) => t,
        _ => panic!("expected a path to resolve"),
    };
    reply(h.resolved(task, PathFacts::Unknown, None));
    let mut w = vec![0, 0, 0, 4, 0, 0, 0, 0];
    w.extend_from_slice(&0u64.to_be_bytes());
    w.extend_from_slice(&[0, 0, 0, 1, 1]);
    let p = reply(h.handle_request(&SftpPacket::new(SSH_FXP_WRITE, 2, w)));
    assert_eq!(status_code(&p), SSH_FX_PERMISSION_DENIED);
}

#[test]
fn handler_directories_are_listed_once() {
    let mut h = SftpHandler::new("/srv");
    let task = match h.handle_request(&path_request(SSH_FXP_OPENDIR, 1, "/")) {
        SftpAction::Resolve(t) => t,
        _ => panic!("expected a path to resolve"),
    };
    let task = match h.resolved(task, PathFacts::Unknown, None) {
        SftpAction::Perform(t) => t,
        _ => panic!("expected a directory check"),
    };
    let hd = h.completed(task, FsOutcome::IsDir(true));
    assert_eq!(hd.packet_type, SSH_FXP_HANDLE);
    let rd = SftpPacket::new(SSH_FXP_READDIR, 2, hd.data.clone());
    let task = match h.handle_request(&rd) {
        SftpAction::Perform(t) => t,
        _ => panic!("expected a listing"),
    };
    let names = h.completed(task, FsOutcome::Entries(Some(vec![("a".to_string(), FileAttrs::default())])));
    assert_eq!(names.packet_type, SSH_FXP_NAME);
    assert_eq!(status_code(&reply(h.handle_request(&rd))), SSH_FX_EOF);
}

#[test]
fn handler_realpath_and_unsupported() {
    let mut h = SftpHandler::new("/srv");
    let task = match h.handle_request(&path_request(SSH_FXP_REALPATH, 9, "a/../b")) {
        SftpAction::Resolve(t) => t,
        _ => panic!("expected a path to resolve"),
    };
    let p = reply(h.resolved(task, PathFacts::Unknown, None));
    assert_eq!(p.packet_type, SSH_FXP_NAME);
    let mut expected = vec![0, 0, 0, 1, 0, 0, 0, 6];
    expected.extend_from_slice(b"/srv/b");
    expected.extend_from_slice(&[0, 0, 0, 6]);
    expected.extend_from_slice(b"/srv/b");
    expected.extend_from_slice(&[0, 0, 0, 0]);
    assert_eq!(p.data, expected);
    let u = reply(h.handle_request(&SftpPacket::new(200, 1, vec![])));
    assert_eq!(status_code(&u), SSH_FX_OP_UNSUPPORTED);
    let bad = reply(h.handle_request(&SftpPacket::new(SSH_FXP_REALPATH, 1, vec![0, 0])));
    assert_eq!(status_code(&bad), SSH_FX_FAILURE);
    assert!(!h.handles_exhausted());
}

#[test]
fn links_in_existing_ancestors_are_followed() {
    let h = SftpHandler::new("/srv");
    // /srv/link is a link to /etc, and /etc/newfile does not exist yet.
    let outside = PathFacts::Ancestor(path_components("/etc"), 3);
    assert!(h.resolve_path("link/newfile", outside, None).is_err());
    // /srv/sub is a link to /srv/real, inside the root.
    let inside = PathFacts::Ancestor(path_components("/srv/real"), 3);
    let p = h.resolve_path("sub/a/b", inside, None).unwrap();
    assert_eq!(path_text(&p), "/srv/real/a/b");
    // A count past the end of the path adds nothing.
    let p = h.resolve_path("x", PathFacts::Ancestor(path_components("/srv/y"), 9), None).unwrap();
    assert_eq!(path_text(&p), "/srv/y");
}

#[test]
fn attrs_decode_stops_before_trailing_bytes() {
    let attrs = FileAttrs {
        flags: SSH_FILEXFER_ATTR_SIZE | SSH_FILEXFER_ATTR_PERMISSIONS,
        size: Some(0x0102_0304_0506_0708),
        permissions: Some(0o600),
        ..Default::default()
    };
    let mut bytes = attrs.encode();
    let encoded_len = bytes.len();
    assert_eq!(encoded_len, 4 + 8 + 4);
    bytes.extend_from_slice(&[0xde, 0xad, 0xbe, 0xef, 0x00]);
    let mut cursor = Cursor::new(bytes.as_slice());
    let back = FileAttrs::decode(&mut cursor).unwrap();
    assert_eq!(cursor.position(), encoded_len as u64);
    assert_eq!(
        (back.flags, back.size, back.uid, back.gid, back.permissions, back.atime, back.mtime),
        (attrs.flags, Some(0x0102_0304_0506_0708), None, None, Some(0o600), None, None)
    );
    assert_eq!(cursor.read_u8(), Some(0xde));
}

#[test]
fn parent_of_the_root_is_the_root() {
    let norm = |s: &str| path_text(&normalize_path(&path_components(s)));
    assert_eq!(norm("/a/../.."), "/");
    assert_eq!(norm("/../b"), "/b");
    assert_eq!(norm("/.."), "/");
    assert_eq!(norm("/a/b/../../../c/."), "/c");
    assert_eq!(norm("a/../../b"), "b");
}
