use swiftssh::error::SshError;
use swiftssh::packet::types::{DisconnectReason, MAX_PACKET_SIZE};
use swiftssh::packet::{Cursor, MessageType, SshBuf, SshPacket};

#[test]
fn test_packet_roundtrip() {
    let pkt = SshPacket::new(MessageType::Ignore, vec![1, 2, 3, 4]);
    let serialized = pkt.serialize(8).unwrap();
    let deserialized = SshPacket::deserialize(&serialized).unwrap();
    assert_eq!(deserialized.msg_type, MessageType::Ignore.to_u8());
    assert_eq!(deserialized.payload, vec![1, 2, 3, 4]);
}

#[test]
fn test_packet_alignment() {
    // Ensure serialized length is aligned to block size
    let pkt = SshPacket::new(MessageType::Debug, vec![0; 13]);
    let serialized = pkt.serialize(16).unwrap();
    // Excluding the 4-byte length field, the rest should be aligned to 16
    assert_eq!((serialized.len() - 4) % 16, 0);
}

#[test]
fn test_ssh_buf_string_roundtrip() {
    let mut buf = Vec::new();
    SshBuf::write_utf8(&mut buf, "hello-ssh");
    let mut cursor = Cursor::new(buf.as_slice());
    let result = SshBuf::read_utf8(&mut cursor).unwrap();
    assert_eq!(result, "hello-ssh");
}

#[test]
fn test_ssh_buf_name_list() {
    let mut buf = Vec::new();
    SshBuf::write_name_list(&mut buf, &["aes256-ctr", "aes128-ctr"]);
    let mut cursor = Cursor::new(buf.as_slice());
    let result = SshBuf::read_name_list(&mut cursor).unwrap();
    assert_eq!(result, vec!["aes256-ctr", "aes128-ctr"]);
}

#[test]
fn test_ssh_buf_u32() {
    let mut buf = Vec::new();
    SshBuf::write_u32(&mut buf, 42);
    let mut cursor = Cursor::new(buf.as_slice());
    assert_eq!(SshBuf::read_u32(&mut cursor).unwrap(), 42);
}

#[test]
fn test_ssh_buf_mpint() {
    // Positive integer with high bit set — must be zero-padded
    let mut buf = Vec::new();
    SshBuf::write_mpint(&mut buf, &[0x80, 0x01]);
    let mut cursor = Cursor::new(buf.as_slice());
    let result = SshBuf::read_mpint(&mut cursor).unwrap();
    assert_eq!(result, vec![0x00, 0x80, 0x01]);
}

#[test]
fn test_empty_payload_rejected() {
    // Construct a minimal packet with 0 payload length (padding fills all)
    let data = vec![0, 0, 0, 4, 3, 0, 0, 0]; // packet_length=4, padding=3, then 3 pad bytes
    let result = SshPacket::deserialize(&data);
    assert!(result.is_err());
}

#[test]
fn serialized_padding_is_four_to_block_plus_three() {
    for n in 0..40usize {
        let pkt = SshPacket::new(MessageType::Ignore, vec![7; n]);
        let s = pkt.serialize(8).unwrap();
        let pad = s[4] as usize;
        assert!(pad >= 4 && pad < 8 + 4);
        assert_eq!((s.len() - 4) % 8, 0);
        assert_eq!(u32::from_be_bytes([s[0], s[1], s[2], s[3]]) as usize, s.len() - 4);
        assert_eq!(&s[6..6 + n], &vec![7u8; n][..]);
    }
}

#[test]
fn small_block_sizes_mean_eight() {
    let pkt = SshPacket::new(MessageType::Ignore, vec![1, 2, 3]);
    let a = pkt.serialize(0).unwrap();
    let b = pkt.serialize(8).unwrap();
    assert_eq!(a.len(), b.len());
    assert_eq!(a.len(), 20);
}

#[test]
fn oversized_packet_rejected() {
    let pkt = SshPacket::new(MessageType::Ignore, vec![0; MAX_PACKET_SIZE]);
    match pkt.serialize(8) {
        Err(SshError::InvalidPacket(m)) => assert!(m.starts_with("Packet too large: ")),
        _ => panic!("expected an error"),
    }
}

#[test]
fn deserialize_error_cases() {
    let short = SshPacket::deserialize(&[0, 0, 0]);
    assert!(matches!(short, Err(SshError::InvalidPacket(m)) if m == "Packet too short"));
    let big = SshPacket::deserialize(&[0, 0, 0x88, 0xb9, 0, 0]);
    assert!(matches!(big, Err(SshError::InvalidPacket(m)) if m == "Packet length too large: 35001"));
    let incomplete = SshPacket::deserialize(&[0, 0, 0, 10, 1, 2]);
    assert!(matches!(incomplete, Err(SshError::InvalidPacket(m)) if m == "Incomplete packet data"));
    let bad_pad = SshPacket::deserialize(&[0, 0, 0, 2, 2, 5]);
    assert!(matches!(bad_pad, Err(SshError::InvalidPacket(m)) if m == "Invalid padding length"));
    let empty = SshPacket::deserialize(&[0, 0, 0, 4, 3, 0, 0, 0]);
    assert!(matches!(empty, Err(SshError::InvalidPacket(m)) if m == "Empty payload"));
}

#[test]
fn wire_reads_fail_on_truncation() {
    let mut c = Cursor::new(&[0, 0, 0, 5, 1]);
    assert!(matches!(SshBuf::read_string(&mut c), Err(SshError::InvalidPacket(_))));
    let mut c = Cursor::new(&[0, 0]);
    assert!(SshBuf::read_u32(&mut c).is_err());
    let mut c = Cursor::new(&[]);
    assert!(SshBuf::read_bool(&mut c).is_err());
    let mut c = Cursor::new(&[0, 0, 0, 2, 0xff, 0xfe]);
    assert!(matches!(SshBuf::read_utf8(&mut c), Err(SshError::InvalidPacket(_))));
}

#[test]
fn wire_writes_exact_bytes() {
    let mut buf = Vec::new();
    SshBuf::write_bool(&mut buf, true);
    SshBuf::write_bool(&mut buf, false);
    SshBuf::write_u8(&mut buf, 9);
    SshBuf::write_u32(&mut buf, 0x01020304);
    SshBuf::write_string(&mut buf, &[5, 6]);
    SshBuf::write_name_list(&mut buf, &[]);
    assert_eq!(buf, vec![1, 0, 9, 1, 2, 3, 4, 0, 0, 0, 2, 5, 6, 0, 0, 0, 0]);
    let mut c = Cursor::new(buf.as_slice());
    assert!(SshBuf::read_bool(&mut c).unwrap());
    assert!(!SshBuf::read_bool(&mut c).unwrap());
    c.set_position(7);
    assert_eq!(SshBuf::read_string(&mut c).unwrap(), vec![5, 6]);
    assert!(SshBuf::read_name_list(&mut c).unwrap().is_empty());
    assert_eq!(c.position(), 17);
}

#[test]
fn mpint_encodings() {
    let mut buf = Vec::new();
    SshBuf::write_mpint(&mut buf, &[0, 0, 0x12]);
    assert_eq!(buf, vec![0, 0, 0, 1, 0x12]);
    let mut buf = Vec::new();
    SshBuf::write_mpint(&mut buf, &[0, 0]);
    assert_eq!(buf, vec![0, 0, 0, 1, 0]);
}

#[test]
fn message_type_codes() {
    assert_eq!(MessageType::from_u8(94), Some(MessageType::ChannelData));
    assert_eq!(MessageType::from_u8(7), None);
    assert_eq!(MessageType::KexEcdhReply.to_u8(), 31);
    for code in 0..=255u8 {
        if let Some(t) = MessageType::from_u8(code) {
            assert_eq!(t.to_u8(), code);
        }
    }
    assert_eq!(DisconnectReason::ByApplication.code(), 11);
}

#[test]
fn name_list_reads_back_at_an_offset() {
    let mut buf = vec![0xaa, 0xbb, 0xcc];
    SshBuf::write_name_list(&mut buf, &["aes256-ctr", "aes128-ctr"]);
    let end = buf.len();
    buf.extend_from_slice(&[1, 2]);
    let mut c = Cursor::new(&buf);
    c.set_position(3);
    let names = SshBuf::read_name_list(&mut c).unwrap();
    assert_eq!(names, vec!["aes256-ctr".to_string(), "aes128-ctr".to_string()]);
    assert_eq!(c.position(), end as u64);
    let mut empty = vec![7u8];
    SshBuf::write_name_list(&mut empty, &[]);
    let mut c = Cursor::new(&empty);
    c.set_position(1);
    assert!(SshBuf::read_name_list(&mut c).unwrap().is_empty());
    assert_eq!(c.position(), 5);
}
