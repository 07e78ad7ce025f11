use swiftssh::connection::{
    build_channel_close, build_channel_data, build_channel_eof, build_channel_open, build_channel_open_confirmation,
    build_channel_open_failure, build_exec_request, build_pty_request, build_shell_request, build_window_adjust,
    Channel, ChannelDataMsg, ChannelManager, ChannelOpenMsg, ChannelRequestMsg,
};
use swiftssh::error::SshError;
use swiftssh::packet::types::{DEFAULT_MAX_PACKET_SIZE, DEFAULT_WINDOW_SIZE};

#[test]
fn test_channel_manager_lifecycle() {
    let mut mgr = ChannelManager::new();

    let ch_id = mgr.open_channel("session");
    assert_eq!(ch_id, 0);
    assert_eq!(mgr.active_count(), 1);

    mgr.confirm_channel(ch_id, 42, 65536, 32768).unwrap();
    let ch = mgr.get(ch_id).unwrap();
    assert_eq!(ch.remote_id, 42);
    assert_eq!(ch.remote_window, 65536);

    mgr.receive_data(ch_id, &[1, 2, 3]).unwrap();
    assert_eq!(mgr.get(ch_id).unwrap().recv_buffer, vec![1, 2, 3]);

    let removed = mgr.remove_channel(ch_id);
    assert!(removed.is_some());
    assert_eq!(mgr.active_count(), 0);
}

#[test]
fn test_channel_open_roundtrip() {
    let pkt = build_channel_open("session", 0, DEFAULT_WINDOW_SIZE, DEFAULT_MAX_PACKET_SIZE);
    let msg = ChannelOpenMsg::parse(&pkt.payload).unwrap();
    assert_eq!(msg.channel_type, "session");
    assert_eq!(msg.sender_channel, 0);
    assert_eq!(msg.initial_window, DEFAULT_WINDOW_SIZE);
}

#[test]
fn test_channel_data_roundtrip() {
    let pkt = build_channel_data(7, b"hello world");
    let msg = ChannelDataMsg::parse(&pkt.payload).unwrap();
    assert_eq!(msg.recipient_channel, 7);
    assert_eq!(msg.data, b"hello world");
}

#[test]
fn test_exec_request_roundtrip() {
    let pkt = build_exec_request(3, "ls -la", true);
    let msg = ChannelRequestMsg::parse(&pkt.payload).unwrap();
    assert_eq!(msg.recipient_channel, 3);
    assert_eq!(msg.request_type, "exec");
    assert!(msg.want_reply);
}

#[test]
fn test_window_overflow_rejected() {
    let mut mgr = ChannelManager::new();
    let ch_id = mgr.open_channel("session");
    // Try to receive more data than the window allows
    let window = mgr.get(ch_id).unwrap().local_window;
    let result = mgr.receive_data(ch_id, &vec![0u8; window as usize + 1]);
    assert!(result.is_err());
}

#[test]
fn new_channel_defaults() {
    let ch = Channel::new(5, "session");
    assert_eq!(ch.local_id, 5);
    assert_eq!(ch.remote_id, 0);
    assert_eq!(ch.local_window, DEFAULT_WINDOW_SIZE);
    assert_eq!(ch.local_max_packet, DEFAULT_MAX_PACKET_SIZE);
    assert!(!ch.closed && !ch.eof_sent && !ch.eof_received);
    assert!(ch.recv_buffer.is_empty());
}

#[test]
fn receive_data_consumes_window() {
    let mut mgr = ChannelManager::new();
    let id = mgr.open_channel("session");
    mgr.receive_data(id, &[9; 10]).unwrap();
    assert_eq!(mgr.get(id).unwrap().local_window, DEFAULT_WINDOW_SIZE - 10);
    mgr.adjust_local_window(id, u32::MAX).unwrap();
    assert_eq!(mgr.get(id).unwrap().local_window, u32::MAX);
}

#[test]
fn unknown_channel_errors() {
    let mut mgr = ChannelManager::default();
    assert!(matches!(mgr.confirm_channel(3, 1, 1, 1), Err(SshError::Channel(m)) if m == "Unknown channel 3"));
    assert!(matches!(mgr.receive_data(3, &[1]), Err(SshError::Channel(_))));
    assert!(matches!(mgr.consume_remote_window(3, 1), Err(SshError::Channel(_))));
    assert!(matches!(mgr.adjust_local_window(3, 1), Err(SshError::Channel(_))));
    assert!(mgr.remove_channel(3).is_none());
}

#[test]
fn remote_window_consumption() {
    let mut mgr = ChannelManager::new();
    let id = mgr.open_channel("session");
    mgr.confirm_channel(id, 1, 100, 50).unwrap();
    mgr.consume_remote_window(id, 60).unwrap();
    assert_eq!(mgr.get(id).unwrap().remote_window, 40);
    assert!(matches!(mgr.consume_remote_window(id, 41), Err(SshError::Channel(m)) if m == "Would exceed remote window"));
    assert_eq!(mgr.get(id).unwrap().remote_window, 40);
}

#[test]
fn accepted_channels_are_found_by_remote_id() {
    let mut mgr = ChannelManager::new();
    let a = mgr.accept_channel(77, "session", 1000, 500);
    let b = mgr.open_channel("session");
    assert_eq!((a, b), (0, 1));
    let ch = mgr.find_by_remote_id(77).unwrap();
    assert_eq!(ch.local_id, 0);
    assert_eq!(ch.remote_window, 1000);
    mgr.find_by_remote_id_mut(77).unwrap().closed = true;
    assert_eq!(mgr.active_count(), 1);
    assert!(mgr.find_by_remote_id(78).is_none());
    mgr.get_mut(b).unwrap().eof_sent = true;
    assert!(mgr.get(b).unwrap().eof_sent);
}

#[test]
fn channel_packets_exact_bytes() {
    assert_eq!(build_channel_eof(1).payload, vec![0, 0, 0, 1]);
    assert_eq!(build_channel_eof(1).msg_type, 96);
    assert_eq!(build_channel_close(2).msg_type, 97);
    assert_eq!(build_window_adjust(1, 2).payload, vec![0, 0, 0, 1, 0, 0, 0, 2]);
    assert_eq!(build_window_adjust(1, 2).msg_type, 93);
    let c = build_channel_open_confirmation(1, 2, 3, 4);
    assert_eq!(c.msg_type, 91);
    assert_eq!(c.payload, vec![0, 0, 0, 1, 0, 0, 0, 2, 0, 0, 0, 3, 0, 0, 0, 4]);
    let f = build_channel_open_failure(1, 2, "no");
    assert_eq!(f.msg_type, 92);
    assert_eq!(f.payload, vec![0, 0, 0, 1, 0, 0, 0, 2, 0, 0, 0, 2, b'n', b'o', 0, 0, 0, 2, b'e', b'n']);
    let s = build_shell_request(4, false);
    let m = ChannelRequestMsg::parse(&s.payload).unwrap();
    assert_eq!((m.recipient_channel, m.request_type.as_str(), m.want_reply), (4, "shell", false));
    assert!(m.data.is_empty());
    let p = build_pty_request(1, "xterm", 80, 24, 0, 0, true);
    let m = ChannelRequestMsg::parse(&p.payload).unwrap();
    assert_eq!(m.request_type, "pty-req");
    let mut rest = vec![0, 0, 0, 5];
    rest.extend_from_slice(b"xterm");
    rest.extend_from_slice(&[0, 0, 0, 80, 0, 0, 0, 24, 0, 0, 0, 0, 0, 0, 0, 0, 0, 0, 0, 1, 0]);
    assert_eq!(m.data, rest);
}

#[test]
fn malformed_channel_messages_rejected() {
    assert!(matches!(ChannelOpenMsg::parse(&[0, 0, 0, 9]), Err(SshError::InvalidPacket(_))));
    assert!(matches!(ChannelDataMsg::parse(&[0, 0, 0, 1, 0, 0, 0, 5, 1]), Err(SshError::InvalidPacket(_))));
    assert!(matches!(ChannelRequestMsg::parse(&[0, 0]), Err(SshError::InvalidPacket(_))));
}

#[test]
fn unknown_channel_ids_are_written_in_decimal() {
    let mut mgr = ChannelManager::default();
    assert!(matches!(mgr.confirm_channel(0, 1, 1, 1), Err(SshError::Channel(m)) if m == "Unknown channel 0"));
    assert!(matches!(mgr.receive_data(105, &[1]), Err(SshError::Channel(m)) if m == "Unknown channel 105"));
    assert!(matches!(
        mgr.adjust_local_window(u32::MAX, 1),
        Err(SshError::Channel(m)) if m == "Unknown channel 4294967295"
    ));
}
