//! The client's decisions on what the server sends: the handshake checks,
//! the answer to authentication, the channel confirmation, and what each
//! message of a running session means.
use vstd::prelude::*;

use crate::connection::{build_channel_close, parse_channel_data, ChannelDataMsg};
use crate::error::{SshError, SshResult};
use crate::packet::codec::{
    read_string_at, read_u32_at, ssh_utf8, u32_be, Cursor, SshBuf, SshPacket,
};
use crate::packet::types::MessageType;

verus! {

/// Check that a packet has the expected message type; otherwise the protocol
/// error `what`.
pub fn expect_message(pkt: &SshPacket, expected: MessageType, what: &str) -> (r: SshResult<()>)
    ensures
        (r is Ok) <==> pkt.msg_type == expected.code(),
        r matches Err(e) ==> (e matches SshError::Protocol(m) && m@ == what@),
{
    if pkt.msg_type == expected.to_u8() {
        Ok(())
    } else {
        Err(SshError::Protocol(String::from_str(what)))
    }
}

/// What the server's answer to a password request means: USERAUTH_SUCCESS
/// lets the client in, USERAUTH_FAILURE is a rejection, anything else a
/// protocol error.
pub fn auth_outcome(msg_type: u8) -> (r: SshResult<()>)
    ensures
        (r is Ok) <==> msg_type == MessageType::UserAuthSuccess.code(),
        msg_type == MessageType::UserAuthFailure.code() ==> (r matches Err(SshError::AuthFailed(m)) && m@
            == "Authentication rejected by server"@),
        msg_type != MessageType::UserAuthSuccess.code() && msg_type != MessageType::UserAuthFailure.code()
            ==> (r matches Err(SshError::Protocol(m)) && m@ == "Unexpected auth response"@),
{
    if msg_type == MessageType::UserAuthSuccess.to_u8() {
        Ok(())
    } else if msg_type == MessageType::UserAuthFailure.to_u8() {
        Err(SshError::AuthFailed("Authentication rejected by server".to_string()))
    } else {
        Err(SshError::Protocol("Unexpected auth response".to_string()))
    }
}

/// The four numbers of a CHANNEL_OPEN_CONFIRMATION payload, read in order.
pub open spec fn confirmation_fields(d: Seq<u8>) -> Option<(u32, u32, u32, u32)> {
    let (a, p1) = read_u32_at(d, 0);
    let (b, p2) = read_u32_at(d, p1);
    let (c, p3) = read_u32_at(d, p2);
    let (e, p4) = read_u32_at(d, p3);
    match (a, b, c, e) {
        (Some(a), Some(b), Some(c), Some(e)) => Some((a, b, c, e)),
        _ => None,
    }
}

/// Read a CHANNEL_OPEN_CONFIRMATION payload: recipient channel, the server's
/// channel id, its window and its maximum packet size.
pub fn parse_open_confirmation(payload: &[u8]) -> (r: SshResult<(u32, u32, u32, u32)>)
    ensures
        match confirmation_fields(payload@) {
            Some(f) => r == Ok::<(u32, u32, u32, u32), SshError>(f),
            None => r matches Err(e) && e is InvalidPacket,
        },
{
    let mut cursor = Cursor::new(payload);
    let recipient = SshBuf::read_u32(&mut cursor)?;
    let sender = SshBuf::read_u32(&mut cursor)?;
    let window = SshBuf::read_u32(&mut cursor)?;
    let max_packet = SshBuf::read_u32(&mut cursor)?;
    Ok((recipient, sender, window, max_packet))
}

/// The server's answer to our CHANNEL_OPEN: a confirmation, read as by
/// `parse_open_confirmation`; any other message means the open failed.
pub fn channel_confirmation(pkt: &SshPacket) -> (r: SshResult<(u32, u32, u32, u32)>)
    ensures
        pkt.msg_type != MessageType::ChannelOpenConfirmation.code() ==> (r matches Err(SshError::Channel(m))
            && m@ == "Channel open failed"@),
        pkt.msg_type == MessageType::ChannelOpenConfirmation.code() ==> match confirmation_fields(pkt.payload@) {
            Some(f) => r == Ok::<(u32, u32, u32, u32), SshError>(f),
            None => r matches Err(e) && e is InvalidPacket,
        },
{
    if pkt.msg_type != MessageType::ChannelOpenConfirmation.to_u8() {
        return Err(SshError::Channel("Channel open failed".to_string()));
    }
    parse_open_confirmation(pkt.payload.as_slice())
}

/// What a message from the server means to a running session.
pub enum ClientStep {
    /// Write these bytes to standard output.
    Stdout(Vec<u8>),
    /// Write these bytes to standard error.
    Stderr(Vec<u8>),
    /// Send this packet (the closing CHANNEL_CLOSE), then stop.
    CloseAndStop(SshPacket),
    /// Nothing to do.
    Continue,
}

/// The mathematical value of a client step.
pub enum ClientStepView {
    Stdout(Seq<u8>),
    Stderr(Seq<u8>),
    CloseAndStop(u8, Seq<u8>),
    Continue,
}

impl View for ClientStep {
    type V = ClientStepView;

    open spec fn view(&self) -> ClientStepView {
        match self {
            ClientStep::Stdout(b) => ClientStepView::Stdout(b@),
            ClientStep::Stderr(b) => ClientStepView::Stderr(b@),
            ClientStep::CloseAndStop(p) => ClientStepView::CloseAndStop(p.msg_type, p.payload@),
            ClientStep::Continue => ClientStepView::Continue,
        }
    }
}

/// The data of a CHANNEL_EXTENDED_DATA payload: channel, data type, data.
pub open spec fn extended_data(d: Seq<u8>) -> Option<Seq<u8>> {
    let (c, p1) = read_u32_at(d, 0);
    let (t, p2) = read_u32_at(d, p1);
    let (data, p3) = read_string_at(d, p2);
    match (c, t, data) {
        (Some(_), Some(_), Some(data)) => Some(data),
        _ => None,
    }
}

/// The meaning of a server message while a session on the server's channel
/// `remote_id` runs: channel data goes to standard output; in command mode
/// (not `interactive`) extended data goes to standard error; CHANNEL_CLOSE is
/// answered with a CLOSE and ends the session; anything else is passed over.
/// A malformed data message is an error.
pub fn session_step(pkt: &SshPacket, remote_id: u32, interactive: bool) -> (r: SshResult<ClientStep>)
    ensures
        ({
            let t = pkt.msg_type;
            let d = pkt.payload@;
            if t == MessageType::ChannelData.code() {
                match parse_channel_data(d) {
                    Some((_, data)) => r matches Ok(s) && s@ == ClientStepView::Stdout(data),
                    None => r matches Err(e) && e is InvalidPacket,
                }
            } else if t == MessageType::ChannelExtendedData.code() && !interactive {
                match extended_data(d) {
                    Some(data) => r matches Ok(s) && s@ == ClientStepView::Stderr(data),
                    None => r matches Err(e) && e is InvalidPacket,
                }
            } else if t == MessageType::ChannelClose.code() {
                r matches Ok(s) && s@ == ClientStepView::CloseAndStop(
                    MessageType::ChannelClose.code(),
                    u32_be(remote_id),
                )
            } else {
                r matches Ok(s) && s@ == ClientStepView::Continue
            }
        }),
{
    let t = pkt.msg_type;
    if t == MessageType::ChannelData.to_u8() {
        let msg = ChannelDataMsg::parse(pkt.payload.as_slice())?;
        Ok(ClientStep::Stdout(msg.data))
    } else if t == MessageType::ChannelExtendedData.to_u8() && !interactive {
        let mut cursor = Cursor::new(pkt.payload.as_slice());
        let _channel = SshBuf::read_u32(&mut cursor)?;
        let _data_type = SshBuf::read_u32(&mut cursor)?;
        let data = SshBuf::read_string(&mut cursor)?;
        Ok(ClientStep::Stderr(data))
    } else if t == MessageType::ChannelClose.to_u8() {
        Ok(ClientStep::CloseAndStop(build_channel_close(remote_id)))
    } else {
        Ok(ClientStep::Continue)
    }
}

/// The reason code of a disconnect by the application (RFC 4253 §11.1).
pub const DISCONNECT_BY_APPLICATION: u32 = 11;

/// The DISCONNECT the client sends when the session is over.
pub fn build_disconnect() -> (r: SshPacket)
    ensures
        r.msg_type == MessageType::Disconnect.code(),
        r.payload@ == u32_be(DISCONNECT_BY_APPLICATION) + ssh_utf8("Session ended"@) + ssh_utf8("en"@),
{
    let mut payload = Vec::new();
    SshBuf::write_u32(&mut payload, DISCONNECT_BY_APPLICATION);
    SshBuf::write_utf8(&mut payload, "Session ended");
    SshBuf::write_utf8(&mut payload, "en");
    assert(payload@ =~= u32_be(DISCONNECT_BY_APPLICATION) + ssh_utf8("Session ended"@) + ssh_utf8("en"@));
    SshPacket::new(MessageType::Disconnect, payload)
}

} // verus!
