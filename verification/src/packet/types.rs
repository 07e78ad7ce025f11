use vstd::prelude::*;

verus! {

/// SSH-2 message type identifiers (RFC 4253, 4252, 4254).
#[derive(Debug, Clone, Copy, PartialEq, Eq, Structural)]
pub enum MessageType {
    // Transport layer (RFC 4253)
    Disconnect,
    Ignore,
    Unimplemented,
    Debug,
    ServiceRequest,
    ServiceAccept,
    // Key exchange (RFC 4253)
    KexInit,
    NewKeys,
    KexEcdhInit,
    KexEcdhReply,
    // User authentication (RFC 4252)
    UserAuthRequest,
    UserAuthFailure,
    UserAuthSuccess,
    UserAuthBanner,
    // Connection protocol (RFC 4254)
    GlobalRequest,
    RequestSuccess,
    RequestFailure,
    ChannelOpen,
    ChannelOpenConfirmation,
    ChannelOpenFailure,
    ChannelWindowAdjust,
    ChannelData,
    ChannelExtendedData,
    ChannelEof,
    ChannelClose,
    ChannelRequest,
    ChannelSuccess,
    ChannelFailure,
}

impl MessageType {
    /// The wire code of each message type.
    pub open spec fn code(self) -> u8 {
        match self {
            MessageType::Disconnect => 1,
            MessageType::Ignore => 2,
            MessageType::Unimplemented => 3,
            MessageType::Debug => 4,
            MessageType::ServiceRequest => 5,
            MessageType::ServiceAccept => 6,
            MessageType::KexInit => 20,
            MessageType::NewKeys => 21,
            MessageType::KexEcdhInit => 30,
            MessageType::KexEcdhReply => 31,
            MessageType::UserAuthRequest => 50,
            MessageType::UserAuthFailure => 51,
            MessageType::UserAuthSuccess => 52,
            MessageType::UserAuthBanner => 53,
            MessageType::GlobalRequest => 80,
            MessageType::RequestSuccess => 81,
            MessageType::RequestFailure => 82,
            MessageType::ChannelOpen => 90,
            MessageType::ChannelOpenConfirmation => 91,
            MessageType::ChannelOpenFailure => 92,
            MessageType::ChannelWindowAdjust => 93,
            MessageType::ChannelData => 94,
            MessageType::ChannelExtendedData => 95,
            MessageType::ChannelEof => 96,
            MessageType::ChannelClose => 97,
            MessageType::ChannelRequest => 98,
            MessageType::ChannelSuccess => 99,
            MessageType::ChannelFailure => 100,
        }
    }

    /// The wire code of this message type.
    pub fn to_u8(self) -> (r: u8)
        ensures
            r == self.code(),
    {
        match self {
            MessageType::Disconnect => 1,
            MessageType::Ignore => 2,
            MessageType::Unimplemented => 3,
            MessageType::Debug => 4,
            MessageType::ServiceRequest => 5,
            MessageType::ServiceAccept => 6,
            MessageType::KexInit => 20,
            MessageType::NewKeys => 21,
            MessageType::KexEcdhInit => 30,
            MessageType::KexEcdhReply => 31,
            MessageType::UserAuthRequest => 50,
            MessageType::UserAuthFailure => 51,
            MessageType::UserAuthSuccess => 52,
            MessageType::UserAuthBanner => 53,
            MessageType::GlobalRequest => 80,
            MessageType::RequestSuccess => 81,
            MessageType::RequestFailure => 82,
            MessageType::ChannelOpen => 90,
            MessageType::ChannelOpenConfirmation => 91,
            MessageType::ChannelOpenFailure => 92,
            MessageType::ChannelWindowAdjust => 93,
            MessageType::ChannelData => 94,
            MessageType::ChannelExtendedData => 95,
            MessageType::ChannelEof => 96,
            MessageType::ChannelClose => 97,
            MessageType::ChannelRequest => 98,
            MessageType::ChannelSuccess => 99,
            MessageType::ChannelFailure => 100,
        }
    }

    /// The message type with wire code `val`, if there is one.
    pub fn from_u8(val: u8) -> (r: Option<Self>)
        ensures
            match r {
                Some(t) => t.code() == val,
                None => forall|t: MessageType| #[trigger] t.code() != val,
            },
    {
        match val {
            1 => Some(Self::Disconnect),
            2 => Some(Self::Ignore),
            3 => Some(Self::Unimplemented),
            4 => Some(Self::Debug),
            5 => Some(Self::ServiceRequest),
            6 => Some(Self::ServiceAccept),
            20 => Some(Self::KexInit),
            21 => Some(Self::NewKeys),
            30 => Some(Self::KexEcdhInit),
            31 => Some(Self::KexEcdhReply),
            50 => Some(Self::UserAuthRequest),
            51 => Some(Self::UserAuthFailure),
            52 => Some(Self::UserAuthSuccess),
            53 => Some(Self::UserAuthBanner),
            80 => Some(Self::GlobalRequest),
            81 => Some(Self::RequestSuccess),
            82 => Some(Self::RequestFailure),
            90 => Some(Self::ChannelOpen),
            91 => Some(Self::ChannelOpenConfirmation),
            92 => Some(Self::ChannelOpenFailure),
            93 => Some(Self::ChannelWindowAdjust),
            94 => Some(Self::ChannelData),
            95 => Some(Self::ChannelExtendedData),
            96 => Some(Self::ChannelEof),
            97 => Some(Self::ChannelClose),
            98 => Some(Self::ChannelRequest),
            99 => Some(Self::ChannelSuccess),
            100 => Some(Self::ChannelFailure),
            _ => None,
        }
    }
}

/// Distinct message types have distinct wire codes, so decoding the code of
/// a message type gives that message type back.
pub proof fn lemma_message_code_injective(a: MessageType, b: MessageType)
    ensures
        a.code() == b.code() ==> a == b,
{
}

/// SSH-2 disconnect reason codes (RFC 4253 §11.1).
#[derive(Debug, Clone, Copy, PartialEq, Eq, Structural)]
pub enum DisconnectReason {
    HostNotAllowed,
    ProtocolError,
    KeyExchangeFailed,
    Reserved,
    MacError,
    CompressionError,
    ServiceNotAvailable,
    ProtocolVersionNotSupported,
    HostKeyNotVerifiable,
    ConnectionLost,
    ByApplication,
    TooManyConnections,
    AuthCancelledByUser,
    NoMoreAuthMethodsAvailable,
    IllegalUserName,
}

impl DisconnectReason {
    /// The wire code of each disconnect reason (1 through 15, in declaration order).
    pub open spec fn spec_code(self) -> u32 {
        match self {
            DisconnectReason::HostNotAllowed => 1,
            DisconnectReason::ProtocolError => 2,
            DisconnectReason::KeyExchangeFailed => 3,
            DisconnectReason::Reserved => 4,
            DisconnectReason::MacError => 5,
            DisconnectReason::CompressionError => 6,
            DisconnectReason::ServiceNotAvailable => 7,
            DisconnectReason::ProtocolVersionNotSupported => 8,
            DisconnectReason::HostKeyNotVerifiable => 9,
            DisconnectReason::ConnectionLost => 10,
            DisconnectReason::ByApplication => 11,
            DisconnectReason::TooManyConnections => 12,
            DisconnectReason::AuthCancelledByUser => 13,
            DisconnectReason::NoMoreAuthMethodsAvailable => 14,
            DisconnectReason::IllegalUserName => 15,
        }
    }

    /// The wire code of this disconnect reason.
    pub fn code(self) -> (r: u32)
        ensures
            r == self.spec_code(),
    {
        match self {
            DisconnectReason::HostNotAllowed => 1,
            DisconnectReason::ProtocolError => 2,
            DisconnectReason::KeyExchangeFailed => 3,
            DisconnectReason::Reserved => 4,
            DisconnectReason::MacError => 5,
            DisconnectReason::CompressionError => 6,
            DisconnectReason::ServiceNotAvailable => 7,
            DisconnectReason::ProtocolVersionNotSupported => 8,
            DisconnectReason::HostKeyNotVerifiable => 9,
            DisconnectReason::ConnectionLost => 10,
            DisconnectReason::ByApplication => 11,
            DisconnectReason::TooManyConnections => 12,
            DisconnectReason::AuthCancelledByUser => 13,
            DisconnectReason::NoMoreAuthMethodsAvailable => 14,
            DisconnectReason::IllegalUserName => 15,
        }
    }
}

/// SSH version identification string.
pub const SSH_VERSION_STRING: &'static str = "SSH-2.0-SwiftSSH_0.1";

/// Maximum packet size per RFC 4253 §6.1.
pub const MAX_PACKET_SIZE: usize = 35000;

/// Minimum padding length.
pub const MIN_PADDING: usize = 4;

/// Maximum padding.
pub const MAX_PADDING: usize = 255;

/// Block size for AES-256-CTR.
pub const AES_BLOCK_SIZE: usize = 16;

/// HMAC-SHA256 output size.
pub const HMAC_SHA256_SIZE: usize = 32;

/// Default window size for channels (2 MiB).
pub const DEFAULT_WINDOW_SIZE: u32 = 2097152;

/// Default maximum packet size for channels.
pub const DEFAULT_MAX_PACKET_SIZE: u32 = 32768;

} // verus!
