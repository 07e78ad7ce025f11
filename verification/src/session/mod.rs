//! SSH session state tracking.
use vstd::prelude::*;

use crate::client::{auth_outcome, expect_message};
use crate::crypto::CipherPair;
use crate::error::{SshError, SshResult};
use crate::packet::codec::SshPacket;
use crate::packet::types::MessageType;
use crate::transport::kex::Role;

verus! {

/// The state of an SSH session through its lifecycle.
#[derive(Debug, Clone, Copy, PartialEq, Eq, Structural)]
pub enum SessionState {
    /// Initial TCP connection, exchanging version strings.
    VersionExchange,
    /// Key exchange in progress.
    KeyExchange,
    /// Keys established, waiting for service request.
    Authenticated,
    /// Interactive session active.
    Active,
    /// Disconnecting or disconnected.
    Disconnected,
}

/// Tracks per-session data including keys and sequence numbers.
pub struct SessionKeys {
    /// Sequence number for outgoing packets (wraps at u32::MAX).
    pub send_seq: u32,
    /// Sequence number for incoming packets.
    pub recv_seq: u32,
    /// Session identifier (exchange hash from first key exchange).
    pub session_id: Option<Vec<u8>>,
    /// Current cipher pair (None before key exchange completes).
    pub ciphers: Option<CipherPair>,
    /// HMAC key for outgoing packets.
    pub send_mac_key: Option<Vec<u8>>,
    /// HMAC key for incoming packets.
    pub recv_mac_key: Option<Vec<u8>>,
}

/// The sequence number that follows `seq` (wrapping at 2^32).
pub open spec fn seq_after(seq: u32) -> u32 {
    if seq == u32::MAX {
        0
    } else {
        (seq + 1) as u32
    }
}

impl SessionKeys {
    /// Keys of a session before its first key exchange: sequence numbers at
    /// zero, no session id, no ciphers and no MAC keys.
    pub open spec fn is_fresh(&self) -> bool {
        &&& self.send_seq == 0
        &&& self.recv_seq == 0
        &&& self.session_id is None
        &&& self.ciphers is None
        &&& self.send_mac_key is None
        &&& self.recv_mac_key is None
    }

    pub fn new() -> (r: Self)
        ensures
            r.is_fresh(),
    {
        SessionKeys {
            send_seq: 0,
            recv_seq: 0,
            session_id: None,
            ciphers: None,
            send_mac_key: None,
            recv_mac_key: None,
        }
    }

    /// Advance send sequence number.
    pub fn next_send_seq(&mut self) -> (r: u32)
        ensures
            r == old(self).send_seq,
            final(self).send_seq == seq_after(old(self).send_seq),
            final(self).recv_seq == old(self).recv_seq,
            final(self).session_id == old(self).session_id,
            final(self).ciphers == old(self).ciphers,
            final(self).send_mac_key == old(self).send_mac_key,
            final(self).recv_mac_key == old(self).recv_mac_key,
    {
        let seq = self.send_seq;
        self.send_seq = self.send_seq.wrapping_add(1);
        seq
    }

    /// Advance receive sequence number.
    pub fn next_recv_seq(&mut self) -> (r: u32)
        ensures
            r == old(self).recv_seq,
            final(self).recv_seq == seq_after(old(self).recv_seq),
            final(self).send_seq == old(self).send_seq,
            final(self).session_id == old(self).session_id,
            final(self).ciphers == old(self).ciphers,
            final(self).send_mac_key == old(self).send_mac_key,
            final(self).recv_mac_key == old(self).recv_mac_key,
    {
        let seq = self.recv_seq;
        self.recv_seq = self.recv_seq.wrapping_add(1);
        seq
    }

    /// Returns true if encryption is active.
    pub fn is_encrypted(&self) -> (r: bool)
        ensures
            r == self.ciphers is Some,
    {
        self.ciphers.is_some()
    }
}

impl Default for SessionKeys {
    fn default() -> (r: Self)
        ensures
            r.is_fresh(),
    {
        Self::new()
    }
}

/// The steps of the handshake that precede channel traffic, in the order in
/// which both sides go through them.
#[derive(Debug, Clone, Copy, PartialEq, Eq, Structural)]
pub enum HandshakePhase {
    /// Waiting for the peer's KEXINIT.
    KexInit,
    /// Waiting for KEX_ECDH_INIT (server) or KEX_ECDH_REPLY (client).
    Ecdh,
    /// Waiting for the peer's NEWKEYS.
    NewKeys,
    /// Waiting for SERVICE_REQUEST (server) or SERVICE_ACCEPT (client).
    Service,
    /// Waiting for a USERAUTH_REQUEST (server) or the answer to ours (client).
    Auth,
    /// Authenticated: channel messages follow.
    Connected,
}

/// The position of a phase in the handshake.
pub open spec fn phase_rank(phase: HandshakePhase) -> int {
    match phase {
        HandshakePhase::KexInit => 0,
        HandshakePhase::Ecdh => 1,
        HandshakePhase::NewKeys => 2,
        HandshakePhase::Service => 3,
        HandshakePhase::Auth => 4,
        HandshakePhase::Connected => 5,
    }
}

/// The phase after a message of `phase` was handled; in `Auth`, whether it
/// authenticated the client decides.
pub open spec fn phase_after(phase: HandshakePhase, authenticated: bool) -> HandshakePhase {
    match phase {
        HandshakePhase::KexInit => HandshakePhase::Ecdh,
        HandshakePhase::Ecdh => HandshakePhase::NewKeys,
        HandshakePhase::NewKeys => HandshakePhase::Service,
        HandshakePhase::Service => HandshakePhase::Auth,
        HandshakePhase::Auth => if authenticated {
            HandshakePhase::Connected
        } else {
            HandshakePhase::Auth
        },
        HandshakePhase::Connected => HandshakePhase::Connected,
    }
}

/// The message type a side waits for in a phase before `Auth`, and in the
/// server's `Auth`.
pub open spec fn awaited_code(role: Role, phase: HandshakePhase) -> u8 {
    match (role, phase) {
        (_, HandshakePhase::KexInit) => MessageType::KexInit.code(),
        (Role::Server, HandshakePhase::Ecdh) => MessageType::KexEcdhInit.code(),
        (Role::Client, HandshakePhase::Ecdh) => MessageType::KexEcdhReply.code(),
        (_, HandshakePhase::NewKeys) => MessageType::NewKeys.code(),
        (Role::Server, HandshakePhase::Service) => MessageType::ServiceRequest.code(),
        (Role::Client, HandshakePhase::Service) => MessageType::ServiceAccept.code(),
        _ => MessageType::UserAuthRequest.code(),
    }
}

/// The protocol error a side reports when another message arrives.
pub open spec fn awaited_text(role: Role, phase: HandshakePhase) -> Seq<char> {
    match (role, phase) {
        (Role::Server, HandshakePhase::KexInit) => "Expected KEXINIT"@,
        (Role::Client, HandshakePhase::KexInit) => "Expected KEXINIT from server"@,
        (Role::Server, HandshakePhase::Ecdh) => "Expected KEX_ECDH_INIT"@,
        (Role::Client, HandshakePhase::Ecdh) => "Expected KEX_ECDH_REPLY"@,
        (_, HandshakePhase::NewKeys) => "Expected NEWKEYS"@,
        (Role::Server, HandshakePhase::Service) => "Expected SERVICE_REQUEST"@,
        (Role::Client, HandshakePhase::Service) => "Expected SERVICE_ACCEPT"@,
        _ => "Expected USERAUTH_REQUEST"@,
    }
}

/// Whether the client reads the packet of `phase` as the answer to its
/// authentication request rather than by its expected type.
pub open spec fn reads_auth_answer(role: Role, phase: HandshakePhase) -> bool {
    role == Role::Client && phase == HandshakePhase::Auth
}

impl HandshakePhase {
    /// Where a connection starts, right after the version exchange.
    pub fn start() -> (r: Self)
        ensures
            r == HandshakePhase::KexInit,
    {
        HandshakePhase::KexInit
    }

    /// Whether the handshake is over.
    pub fn is_connected(&self) -> (r: bool)
        ensures
            r == (*self == HandshakePhase::Connected),
    {
        match self {
            HandshakePhase::Connected => true,
            _ => false,
        }
    }

    /// Whether the packet that arrived in this phase is the one the side
    /// waits for. On the client's `Auth`, the answer to its request is read:
    /// USERAUTH_SUCCESS passes, USERAUTH_FAILURE is a rejection.
    pub fn check(&self, role: Role, pkt: &SshPacket) -> (r: SshResult<()>)
        requires
            *self != HandshakePhase::Connected,
        ensures
            !reads_auth_answer(role, *self) ==> {
                &&& (r is Ok) <==> pkt.msg_type == awaited_code(role, *self)
                &&& r matches Err(e) ==> (e matches SshError::Protocol(m) && m@ == awaited_text(role, *self))
            },
            reads_auth_answer(role, *self) ==> {
                &&& (r is Ok) <==> pkt.msg_type == MessageType::UserAuthSuccess.code()
                &&& pkt.msg_type == MessageType::UserAuthFailure.code() ==> (r matches Err(
                    SshError::AuthFailed(m),
                ) && m@ == "Authentication rejected by server"@)
                &&& pkt.msg_type != MessageType::UserAuthSuccess.code() && pkt.msg_type
                    != MessageType::UserAuthFailure.code() ==> (r matches Err(SshError::Protocol(m)) && m@
                    == "Unexpected auth response"@)
            },
    {
        match (role, *self) {
            (Role::Server, HandshakePhase::KexInit) => expect_message(pkt, MessageType::KexInit, "Expected KEXINIT"),
            (Role::Client, HandshakePhase::KexInit) => expect_message(
                pkt,
                MessageType::KexInit,
                "Expected KEXINIT from server",
            ),
            (Role::Server, HandshakePhase::Ecdh) => expect_message(
                pkt,
                MessageType::KexEcdhInit,
                "Expected KEX_ECDH_INIT",
            ),
            (Role::Client, HandshakePhase::Ecdh) => expect_message(
                pkt,
                MessageType::KexEcdhReply,
                "Expected KEX_ECDH_REPLY",
            ),
            (_, HandshakePhase::NewKeys) => expect_message(pkt, MessageType::NewKeys, "Expected NEWKEYS"),
            (Role::Server, HandshakePhase::Service) => expect_message(
                pkt,
                MessageType::ServiceRequest,
                "Expected SERVICE_REQUEST",
            ),
            (Role::Client, HandshakePhase::Service) => expect_message(
                pkt,
                MessageType::ServiceAccept,
                "Expected SERVICE_ACCEPT",
            ),
            (Role::Server, _) => expect_message(pkt, MessageType::UserAuthRequest, "Expected USERAUTH_REQUEST"),
            (Role::Client, _) => auth_outcome(pkt.msg_type),
        }
    }

    /// The phase after a message of this phase was handled; `authenticated`
    /// counts only in `Auth`.
    pub fn next(&self, authenticated: bool) -> (r: Self)
        ensures
            r == phase_after(*self, authenticated),
    {
        match self {
            HandshakePhase::KexInit => HandshakePhase::Ecdh,
            HandshakePhase::Ecdh => HandshakePhase::NewKeys,
            HandshakePhase::NewKeys => HandshakePhase::Service,
            HandshakePhase::Service => HandshakePhase::Auth,
            HandshakePhase::Auth => if authenticated {
                HandshakePhase::Connected
            } else {
                HandshakePhase::Auth
            },
            HandshakePhase::Connected => HandshakePhase::Connected,
        }
    }
}

/// The handshake only moves forward, one phase per handled message, except
/// that a failed authentication leaves the server waiting for another
/// request; and channel traffic is reached only from `Auth`, by a message
/// that authenticated the client.
pub proof fn lemma_phases_in_order(phase: HandshakePhase, authenticated: bool)
    requires
        phase != HandshakePhase::Connected,
    ensures
        phase != HandshakePhase::Auth ==> phase_rank(phase_after(phase, authenticated)) == phase_rank(phase) + 1,
        phase == HandshakePhase::Auth && authenticated ==> phase_after(phase, authenticated)
            == HandshakePhase::Connected,
        phase == HandshakePhase::Auth && !authenticated ==> phase_after(phase, authenticated) == phase,
        phase_after(phase, authenticated) == HandshakePhase::Connected ==> phase == HandshakePhase::Auth
            && authenticated,
{
}

/// The phase reached from the start by handling messages whose
/// authentication outcomes are `outcomes`, in order.
pub open spec fn phase_after_all(outcomes: Seq<bool>) -> HandshakePhase
    decreases outcomes.len(),
{
    if outcomes.len() == 0 {
        HandshakePhase::KexInit
    } else {
        phase_after(phase_after_all(outcomes.drop_last()), outcomes.last())
    }
}

/// Whatever the outcomes, a side that reaches channel traffic has gone
/// through the whole handshake: some handled message, the fifth or a later
/// one, found the side in `Auth` and authenticated the client.
pub proof fn lemma_connected_after_handshake(outcomes: Seq<bool>)
    requires
        phase_after_all(outcomes) == HandshakePhase::Connected,
    ensures
        outcomes.len() >= 5,
        exists|i: int|
            4 <= i < outcomes.len() && #[trigger] outcomes[i] && phase_after_all(outcomes.take(i))
                == HandshakePhase::Auth,
    decreases outcomes.len(),
{
    lemma_rank_bounded_by_steps(outcomes);
    let last = outcomes.len() - 1;
    let prev = phase_after_all(outcomes.drop_last());
    if prev != HandshakePhase::Connected {
        lemma_phases_in_order(prev, outcomes.last());
        lemma_rank_bounded_by_steps(outcomes.drop_last());
        assert(outcomes.take(last) =~= outcomes.drop_last());
        assert(outcomes[last]);
    } else {
        let rest = outcomes.drop_last();
        lemma_connected_after_handshake(rest);
        let i = choose|i: int| 4 <= i < rest.len() && #[trigger] rest[i] && phase_after_all(rest.take(i))
            == HandshakePhase::Auth;
        assert(rest.take(i) =~= outcomes.take(i));
        assert(outcomes[i]);
    }
}

proof fn lemma_rank_bounded_by_steps(outcomes: Seq<bool>)
    ensures
        phase_rank(phase_after_all(outcomes)) <= outcomes.len(),
    decreases outcomes.len(),
{
    if outcomes.len() > 0 {
        lemma_rank_bounded_by_steps(outcomes.drop_last());
    }
}

} // verus!
