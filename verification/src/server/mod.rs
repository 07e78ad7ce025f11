//! The server's side of a connection after key exchange: answering
//! authentication requests, and the channel loop, in which each message from
//! the client becomes packets to send or outside work to do (running a
//! command, file-system work for SFTP), whose results come back here.
use vstd::prelude::*;

use crate::auth::{build_auth_failure, build_auth_success, AuthRequest, Credential, CredentialView, UserDatabase};
use crate::connection::{
    build_channel_close, build_channel_data, build_channel_eof, build_channel_open_confirmation,
    channel_data_payload, channel_open_confirmation_payload, fresh_channel, parse_channel_data,
    parse_channel_open, parse_channel_request, with_remote, ChannelDataMsg, ChannelManager,
    ChannelOpenMsg, ChannelRequestMsg, ChannelView,
};
use crate::error::{SshError, SshResult};
use crate::packet::codec::{
    read_u32_at, read_utf8_at, ssh_bool, ssh_name_list, ssh_utf8, u32_be, u32_of_be, Cursor, SshBuf, SshPacket,
};
use crate::packet::types::{MessageType, DEFAULT_MAX_PACKET_SIZE, DEFAULT_WINDOW_SIZE};
use crate::sftp::{
    completed_step, opt_parts, parts_of, request_step, resolved_step, sftp_packet_bytes, ActionView,
    FsOpView, FsOutcome, FsTask, HandlerState, PathComponent, PathFacts, PathOp, PathPart, PathTask, SftpAction,
    SftpHandler, SftpPacket,
};

verus! {

// ---------------------------------------------------------------------------
// Configuration
// ---------------------------------------------------------------------------

/// Server configuration.
#[derive(Clone)]
pub struct ServerConfig {
    pub bind_addr: String,
    pub port: u16,
    /// The directory SFTP requests are confined to.
    pub sftp_root: String,
}

impl Default for ServerConfig {
    fn default() -> (r: Self)
        ensures
            r.bind_addr@ == "0.0.0.0"@,
            r.port == 2222,
            r.sftp_root@ == "/tmp/swiftssh"@,
    {
        ServerConfig {
            bind_addr: String::from_str("0.0.0.0"),
            port: 2222,
            sftp_root: String::from_str("/tmp/swiftssh"),
        }
    }
}

// ---------------------------------------------------------------------------
// Authentication
// ---------------------------------------------------------------------------

/// Whether the user database accepts a credential for `user`: the user's
/// password. Public-key authentication requires checking a signature over
/// the session data, and no signature scheme is implemented here, so a
/// public key never authenticates, authorized or not, signed or not.
pub open spec fn credential_accepted(db: UserDatabase, user: Seq<char>, cred: CredentialView) -> bool {
    match cred {
        CredentialView::Password(p) => db.password_map().contains_key(user) && db.password_map()[user] == p,
        CredentialView::PublicKey { .. } => false,
    }
}

/// A public key never authenticates, whatever signature comes with it and
/// whatever the database holds.
pub proof fn lemma_public_keys_refused(
    db: UserDatabase,
    user: Seq<char>,
    algorithm: Seq<char>,
    key_blob: Seq<u8>,
    signature: Option<Seq<u8>>,
)
    ensures
        !credential_accepted(db, user, CredentialView::PublicKey { algorithm, key_blob, signature }),
{
}

/// The methods offered after a failed attempt.
pub open spec fn offered_methods() -> Seq<Seq<char>> {
    seq!["password"@, "publickey"@]
}

/// The server's answer to an authentication request, and whether it
/// authenticates the user: USERAUTH_SUCCESS for a password that the
/// database accepts; USERAUTH_FAILURE offering "password" and "publickey"
/// otherwise, public-key requests included.
pub fn auth_response(db: &UserDatabase, req: &AuthRequest) -> (r: (SshPacket, bool))
    requires
        db.wf(),
    ensures
        r.1 == credential_accepted(*db, req.username@, req.credential@),
        r.1 ==> r.0.msg_type == MessageType::UserAuthSuccess.code() && r.0.payload@ == Seq::<u8>::empty(),
        !r.1 ==> r.0.msg_type == MessageType::UserAuthFailure.code() && r.0.payload@ == ssh_name_list(
            offered_methods(),
        ) + ssh_bool(false),
{
    let ok = match &req.credential {
        Credential::Password(password) => db.verify_password(req.username.as_str(), password.as_str()),
        Credential::PublicKey { .. } => false,
    };
    if ok {
        (build_auth_success(), true)
    } else {
        let methods: [&str; 2] = ["password", "publickey"];
        let p = build_auth_failure(methods.as_slice(), false);
        proof {
            assert(methods@.map_values(|m: &str| m@) =~= offered_methods());
        }
        (p, false)
    }
}


// ---------------------------------------------------------------------------
// The channel loop
// ---------------------------------------------------------------------------

/// What the server does next for a message of the channel loop.
pub enum ServerAction {
    /// Send these packets, in order (none at all for many messages).
    Send(Vec<SshPacket>),
    /// Run `command` for the channel whose remote id is `recipient`, then
    /// call `exec_finished` with its output.
    Exec { recipient: u32, want_reply: bool, command: String },
    /// Canonicalize the task's path and the SFTP root, then call `sftp_resolved`.
    SftpResolve { recipient: u32, task: PathTask },
    /// Do the file-system work, then call `sftp_completed` with its outcome.
    SftpPerform { recipient: u32, task: FsTask },
    /// The client said goodbye: stop.
    Stop,
}

/// The value of a packet: message type and payload.
pub open spec fn packet_view(p: SshPacket) -> (u8, Seq<u8>) {
    (p.msg_type, p.payload@)
}

/// The mathematical value of a server action.
pub enum ServerActionView {
    Send(Seq<(u8, Seq<u8>)>),
    Exec(u32, bool, Seq<char>),
    SftpResolve(u32, PathOp, u32, Seq<PathPart>),
    SftpPerform(u32, FsOpView, u32),
    Stop,
}

impl View for ServerAction {
    type V = ServerActionView;

    open spec fn view(&self) -> ServerActionView {
        match self {
            ServerAction::Send(ps) => ServerActionView::Send(ps@.map_values(|p: SshPacket| packet_view(p))),
            ServerAction::Exec { recipient, want_reply, command } => ServerActionView::Exec(
                *recipient,
                *want_reply,
                command@,
            ),
            ServerAction::SftpResolve { recipient, task } => ServerActionView::SftpResolve(
                *recipient,
                task.op,
                task.request_id,
                parts_of(task.joined@),
            ),
            ServerAction::SftpPerform { recipient, task } => ServerActionView::SftpPerform(
                *recipient,
                task.op@,
                task.request_id,
            ),
            ServerAction::Stop => ServerActionView::Stop,
        }
    }
}

/// How a step of the channel loop ends: an action, or an error of one of
/// these kinds.
pub enum StepView {
    Act(ServerActionView),
    /// A malformed message (`SshError::InvalidPacket`).
    BadPacket,
    /// No channel has the recipient as its remote id (`SshError::Channel`).
    UnknownChannel,
    /// A response too large to frame (`SshError::Sftp`).
    TooLarge,
}

/// Whether `r` is the outcome `v`.
pub open spec fn outcome_is(r: SshResult<ServerAction>, v: StepView) -> bool {
    match v {
        StepView::Act(a) => r matches Ok(x) && x@ == a,
        StepView::BadPacket => r matches Err(e) && e is InvalidPacket,
        StepView::UnknownChannel => r matches Err(e) && e is Channel,
        StepView::TooLarge => r matches Err(e) && e is Sftp,
    }
}

/// Sending nothing.
pub open spec fn send_none() -> StepView {
    StepView::Act(ServerActionView::Send(Seq::empty()))
}

/// Whether some channel has remote id `c`.
pub open spec fn has_remote(chans: Map<u32, ChannelView>, c: u32) -> bool {
    exists|id: u32| #[trigger] chans.contains_key(id) && chans[id].remote_id == c
}

/// The reply to a channel request: CHANNEL_SUCCESS or CHANNEL_FAILURE to `c`.
pub open spec fn request_reply(c: u32, success: bool) -> (u8, Seq<u8>) {
    (
        if success {
            MessageType::ChannelSuccess.code()
        } else {
            MessageType::ChannelFailure.code()
        },
        u32_be(c),
    )
}

/// What a channel request asks of the server.
pub enum RequestDecision {
    /// Run this command.
    Exec(Seq<char>),
    /// Reply with success (`true`) or failure.
    Reply(bool),
    /// Nothing to do.
    Nothing,
    /// The type-specific data is malformed.
    Malformed,
}

/// The server's decision on a channel request of type `req_type`:
/// "exec" runs the command; "shell" and "pty-req" succeed; "subsystem"
/// succeeds for "sftp" and fails otherwise; any other type fails. Replies
/// are only sent when wanted.
pub open spec fn request_decision(req_type: Seq<char>, want_reply: bool, data: Seq<u8>) -> RequestDecision {
    let reply = |ok: bool| if want_reply { RequestDecision::Reply(ok) } else { RequestDecision::Nothing };
    if req_type == "exec"@ {
        match read_utf8_at(data, 0).0 {
            Some(cmd) => RequestDecision::Exec(cmd),
            None => RequestDecision::Malformed,
        }
    } else if req_type == "shell"@ || req_type == "pty-req"@ {
        reply(true)
    } else if req_type == "subsystem"@ {
        match read_utf8_at(data, 0).0 {
            Some(sub) => reply(sub == "sftp"@),
            None => RequestDecision::Malformed,
        }
    } else {
        reply(false)
    }
}

/// The outcome of a CHANNEL_REQUEST message.
pub open spec fn request_outcome(chans: Map<u32, ChannelView>, d: Seq<u8>) -> StepView {
    match parse_channel_request(d) {
        None => StepView::BadPacket,
        Some((c, t, wr, data)) => match request_decision(t, wr, data) {
            RequestDecision::Malformed => StepView::BadPacket,
            RequestDecision::Exec(cmd) => StepView::Act(ServerActionView::Exec(c, wr, cmd)),
            RequestDecision::Nothing => send_none(),
            RequestDecision::Reply(ok) => if has_remote(chans, c) {
                StepView::Act(ServerActionView::Send(seq![request_reply(c, ok)]))
            } else {
                StepView::UnknownChannel
            },
        },
    }
}

/// A "subsystem" request that wants a reply, on a channel the server
/// knows, is answered with one CHANNEL_SUCCESS (99) to that channel exactly
/// when it names "sftp", and with one CHANNEL_FAILURE (100) for any other
/// subsystem; without a wanted reply nothing is sent.
pub proof fn lemma_subsystem_requests(chans: Map<u32, ChannelView>, d: Seq<u8>, c: u32, want_reply: bool, sub: Seq<char>)
    requires
        parse_channel_request(d) == Some((c, "subsystem"@, want_reply, ssh_utf8(sub))),
        vstd::utf8::encode_utf8(sub).len() <= crate::packet::types::MAX_PACKET_SIZE,
        has_remote(chans, c),
    ensures
        want_reply && sub == "sftp"@ ==> request_outcome(chans, d) == StepView::Act(
            ServerActionView::Send(seq![(99u8, u32_be(c))]),
        ),
        want_reply && sub != "sftp"@ ==> request_outcome(chans, d) == StepView::Act(
            ServerActionView::Send(seq![(100u8, u32_be(c))]),
        ),
        !want_reply ==> request_outcome(chans, d) == StepView::Act(ServerActionView::Send(Seq::empty())),
{
    crate::packet::codec::lemma_utf8_roundtrip(sub);
    reveal_strlit("subsystem");
    reveal_strlit("exec");
    reveal_strlit("shell");
    reveal_strlit("pty-req");
    reveal_strlit("sftp");
    let data = ssh_utf8(sub);
    assert(read_utf8_at(data, 0).0 == Some(sub));
    assert("subsystem"@.len() == 9);
    assert("subsystem"@ != "exec"@);
    assert("subsystem"@ != "shell"@);
    assert("subsystem"@ != "pty-req"@);
    let dec = request_decision("subsystem"@, want_reply, data);
    if want_reply {
        assert(dec == RequestDecision::Reply(sub == "sftp"@));
    } else {
        assert(dec == RequestDecision::Nothing);
    }
}

/// Other channel requests on a channel the server knows: "exec" asks to run
/// the command its data names, reporting the channel and whether a reply is
/// wanted; "shell" and "pty-req" are answered with CHANNEL_SUCCESS (99) and
/// any type the server does not serve with CHANNEL_FAILURE (100), when a
/// reply is wanted, and with nothing otherwise.
pub proof fn lemma_channel_request_answers(
    chans: Map<u32, ChannelView>,
    d: Seq<u8>,
    c: u32,
    t: Seq<char>,
    want_reply: bool,
    data: Seq<u8>,
)
    requires
        parse_channel_request(d) == Some((c, t, want_reply, data)),
        has_remote(chans, c),
    ensures
        t == "exec"@ ==> (read_utf8_at(data, 0).0 matches Some(cmd) ==> request_outcome(chans, d)
            == StepView::Act(ServerActionView::Exec(c, want_reply, cmd))),
        (t == "shell"@ || t == "pty-req"@) && want_reply ==> request_outcome(chans, d) == StepView::Act(
            ServerActionView::Send(seq![(99u8, u32_be(c))]),
        ),
        t != "exec"@ && t != "shell"@ && t != "pty-req"@ && t != "subsystem"@ && want_reply ==> request_outcome(
            chans,
            d,
        ) == StepView::Act(ServerActionView::Send(seq![(100u8, u32_be(c))])),
        t != "exec"@ && t != "subsystem"@ && !want_reply ==> request_outcome(chans, d) == StepView::Act(
            ServerActionView::Send(Seq::empty()),
        ),
{
    reveal_strlit("exec");
    reveal_strlit("shell");
    reveal_strlit("pty-req");
    let dec = request_decision(t, want_reply, data);
    assert("exec"@.len() == 4 && "shell"@.len() == 5 && "pty-req"@.len() == 7);
    if (t == "shell"@ || t == "pty-req"@) && want_reply {
        assert(t != "exec"@);
        assert(dec == RequestDecision::Reply(true));
    }
}

/// The SFTP packet framed at the start of channel data, if the data holds
/// one: at least nine bytes, a length of at least five that fits the data,
/// then type, request id and body.
pub open spec fn sftp_frame(data: Seq<u8>) -> Option<(u8, u32, Seq<u8>)> {
    let n = u32_of_be(data) as int;
    if data.len() >= 9 && n + 4 <= data.len() && n >= 5 {
        Some((data[4], u32_of_be(data.subrange(5, 9)), data.subrange(9, 4 + n)))
    } else {
        None
    }
}

/// How an SFTP response goes back on channel `c`.
pub open spec fn sftp_reply_outcome(chans: Map<u32, ChannelView>, c: u32, t: u8, id: u32, d: Seq<u8>) -> StepView {
    if !has_remote(chans, c) {
        StepView::UnknownChannel
    } else if d.len() + 9 > usize::MAX {
        StepView::TooLarge
    } else {
        StepView::Act(
            ServerActionView::Send(
                seq![(MessageType::ChannelData.code(), channel_data_payload(c, sftp_packet_bytes(t, id, d)))],
            ),
        )
    }
}

/// The outcome of an SFTP handler action for channel `c`.
pub open spec fn sftp_action_outcome(chans: Map<u32, ChannelView>, c: u32, a: ActionView) -> StepView {
    match a {
        ActionView::Reply(t, id, d) => sftp_reply_outcome(chans, c, t, id, d),
        ActionView::Resolve(op, id, joined) => StepView::Act(ServerActionView::SftpResolve(c, op, id, joined)),
        ActionView::Perform(op, id) => StepView::Act(ServerActionView::SftpPerform(c, op, id)),
    }
}

/// The channel with remote id `c` (one of them, when several share it)
/// changed by `f`, or nothing changed when there is none.
pub open spec fn changed_by_remote(
    before: Map<u32, ChannelView>,
    after: Map<u32, ChannelView>,
    c: u32,
    f: spec_fn(ChannelView) -> ChannelView,
) -> bool {
    ||| exists|id: u32|
        #[trigger] before.contains_key(id) && before[id].remote_id == c && after == before.insert(
            id,
            f(before[id]),
        )
    ||| !has_remote(before, c) && after == before
}

/// The server side of a connection's channel loop: its channels and its
/// SFTP handler.
pub struct ServerSession {
    channels: ChannelManager,
    sftp: SftpHandler,
}

impl ServerSession {
    /// The channels, by local id.
    pub closed spec fn channels(&self) -> Map<u32, ChannelView> {
        self.channels@
    }

    /// The local id the next accepted channel gets.
    pub closed spec fn next_channel_id(&self) -> u32 {
        self.channels.next_local_id()
    }

    /// The SFTP handler's state.
    pub closed spec fn sftp_state(&self) -> HandlerState {
        self.sftp.state()
    }

    /// The SFTP root.
    pub closed spec fn sftp_root(&self) -> Seq<PathPart> {
        self.sftp.root_parts()
    }

    pub closed spec fn wf(&self) -> bool {
        self.channels.wf() && self.sftp.wf()
    }

    /// A session with no channels, serving SFTP from `sftp_root`.
    pub fn new(sftp_root: &str) -> (r: Self)
        ensures
            r.wf(),
            r.channels() == Map::<u32, ChannelView>::empty(),
            r.next_channel_id() == 0,
            r.sftp_root() == crate::sftp::path_parts(sftp_root@),
            r.sftp_state() == (HandlerState { files: Map::empty(), dirs: Map::empty(), next_handle: 0 }),
    {
        ServerSession { channels: ChannelManager::new(), sftp: SftpHandler::new(sftp_root) }
    }

    /// Whether every local channel id has been given out.
    pub fn channel_ids_exhausted(&self) -> (r: bool)
        requires
            self.wf(),
        ensures
            r == (self.next_channel_id() == u32::MAX),
    {
        self.channels.next_id_exhausted()
    }

    /// Whether every SFTP handle number has been given out.
    pub fn sftp_handles_exhausted(&self) -> (r: bool)
        ensures
            r == (self.sftp_state().next_handle == u32::MAX),
    {
        self.sftp.handles_exhausted()
    }
}


/// `v` with `n` more bytes of remote window (saturating).
pub open spec fn with_window_added(v: ChannelView, n: u32) -> ChannelView {
    ChannelView { remote_window: v.remote_window.saturating_add(n), ..v }
}

/// `v` marked as having received EOF.
pub open spec fn with_eof_received(v: ChannelView) -> ChannelView {
    ChannelView { eof_received: true, ..v }
}

/// The outcome of a CHANNEL_OPEN message, given the next local id.
pub open spec fn open_outcome(next: u32, d: Seq<u8>) -> StepView {
    match parse_channel_open(d) {
        None => StepView::BadPacket,
        Some((_, s, _, _)) => StepView::Act(
            ServerActionView::Send(
                seq![
                    (
                        MessageType::ChannelOpenConfirmation.code(),
                        channel_open_confirmation_payload(s, next, DEFAULT_WINDOW_SIZE, DEFAULT_MAX_PACKET_SIZE),
                    ),
                ],
            ),
        ),
    }
}

/// The outcome of a CHANNEL_CLOSE for `c`: a CLOSE back to a channel with
/// that remote id that is not closed yet, nothing otherwise.
pub open spec fn close_outcome_ok(chans: Map<u32, ChannelView>, c: u32, r: SshResult<ServerAction>) -> bool {
    ||| exists|id: u32|
        #[trigger] chans.contains_key(id) && chans[id].remote_id == c && outcome_is(
            r,
            StepView::Act(
                ServerActionView::Send(
                    if chans[id].closed {
                        Seq::empty()
                    } else {
                        seq![(MessageType::ChannelClose.code(), u32_be(c))]
                    },
                ),
            ),
        )
    ||| !has_remote(chans, c) && outcome_is(r, send_none())
}

/// The packets that follow a finished command on channel `c`: success (when
/// wanted), the output as channel data, EOF, and CLOSE.
pub open spec fn exec_reply_packets(c: u32, want_reply: bool, output: Seq<u8>) -> Seq<(u8, Seq<u8>)> {
    (if want_reply {
        seq![request_reply(c, true)]
    } else {
        Seq::empty()
    }) + seq![
        (MessageType::ChannelData.code(), channel_data_payload(c, output)),
        (MessageType::ChannelEof.code(), u32_be(c)),
        (MessageType::ChannelClose.code(), u32_be(c)),
    ]
}

/// A packet with a single uint32 payload.
fn u32_packet(t: MessageType, v: u32) -> (r: SshPacket)
    ensures
        packet_view(r) == (t.code(), u32_be(v)),
{
    let mut payload = Vec::new();
    SshBuf::write_u32(&mut payload, v);
    assert(payload@ =~= u32_be(v));
    SshPacket::new(t, payload)
}

/// A list of one packet.
fn one_packet(p: SshPacket) -> (r: Vec<SshPacket>)
    ensures
        r@.map_values(|q: SshPacket| packet_view(q)) == seq![packet_view(p)],
{
    let mut v = Vec::new();
    v.push(p);
    assert(v@.map_values(|q: SshPacket| packet_view(q)) =~= seq![packet_view(p)]);
    v
}

/// No packets.
fn no_packets() -> (r: ServerAction)
    ensures
        r@ == ServerActionView::Send(Seq::empty()),
{
    let v: Vec<SshPacket> = Vec::new();
    assert(v@.map_values(|q: SshPacket| packet_view(q)) =~= Seq::<(u8, Seq<u8>)>::empty());
    ServerAction::Send(v)
}

impl ServerSession {
    /// The reply to a channel request, sent to the channel whose remote id
    /// is `c`.
    fn request_reply_action(&self, c: u32, ok: bool) -> (r: SshResult<ServerAction>)
        requires
            self.wf(),
        ensures
            if has_remote(self.channels(), c) {
                outcome_is(r, StepView::Act(ServerActionView::Send(seq![request_reply(c, ok)])))
            } else {
                outcome_is(r, StepView::UnknownChannel)
            },
    {
        match self.channels.find_by_remote_id(c) {
            None => Err(SshError::Channel("Unknown channel".to_string())),
            Some(ch) => {
                let t = if ok { MessageType::ChannelSuccess } else { MessageType::ChannelFailure };
                Ok(ServerAction::Send(one_packet(u32_packet(t, ch.remote_id))))
            },
        }
    }

    fn on_channel_request(&self, payload: &[u8]) -> (r: SshResult<ServerAction>)
        requires
            self.wf(),
        ensures
            outcome_is(r, request_outcome(self.channels(), payload@)),
    {
        let msg = ChannelRequestMsg::parse(payload)?;
        let rt = msg.request_type.as_str();
        if crate::packet::codec::text_eq(rt, "exec") {
            let mut cur = Cursor::new(msg.data.as_slice());
            let command = SshBuf::read_utf8(&mut cur)?;
            return Ok(ServerAction::Exec { recipient: msg.recipient_channel, want_reply: msg.want_reply, command });
        }
        let ok = if crate::packet::codec::text_eq(rt, "shell") || crate::packet::codec::text_eq(rt, "pty-req") {
            true
        } else if crate::packet::codec::text_eq(rt, "subsystem") {
            let mut cur = Cursor::new(msg.data.as_slice());
            let sub = SshBuf::read_utf8(&mut cur)?;
            crate::packet::codec::text_eq(sub.as_str(), "sftp")
        } else {
            false
        };
        if !msg.want_reply {
            return Ok(no_packets());
        }
        self.request_reply_action(msg.recipient_channel, ok)
    }
}


impl ServerSession {
    fn on_channel_open(&mut self, payload: &[u8]) -> (r: SshResult<ServerAction>)
        requires
            old(self).wf(),
            old(self).next_channel_id() < u32::MAX,
        ensures
            final(self).wf(),
            final(self).sftp == old(self).sftp,
            outcome_is(r, open_outcome(old(self).next_channel_id(), payload@)),
            match parse_channel_open(payload@) {
                None => final(self).channels == old(self).channels,
                Some((t, s, w, m)) => {
                    &&& final(self).channels() == old(self).channels().insert(
                        old(self).next_channel_id(),
                        with_remote(fresh_channel(old(self).next_channel_id(), t), s, w, m),
                    )
                    &&& final(self).next_channel_id() == old(self).next_channel_id() + 1
                },
            },
    {
        let msg = ChannelOpenMsg::parse(payload)?;
        let local_id = self.channels.accept_channel(
            msg.sender_channel,
            msg.channel_type.as_str(),
            msg.initial_window,
            msg.max_packet,
        );
        let confirm = build_channel_open_confirmation(
            msg.sender_channel,
            local_id,
            DEFAULT_WINDOW_SIZE,
            DEFAULT_MAX_PACKET_SIZE,
        );
        Ok(ServerAction::Send(one_packet(confirm)))
    }

    /// An SFTP response sent back on the channel whose remote id is `c`.
    fn sftp_reply(&self, c: u32, p: SftpPacket) -> (r: SshResult<ServerAction>)
        requires
            self.wf(),
        ensures
            outcome_is(r, sftp_reply_outcome(self.channels(), c, p.packet_type, p.request_id, p.data@)),
    {
        match self.channels.find_by_remote_id(c) {
            None => Err(SshError::Channel("Unknown channel".to_string())),
            Some(ch) => {
                if p.data.len() > usize::MAX - 9 {
                    return Err(SshError::Sftp("SFTP response too large".to_string()));
                }
                let encoded = p.encode();
                Ok(ServerAction::Send(one_packet(build_channel_data(ch.remote_id, encoded.as_slice()))))
            },
        }
    }

    /// What an SFTP handler action becomes for the channel whose remote id is `c`.
    fn sftp_action(&self, c: u32, a: SftpAction) -> (r: SshResult<ServerAction>)
        requires
            self.wf(),
        ensures
            outcome_is(r, sftp_action_outcome(self.channels(), c, a@)),
    {
        match a {
            SftpAction::Reply(p) => self.sftp_reply(c, p),
            SftpAction::Resolve(task) => Ok(ServerAction::SftpResolve { recipient: c, task }),
            SftpAction::Perform(task) => Ok(ServerAction::SftpPerform { recipient: c, task }),
        }
    }

    fn on_channel_data(&mut self, payload: &[u8]) -> (r: SshResult<ServerAction>)
        requires
            old(self).wf(),
        ensures
            final(self).wf(),
            final(self).channels == old(self).channels,
            final(self).sftp_root() == old(self).sftp_root(),
            match parse_channel_data(payload@) {
                None => outcome_is(r, StepView::BadPacket) && final(self).sftp_state() == old(self).sftp_state(),
                Some((c, data)) => match sftp_frame(data) {
                    None => outcome_is(r, send_none()) && final(self).sftp_state() == old(self).sftp_state(),
                    Some((t, id, body)) => {
                        let (st, a) = request_step(old(self).sftp_state(), old(self).sftp_root(), t, id, body);
                        &&& final(self).sftp_state() == st
                        &&& outcome_is(r, sftp_action_outcome(old(self).channels(), c, a))
                    },
                },
            },
    {
        let msg = ChannelDataMsg::parse(payload)?;
        let data = msg.data.as_slice();
        if data.len() < 9 {
            return Ok(no_packets());
        }
        let n = ((data[0] as u32) << 24u32) | ((data[1] as u32) << 16u32) | ((data[2] as u32) << 8u32) | (
        data[3] as u32);
        proof {
            assert(n == u32_of_be(data@));
        }
        if (n as u64) + 4 > data.len() as u64 || n < 5 {
            return Ok(no_packets());
        }
        let inner = vstd::slice::slice_subrange(data, 4, 4 + n as usize);
        match SftpPacket::decode(inner) {
            Ok(p) => {
                proof {
                    assert(p.packet_type == data@[4]);
                    assert(inner@.subrange(1, 5) =~= data@.subrange(5, 9));
                    assert(p.data@ =~= data@.subrange(9, 4 + n));
                }
                let a = self.sftp.handle_request(&p);
                self.sftp_action(msg.recipient_channel, a)
            },
            Err(_) => Ok(no_packets()),
        }
    }

    fn on_window_adjust(&mut self, payload: &[u8]) -> (r: SshResult<ServerAction>)
        requires
            old(self).wf(),
        ensures
            final(self).wf(),
            final(self).sftp == old(self).sftp,
            final(self).next_channel_id() == old(self).next_channel_id(),
            ({
                let (c, p1) = read_u32_at(payload@, 0);
                let n = read_u32_at(payload@, p1).0;
                match (c, n) {
                    (Some(c), Some(n)) => outcome_is(r, send_none()) && changed_by_remote(
                        old(self).channels(),
                        final(self).channels(),
                        c,
                        |v: ChannelView| with_window_added(v, n),
                    ),
                    _ => outcome_is(r, StepView::BadPacket) && final(self).channels == old(self).channels,
                }
            }),
    {
        let mut cursor = Cursor::new(payload);
        let recipient = SshBuf::read_u32(&mut cursor)?;
        let bytes_to_add = SshBuf::read_u32(&mut cursor)?;
        match self.channels.find_by_remote_id_mut(recipient) {
            Some(ch) => {
                ch.remote_window = ch.remote_window.saturating_add(bytes_to_add);
            },
            None => {},
        }
        Ok(no_packets())
    }
}


impl ServerSession {
    fn on_channel_eof(&mut self, payload: &[u8]) -> (r: SshResult<ServerAction>)
        requires
            old(self).wf(),
        ensures
            final(self).wf(),
            final(self).sftp == old(self).sftp,
            final(self).next_channel_id() == old(self).next_channel_id(),
            match read_u32_at(payload@, 0).0 {
                Some(c) => outcome_is(r, send_none()) && changed_by_remote(
                    old(self).channels(),
                    final(self).channels(),
                    c,
                    |v: ChannelView| with_eof_received(v),
                ),
                None => outcome_is(r, StepView::BadPacket) && final(self).channels == old(self).channels,
            },
    {
        let mut cursor = Cursor::new(payload);
        let recipient = SshBuf::read_u32(&mut cursor)?;
        match self.channels.find_by_remote_id_mut(recipient) {
            Some(ch) => {
                ch.eof_received = true;
            },
            None => {},
        }
        Ok(no_packets())
    }

    fn on_channel_close(&self, payload: &[u8]) -> (r: SshResult<ServerAction>)
        requires
            self.wf(),
        ensures
            match read_u32_at(payload@, 0).0 {
                Some(c) => close_outcome_ok(self.channels(), c, r),
                None => outcome_is(r, StepView::BadPacket),
            },
    {
        let mut cursor = Cursor::new(payload);
        let recipient = SshBuf::read_u32(&mut cursor)?;
        match self.channels.find_by_remote_id(recipient) {
            Some(ch) => {
                if !ch.closed {
                    Ok(ServerAction::Send(one_packet(build_channel_close(ch.remote_id))))
                } else {
                    Ok(no_packets())
                }
            },
            None => Ok(no_packets()),
        }
    }

    /// Handle one message of the channel loop: channel opens are confirmed,
    /// channel requests answered (or their command handed out), SFTP
    /// packets in channel data handed to the SFTP handler, window adjusts and
    /// EOFs recorded, closes answered, DISCONNECT ends the loop, and anything
    /// else is ignored.
    pub fn handle_message(&mut self, pkt: &SshPacket) -> (r: SshResult<ServerAction>)
        requires
            old(self).wf(),
            pkt.msg_type == MessageType::ChannelOpen.code() ==> old(self).next_channel_id() < u32::MAX,
        ensures
            final(self).wf(),
            final(self).sftp_root() == old(self).sftp_root(),
            ({
                let t = pkt.msg_type;
                let d = pkt.payload@;
                let ch0 = old(self).channels();
                let ch1 = final(self).channels();
                let same_channels = ch1 == ch0 && final(self).next_channel_id() == old(self).next_channel_id();
                let same_sftp = final(self).sftp_state() == old(self).sftp_state();
                if t == MessageType::ChannelOpen.code() {
                    &&& same_sftp
                    &&& outcome_is(r, open_outcome(old(self).next_channel_id(), d))
                    &&& match parse_channel_open(d) {
                        None => same_channels,
                        Some((ty, s, w, m)) => {
                            &&& ch1 == ch0.insert(
                                old(self).next_channel_id(),
                                with_remote(fresh_channel(old(self).next_channel_id(), ty), s, w, m),
                            )
                            &&& final(self).next_channel_id() == old(self).next_channel_id() + 1
                        },
                    }
                } else if t == MessageType::ChannelRequest.code() {
                    same_channels && same_sftp && outcome_is(r, request_outcome(ch0, d))
                } else if t == MessageType::ChannelData.code() {
                    &&& same_channels
                    &&& match parse_channel_data(d) {
                        None => outcome_is(r, StepView::BadPacket) && same_sftp,
                        Some((c, data)) => match sftp_frame(data) {
                            None => outcome_is(r, send_none()) && same_sftp,
                            Some((st, id, body)) => {
                                let (s2, a) = request_step(
                                    old(self).sftp_state(),
                                    old(self).sftp_root(),
                                    st,
                                    id,
                                    body,
                                );
                                &&& final(self).sftp_state() == s2
                                &&& outcome_is(r, sftp_action_outcome(ch0, c, a))
                            },
                        },
                    }
                } else if t == MessageType::ChannelWindowAdjust.code() {
                    let (c, p1) = read_u32_at(d, 0);
                    let n = read_u32_at(d, p1).0;
                    &&& same_sftp
                    &&& final(self).next_channel_id() == old(self).next_channel_id()
                    &&& match (c, n) {
                        (Some(c), Some(n)) => outcome_is(r, send_none()) && changed_by_remote(
                            ch0,
                            ch1,
                            c,
                            |v: ChannelView| with_window_added(v, n),
                        ),
                        _ => outcome_is(r, StepView::BadPacket) && ch1 == ch0,
                    }
                } else if t == MessageType::ChannelEof.code() {
                    &&& same_sftp
                    &&& final(self).next_channel_id() == old(self).next_channel_id()
                    &&& match read_u32_at(d, 0).0 {
                        Some(c) => outcome_is(r, send_none()) && changed_by_remote(
                            ch0,
                            ch1,
                            c,
                            |v: ChannelView| with_eof_received(v),
                        ),
                        None => outcome_is(r, StepView::BadPacket) && ch1 == ch0,
                    }
                } else if t == MessageType::ChannelClose.code() {
                    &&& same_channels
                    &&& same_sftp
                    &&& match read_u32_at(d, 0).0 {
                        Some(c) => close_outcome_ok(ch0, c, r),
                        None => outcome_is(r, StepView::BadPacket),
                    }
                } else if t == MessageType::Disconnect.code() {
                    same_channels && same_sftp && outcome_is(r, StepView::Act(ServerActionView::Stop))
                } else {
                    same_channels && same_sftp && outcome_is(r, send_none())
                }
            }),
    {
        let t = pkt.msg_type;
        let d = pkt.payload.as_slice();
        if t == MessageType::ChannelOpen.to_u8() {
            self.on_channel_open(d)
        } else if t == MessageType::ChannelRequest.to_u8() {
            self.on_channel_request(d)
        } else if t == MessageType::ChannelData.to_u8() {
            self.on_channel_data(d)
        } else if t == MessageType::ChannelWindowAdjust.to_u8() {
            self.on_window_adjust(d)
        } else if t == MessageType::ChannelEof.to_u8() {
            self.on_channel_eof(d)
        } else if t == MessageType::ChannelClose.to_u8() {
            self.on_channel_close(d)
        } else if t == MessageType::Disconnect.to_u8() {
            Ok(ServerAction::Stop)
        } else {
            Ok(no_packets())
        }
    }

    /// The packets to send once a command run for the channel whose remote
    /// id is `recipient` has finished with `output`.
    pub fn exec_finished(&self, recipient: u32, want_reply: bool, output: &[u8]) -> (r: SshResult<Vec<SshPacket>>)
        requires
            self.wf(),
        ensures
            (r is Ok) <==> has_remote(self.channels(), recipient),
            r matches Err(e) ==> e is Channel,
            r matches Ok(ps) ==> ps@.map_values(|p: SshPacket| packet_view(p)) == exec_reply_packets(
                recipient,
                want_reply,
                output@,
            ),
    {
        let remote_id = match self.channels.find_by_remote_id(recipient) {
            Some(ch) => ch.remote_id,
            None => {
                return Err(SshError::Channel("Unknown channel".to_string()));
            },
        };
        let mut ps: Vec<SshPacket> = Vec::new();
        if want_reply {
            ps.push(u32_packet(MessageType::ChannelSuccess, remote_id));
        }
        ps.push(build_channel_data(remote_id, output));
        ps.push(build_channel_eof(remote_id));
        ps.push(build_channel_close(remote_id));
        assert(ps@.map_values(|p: SshPacket| packet_view(p)) =~= exec_reply_packets(recipient, want_reply, output@));
        Ok(ps)
    }

    /// Continue an SFTP path request for the channel whose remote id is
    /// `recipient`, once the file system's facts about its path and the
    /// canonical form of the root (`None` where canonicalizing failed) are known.
    pub fn sftp_resolved(
        &mut self,
        recipient: u32,
        task: PathTask,
        facts: PathFacts,
        root_canonical: Option<Vec<PathComponent>>,
    ) -> (r: SshResult<ServerAction>)
        requires
            old(self).wf(),
            task.op is Open ==> old(self).sftp_state().next_handle < u32::MAX,
        ensures
            final(self).wf(),
            final(self).channels() == old(self).channels(),
            final(self).next_channel_id() == old(self).next_channel_id(),
            final(self).sftp_root() == old(self).sftp_root(),
            ({
                let (st, a) = resolved_step(
                    old(self).sftp_state(),
                    old(self).sftp_root(),
                    task.op,
                    task.request_id,
                    parts_of(task.joined@),
                    facts@,
                    opt_parts(root_canonical),
                );
                &&& final(self).sftp_state() == st
                &&& outcome_is(r, sftp_action_outcome(old(self).channels(), recipient, a))
            }),
    {
        let a = self.sftp.resolved(task, facts, root_canonical);
        self.sftp_action(recipient, a)
    }

    /// The SFTP response to a finished file-system operation, for the
    /// channel whose remote id is `recipient`.
    pub fn sftp_completed(&mut self, recipient: u32, task: FsTask, outcome: FsOutcome) -> (r: SshResult<ServerAction>)
        requires
            old(self).wf(),
            (task.op is IsDir && outcome == FsOutcome::IsDir(true)) ==> old(self).sftp_state().next_handle
                < u32::MAX,
        ensures
            final(self).wf(),
            final(self).channels() == old(self).channels(),
            final(self).next_channel_id() == old(self).next_channel_id(),
            final(self).sftp_root() == old(self).sftp_root(),
            ({
                let (st, a) = completed_step(old(self).sftp_state(), task.op@, task.request_id, outcome);
                &&& final(self).sftp_state() == st
                &&& outcome_is(r, sftp_action_outcome(old(self).channels(), recipient, a))
            }),
    {
        let p = self.sftp.completed(task, outcome);
        self.sftp_reply(recipient, p)
    }
}

} // verus!
