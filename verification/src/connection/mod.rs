//! SSH-2 connection protocol: multiplexed channels (RFC 4254).
use std::collections::hash_map::Entry;
use std::collections::HashMap;
use vstd::prelude::*;

use crate::error::{decimal_text, SshError, SshResult, text_with_number};
use crate::packet::codec::{
    append_bytes, lemma_encode_utf8_len, lemma_read_bool_of, lemma_read_string_of,
    lemma_read_u32_of, lemma_read_utf8_of,
    read_bool_at, read_string_at, read_u32_at, read_utf8_at, ssh_bool, ssh_string, ssh_utf8,
    u32_be, Cursor, SshBuf, SshPacket,
};
use crate::packet::types::{MessageType, DEFAULT_MAX_PACKET_SIZE, DEFAULT_WINDOW_SIZE, MAX_PACKET_SIZE};
use vstd::utf8::encode_utf8;

verus! {

/// A single SSH channel.
#[derive(Debug)]
pub struct Channel {
    pub local_id: u32,
    pub remote_id: u32,
    pub channel_type: String,
    pub local_window: u32,
    pub remote_window: u32,
    pub local_max_packet: u32,
    pub remote_max_packet: u32,
    pub eof_sent: bool,
    pub eof_received: bool,
    pub closed: bool,
    /// Buffer for received data.
    pub recv_buffer: Vec<u8>,
}

/// The mathematical value of a channel.
pub struct ChannelView {
    pub local_id: u32,
    pub remote_id: u32,
    pub channel_type: Seq<char>,
    pub local_window: u32,
    pub remote_window: u32,
    pub local_max_packet: u32,
    pub remote_max_packet: u32,
    pub eof_sent: bool,
    pub eof_received: bool,
    pub closed: bool,
    pub recv_buffer: Seq<u8>,
}

impl View for Channel {
    type V = ChannelView;

    open spec fn view(&self) -> ChannelView {
        ChannelView {
            local_id: self.local_id,
            remote_id: self.remote_id,
            channel_type: self.channel_type@,
            local_window: self.local_window,
            remote_window: self.remote_window,
            local_max_packet: self.local_max_packet,
            remote_max_packet: self.remote_max_packet,
            eof_sent: self.eof_sent,
            eof_received: self.eof_received,
            closed: self.closed,
            recv_buffer: self.recv_buffer@,
        }
    }
}

/// A freshly created local channel: default local window and packet size,
/// nothing known of the remote side yet.
pub open spec fn fresh_channel(local_id: u32, channel_type: Seq<char>) -> ChannelView {
    ChannelView {
        local_id,
        remote_id: 0,
        channel_type,
        local_window: DEFAULT_WINDOW_SIZE,
        remote_window: 0,
        local_max_packet: DEFAULT_MAX_PACKET_SIZE,
        remote_max_packet: 0,
        eof_sent: false,
        eof_received: false,
        closed: false,
        recv_buffer: Seq::empty(),
    }
}

/// `ch` with the remote side's id, window and maximum packet size set.
pub open spec fn with_remote(ch: ChannelView, remote_id: u32, window: u32, max_packet: u32) -> ChannelView {
    ChannelView { remote_id, remote_window: window, remote_max_packet: max_packet, ..ch }
}

impl Channel {
    pub fn new(local_id: u32, channel_type: &str) -> (r: Self)
        ensures
            r@ == fresh_channel(local_id, channel_type@),
    {
        Channel {
            local_id,
            remote_id: 0,
            channel_type: String::from_str(channel_type),
            local_window: DEFAULT_WINDOW_SIZE,
            remote_window: 0,
            local_max_packet: DEFAULT_MAX_PACKET_SIZE,
            remote_max_packet: 0,
            eof_sent: false,
            eof_received: false,
            closed: false,
            recv_buffer: Vec::new(),
        }
    }
}

/// Manages the channels of one connection, keyed by local channel id.
pub struct ChannelManager {
    channels: HashMap<u32, Channel>,
    next_id: u32,
}

/// The channels of a table, each by its view.
spec fn channels_view(m: Map<u32, Channel>) -> Map<u32, ChannelView> {
    Map::new(|id: u32| m.contains_key(id), |id: u32| m[id]@)
}

proof fn lemma_channels_view_insert(m: Map<u32, Channel>, id: u32, c: Channel)
    ensures
        channels_view(m.insert(id, c)) == channels_view(m).insert(id, c@),
{
    assert(channels_view(m.insert(id, c)) =~= channels_view(m).insert(id, c@));
}

proof fn lemma_channels_view_remove(m: Map<u32, Channel>, id: u32)
    ensures
        channels_view(m.remove(id)) == channels_view(m).remove(id),
{
    assert(channels_view(m.remove(id)) =~= channels_view(m).remove(id));
}

/// Whether `k` occurs in `s` at or after position `from`.
spec fn occurs_from(s: Seq<&u32>, from: int, k: u32) -> bool {
    exists|j: int| from <= j < s.len() && *s[j] == k
}

impl View for ChannelManager {
    type V = Map<u32, ChannelView>;

    closed spec fn view(&self) -> Map<u32, ChannelView> {
        channels_view(self.channels@)
    }
}

/// Whether every channel is stored under its own local id.
pub open spec fn keys_match_ids(m: Map<u32, ChannelView>) -> bool {
    forall|id: u32| #[trigger] m.contains_key(id) ==> m[id].local_id == id
}

impl ChannelManager {
    /// Every id in use is below the next id to hand out, so the next id is
    /// fresh; every channel is stored under its own local id; and there are
    /// finitely many channels.
    pub proof fn lemma_ids_below_next(&self)
        requires
            self.wf(),
        ensures
            forall|id: u32| #[trigger] self@.contains_key(id) ==> id < self.next_local_id(),
            !self@.contains_key(self.next_local_id()),
            keys_match_ids(self@),
            self@.dom().finite(),
    {
        assert(self@.dom() =~= self.channels@.dom());
    }

    /// Every id in use is below the next id to hand out, and every channel
    /// is stored under its own local id.
    pub closed spec fn wf(&self) -> bool {
        &&& forall|id: u32| #[trigger] self.channels@.contains_key(id) ==> id < self.next_id
        &&& forall|id: u32| #[trigger] self.channels@.contains_key(id) ==> self.channels@[id].local_id == id
    }

    /// The id the next opened or accepted channel gets.
    pub closed spec fn next_local_id(&self) -> u32 {
        self.next_id
    }

    /// Whether every local channel id has been given out.
    pub fn next_id_exhausted(&self) -> (r: bool)
        ensures
            r == (self.next_local_id() == u32::MAX),
    {
        self.next_id == u32::MAX
    }

    pub fn new() -> (r: Self)
        ensures
            r.wf(),
            r@ == Map::<u32, ChannelView>::empty(),
            r.next_local_id() == 0,
            keys_match_ids(r@),
    {
        let r = ChannelManager { channels: HashMap::new(), next_id: 0 };
        assert(r@ =~= Map::<u32, ChannelView>::empty());
        r
    }

    fn insert_fresh(&mut self, channel: Channel) -> (id: u32)
        requires
            old(self).wf(),
            old(self).next_local_id() < u32::MAX,
            channel.local_id == old(self).next_local_id(),
        ensures
            final(self).wf(),
            id == old(self).next_local_id(),
            final(self).next_local_id() == id + 1,
            final(self)@ == old(self)@.insert(id, channel@),
    {
        let id = self.next_id;
        proof {
            lemma_channels_view_insert(self.channels@, id, channel);
        }
        self.channels.insert(id, channel);
        self.next_id = self.next_id + 1;
        id
    }

    /// Open a new local channel and return its id.
    pub fn open_channel(&mut self, channel_type: &str) -> (id: u32)
        requires
            old(self).wf(),
            old(self).next_local_id() < u32::MAX,
        ensures
            final(self).wf(),
            id == old(self).next_local_id(),
            !old(self)@.contains_key(id),
            final(self).next_local_id() == id + 1,
            final(self)@ == old(self)@.insert(id, fresh_channel(id, channel_type@)),
            keys_match_ids(final(self)@),
    {
        proof {
            old(self).lemma_ids_below_next();
        }
        let id = self.next_id;
        let channel = Channel::new(id, channel_type);
        self.insert_fresh(channel)
    }

    /// Set remote channel parameters after CHANNEL_OPEN_CONFIRMATION.
    pub fn confirm_channel(
        &mut self,
        local_id: u32,
        remote_id: u32,
        remote_window: u32,
        remote_max_packet: u32,
    ) -> (r: SshResult<()>)
        requires
            old(self).wf(),
        ensures
            final(self).wf(),
            final(self).next_local_id() == old(self).next_local_id(),
            keys_match_ids(final(self)@),
            (r is Ok) <==> old(self)@.contains_key(local_id),
            r matches Err(e) ==> e is Channel && final(self)@ == old(self)@,
            !old(self)@.contains_key(local_id) ==> (r matches Err(SshError::Channel(m)) && m@ == "Unknown channel "@
                + decimal_text(local_id as u64)),
            r is Ok ==> final(self)@ == old(self)@.insert(
                local_id,
                with_remote(old(self)@[local_id], remote_id, remote_window, remote_max_packet),
            ),
    {
        match self.get_mut(local_id) {
            Some(ch) => {
                ch.remote_id = remote_id;
                ch.remote_window = remote_window;
                ch.remote_max_packet = remote_max_packet;
                Ok(())
            },
            None => Err(SshError::Channel(text_with_number("Unknown channel ", local_id as u64))),
        }
    }

    /// Register a channel opened by the remote side.
    pub fn accept_channel(
        &mut self,
        remote_id: u32,
        channel_type: &str,
        remote_window: u32,
        remote_max_packet: u32,
    ) -> (id: u32)
        requires
            old(self).wf(),
            old(self).next_local_id() < u32::MAX,
        ensures
            final(self).wf(),
            id == old(self).next_local_id(),
            !old(self)@.contains_key(id),
            final(self).next_local_id() == id + 1,
            final(self)@ == old(self)@.insert(
                id,
                with_remote(fresh_channel(id, channel_type@), remote_id, remote_window, remote_max_packet),
            ),
            keys_match_ids(final(self)@),
    {
        proof {
            old(self).lemma_ids_below_next();
        }
        let id = self.next_id;
        let mut channel = Channel::new(id, channel_type);
        channel.remote_id = remote_id;
        channel.remote_window = remote_window;
        channel.remote_max_packet = remote_max_packet;
        self.insert_fresh(channel)
    }

    /// The channel with local id `local_id`.
    pub fn get(&self, local_id: u32) -> (r: Option<&Channel>)
        requires
            self.wf(),
        ensures
            match r {
                Some(c) => self@.contains_key(local_id) && c@ == self@[local_id],
                None => !self@.contains_key(local_id),
            },
    {
        self.channels.get(&local_id)
    }

    /// The channel with local id `local_id`, for changing.
    pub fn get_mut(&mut self, local_id: u32) -> (r: Option<&mut Channel>)
        requires
            old(self).wf(),
        ensures
            final(self).next_local_id() == old(self).next_local_id(),
            match r {
                Some(c) => {
                    &&& old(self)@.contains_key(local_id)
                    &&& c@ == old(self)@[local_id]
                    &&& c.local_id == local_id
                    &&& final(self)@ == old(self)@.insert(local_id, final(c)@)
                    &&& final(c).local_id == local_id ==> final(self).wf()
                },
                None => !old(self)@.contains_key(local_id) && final(self)@ == old(self)@ && final(self).wf(),
            },
    {
        proof {
            lemma_channels_view_remove(self.channels@, local_id);
        }
        match self.channels.entry(local_id) {
            Entry::Occupied(o) => {
                let r = o.into_mut();
                proof {
                    lemma_channels_view_insert(old(self).channels@, local_id, *final(r));
                }
                Some(r)
            },
            Entry::Vacant(_) => {
                assert(old(self).channels@.remove(local_id) =~= old(self).channels@);
                None
            },
        }
    }

    /// Remove a channel.
    pub fn remove_channel(&mut self, local_id: u32) -> (r: Option<Channel>)
        requires
            old(self).wf(),
        ensures
            final(self).wf(),
            final(self).next_local_id() == old(self).next_local_id(),
            final(self)@ == old(self)@.remove(local_id),
            keys_match_ids(final(self)@),
            match r {
                Some(c) => old(self)@.contains_key(local_id) && c@ == old(self)@[local_id],
                None => !old(self)@.contains_key(local_id),
            },
    {
        proof {
            lemma_channels_view_remove(self.channels@, local_id);
        }
        self.channels.remove(&local_id)
    }

    /// A channel whose remote id is `remote_id`, if any.
    pub fn find_by_remote_id(&self, remote_id: u32) -> (r: Option<&Channel>)
        requires
            self.wf(),
        ensures
            match r {
                Some(c) => c.remote_id == remote_id && self@.contains_key(c.local_id) && self@[c.local_id] == c@,
                None => forall|id: u32| #[trigger]
                    self@.contains_key(id) ==> self@[id].remote_id != remote_id,
            },
    {
        match self.key_by_remote_id(remote_id) {
            Some(id) => self.channels.get(&id),
            None => None,
        }
    }

    /// The local id of a channel whose remote id is `remote_id`, if any.
    fn key_by_remote_id(&self, remote_id: u32) -> (r: Option<u32>)
        ensures
            match r {
                Some(id) => self@.contains_key(id) && self@[id].remote_id == remote_id,
                None => forall|id: u32| #[trigger]
                    self@.contains_key(id) ==> self@[id].remote_id != remote_id,
            },
    {
        for k in it: self.channels.keys()
            invariant
                forall|id: u32| #[trigger]
                    self.channels@.contains_key(id) && !occurs_from(it.seq(), it.index(), id)
                        ==> self.channels@[id].remote_id != remote_id,
        {
            match self.channels.get(k) {
                Some(ch) => {
                    if ch.remote_id == remote_id {
                        return Some(*k);
                    }
                },
                None => {},
            }
        }
        None
    }

    /// A channel whose remote id is `remote_id`, if any, for changing.
    pub fn find_by_remote_id_mut(&mut self, remote_id: u32) -> (r: Option<&mut Channel>)
        requires
            old(self).wf(),
        ensures
            final(self).next_local_id() == old(self).next_local_id(),
            match r {
                Some(c) => {
                    &&& c.remote_id == remote_id
                    &&& old(self)@.contains_key(c.local_id)
                    &&& old(self)@[c.local_id] == c@
                    &&& final(self)@ == old(self)@.insert(c.local_id, final(c)@)
                    &&& final(c).local_id == c.local_id ==> final(self).wf()
                },
                None => final(self)@ == old(self)@ && final(self).wf() && forall|id: u32| #[trigger]
                    old(self)@.contains_key(id) ==> old(self)@[id].remote_id != remote_id,
            },
    {
        match self.key_by_remote_id(remote_id) {
            Some(id) => self.get_mut(id),
            None => None,
        }
    }

    /// Push received data into a channel's buffer, consuming local window.
    pub fn receive_data(&mut self, local_id: u32, data: &[u8]) -> (r: SshResult<()>)
        requires
            old(self).wf(),
        ensures
            final(self).wf(),
            final(self).next_local_id() == old(self).next_local_id(),
            keys_match_ids(final(self)@),
            (r is Ok) <==> (old(self)@.contains_key(local_id) && (data@.len() as u32)
                <= old(self)@[local_id].local_window),
            r matches Err(e) ==> e is Channel && final(self)@ == old(self)@,
            !old(self)@.contains_key(local_id) ==> (r matches Err(SshError::Channel(m)) && m@ == "Unknown channel "@
                + decimal_text(local_id as u64)),
            old(self)@.contains_key(local_id) && (data@.len() as u32) > old(self)@[local_id].local_window ==> (
            r matches Err(SshError::Channel(m)) && m@ == "Window overflow"@),
            r is Ok ==> final(self)@ == old(self)@.insert(
                local_id,
                ChannelView {
                    local_window: (old(self)@[local_id].local_window - (data@.len() as u32)) as u32,
                    recv_buffer: old(self)@[local_id].recv_buffer + data@,
                    ..old(self)@[local_id]
                },
            ),
    {
        let ghost before = self@;
        match self.get_mut(local_id) {
            Some(ch) => {
                let n = #[verifier::truncate] (data.len() as u32);
                if n > ch.local_window {
                    proof {
                        assert(before.insert(local_id, before[local_id]) =~= before);
                    }
                    return Err(SshError::Channel("Window overflow".to_string()));
                }
                ch.local_window = ch.local_window - n;
                append_bytes(&mut ch.recv_buffer, data);
                Ok(())
            },
            None => Err(SshError::Channel(text_with_number("Unknown channel ", local_id as u64))),
        }
    }

    /// Consume `amount` of the remote window (we sent data).
    pub fn consume_remote_window(&mut self, local_id: u32, amount: u32) -> (r: SshResult<()>)
        requires
            old(self).wf(),
        ensures
            final(self).wf(),
            final(self).next_local_id() == old(self).next_local_id(),
            keys_match_ids(final(self)@),
            (r is Ok) <==> (old(self)@.contains_key(local_id) && amount
                <= old(self)@[local_id].remote_window),
            r matches Err(e) ==> e is Channel && final(self)@ == old(self)@,
            !old(self)@.contains_key(local_id) ==> (r matches Err(SshError::Channel(m)) && m@ == "Unknown channel "@
                + decimal_text(local_id as u64)),
            old(self)@.contains_key(local_id) && amount > old(self)@[local_id].remote_window ==> (r matches Err(
                SshError::Channel(m),
            ) && m@ == "Would exceed remote window"@),
            r is Ok ==> final(self)@ == old(self)@.insert(
                local_id,
                ChannelView {
                    remote_window: (old(self)@[local_id].remote_window - amount) as u32,
                    ..old(self)@[local_id]
                },
            ),
    {
        let ghost before = self@;
        match self.get_mut(local_id) {
            Some(ch) => {
                if amount > ch.remote_window {
                    proof {
                        assert(before.insert(local_id, before[local_id]) =~= before);
                    }
                    return Err(SshError::Channel("Would exceed remote window".to_string()));
                }
                ch.remote_window = ch.remote_window - amount;
                Ok(())
            },
            None => Err(SshError::Channel(text_with_number("Unknown channel ", local_id as u64))),
        }
    }

    /// Increase the local window of a channel (saturating at `u32::MAX`).
    pub fn adjust_local_window(&mut self, local_id: u32, amount: u32) -> (r: SshResult<()>)
        requires
            old(self).wf(),
        ensures
            final(self).wf(),
            final(self).next_local_id() == old(self).next_local_id(),
            keys_match_ids(final(self)@),
            (r is Ok) <==> old(self)@.contains_key(local_id),
            r matches Err(e) ==> e is Channel && final(self)@ == old(self)@,
            !old(self)@.contains_key(local_id) ==> (r matches Err(SshError::Channel(m)) && m@ == "Unknown channel "@
                + decimal_text(local_id as u64)),
            r is Ok ==> final(self)@ == old(self)@.insert(
                local_id,
                ChannelView {
                    local_window: if old(self)@[local_id].local_window + amount > u32::MAX {
                        u32::MAX
                    } else {
                        (old(self)@[local_id].local_window + amount) as u32
                    },
                    ..old(self)@[local_id]
                },
            ),
    {
        match self.get_mut(local_id) {
            Some(ch) => {
                ch.local_window = ch.local_window.saturating_add(amount);
                Ok(())
            },
            None => Err(SshError::Channel(text_with_number("Unknown channel ", local_id as u64))),
        }
    }

    /// How many channels are not closed.
    pub fn active_count(&self) -> (r: usize)
        requires
            self.wf(),
        ensures
            r == active_ids(self@).len(),
            active_ids(self@).finite(),
            self@.dom().finite(),
    {
        proof {
            self.lemma_ids_below_next();
        }
        let total = self.channels.len();
        proof {
            assert(self@.dom() =~= self.channels@.dom());
        }
        let ghost mut seen: Set<u32> = Set::empty();
        let mut count: usize = 0;
        for k in it: self.channels.keys()
            invariant
                self@.dom().finite(),
                self@.dom().len() == total,
                it.seq().no_duplicates(),
                seen.finite(),
                count == seen.len(),
                seen.subset_of(self@.dom()),
                forall|id: u32| #[trigger]
                    seen.contains(id) <==> (self.channels@.contains_key(id) && !occurs_from(
                        it.seq(),
                        it.index(),
                        id,
                    ) && !self.channels@[id].closed),
        {
            proof {
                assert(occurs_from(it.seq(), it.index(), *k));
                assert(!seen.contains(*k));
            }
            match self.channels.get(k) {
                Some(ch) => {
                    if !ch.closed {
                        proof {
                            seen = seen.insert(*k);
                            vstd::set_lib::lemma_len_subset(seen, self@.dom());
                        }
                        count = count + 1;
                    }
                },
                None => {},
            }
        }
        proof {
            assert(seen =~= active_ids(self@));
        }
        count
    }
}

impl Default for ChannelManager {
    fn default() -> (r: Self)
        ensures
            r.wf(),
            r@ == Map::<u32, ChannelView>::empty(),
            r.next_local_id() == 0,
    {
        Self::new()
    }
}

/// The ids of the channels that are not closed.
pub open spec fn active_ids(m: Map<u32, ChannelView>) -> Set<u32> {
    Set::new(|id: u32| m.contains_key(id) && !m[id].closed)
}


// ---------------------------------------------------------------------------
// Channel packets: payload formats
// ---------------------------------------------------------------------------

/// SSH_MSG_CHANNEL_OPEN payload (RFC 4254 §5.1).
pub open spec fn channel_open_payload(channel_type: Seq<char>, sender: u32, window: u32, max_packet: u32) -> Seq<u8> {
    ssh_utf8(channel_type) + u32_be(sender) + u32_be(window) + u32_be(max_packet)
}

/// SSH_MSG_CHANNEL_OPEN_CONFIRMATION payload.
pub open spec fn channel_open_confirmation_payload(recipient: u32, sender: u32, window: u32, max_packet: u32) -> Seq<u8> {
    u32_be(recipient) + u32_be(sender) + u32_be(window) + u32_be(max_packet)
}

/// SSH_MSG_CHANNEL_OPEN_FAILURE payload.
pub open spec fn channel_open_failure_payload(recipient: u32, reason: u32, description: Seq<char>) -> Seq<u8> {
    u32_be(recipient) + u32_be(reason) + ssh_utf8(description) + ssh_utf8("en"@)
}

/// SSH_MSG_CHANNEL_DATA payload.
pub open spec fn channel_data_payload(recipient: u32, data: Seq<u8>) -> Seq<u8> {
    u32_be(recipient) + ssh_string(data)
}

/// SSH_MSG_CHANNEL_REQUEST payload for "exec" (RFC 4254 §6.5).
pub open spec fn exec_request_payload(recipient: u32, command: Seq<char>, want_reply: bool) -> Seq<u8> {
    u32_be(recipient) + ssh_utf8("exec"@) + ssh_bool(want_reply) + ssh_utf8(command)
}

/// SSH_MSG_CHANNEL_REQUEST payload for "shell".
pub open spec fn shell_request_payload(recipient: u32, want_reply: bool) -> Seq<u8> {
    u32_be(recipient) + ssh_utf8("shell"@) + ssh_bool(want_reply)
}

/// SSH_MSG_CHANNEL_REQUEST payload for "pty-req" (RFC 4254 §6.2), with empty
/// terminal modes.
pub open spec fn pty_request_payload(
    recipient: u32,
    term: Seq<char>,
    cols: u32,
    rows: u32,
    width_px: u32,
    height_px: u32,
    want_reply: bool,
) -> Seq<u8> {
    u32_be(recipient) + ssh_utf8("pty-req"@) + ssh_bool(want_reply) + ssh_utf8(term) + u32_be(cols)
        + u32_be(rows) + u32_be(width_px) + u32_be(height_px) + ssh_string(seq![0u8])
}

/// Build SSH_MSG_CHANNEL_OPEN.
pub fn build_channel_open(channel_type: &str, sender_channel: u32, initial_window: u32, max_packet: u32) -> (r: SshPacket)
    ensures
        r.msg_type == MessageType::ChannelOpen.code(),
        r.payload@ == channel_open_payload(channel_type@, sender_channel, initial_window, max_packet),
{
    let mut payload = Vec::new();
    SshBuf::write_utf8(&mut payload, channel_type);
    SshBuf::write_u32(&mut payload, sender_channel);
    SshBuf::write_u32(&mut payload, initial_window);
    SshBuf::write_u32(&mut payload, max_packet);
    assert(payload@ =~= channel_open_payload(channel_type@, sender_channel, initial_window, max_packet));
    SshPacket::new(MessageType::ChannelOpen, payload)
}

/// Build SSH_MSG_CHANNEL_OPEN_CONFIRMATION.
pub fn build_channel_open_confirmation(
    recipient_channel: u32,
    sender_channel: u32,
    initial_window: u32,
    max_packet: u32,
) -> (r: SshPacket)
    ensures
        r.msg_type == MessageType::ChannelOpenConfirmation.code(),
        r.payload@ == channel_open_confirmation_payload(recipient_channel, sender_channel, initial_window, max_packet),
{
    let mut payload = Vec::new();
    SshBuf::write_u32(&mut payload, recipient_channel);
    SshBuf::write_u32(&mut payload, sender_channel);
    SshBuf::write_u32(&mut payload, initial_window);
    SshBuf::write_u32(&mut payload, max_packet);
    assert(payload@ =~= channel_open_confirmation_payload(recipient_channel, sender_channel, initial_window, max_packet));
    SshPacket::new(MessageType::ChannelOpenConfirmation, payload)
}

/// Build SSH_MSG_CHANNEL_OPEN_FAILURE.
pub fn build_channel_open_failure(recipient_channel: u32, reason_code: u32, description: &str) -> (r: SshPacket)
    ensures
        r.msg_type == MessageType::ChannelOpenFailure.code(),
        r.payload@ == channel_open_failure_payload(recipient_channel, reason_code, description@),
{
    let mut payload = Vec::new();
    SshBuf::write_u32(&mut payload, recipient_channel);
    SshBuf::write_u32(&mut payload, reason_code);
    SshBuf::write_utf8(&mut payload, description);
    SshBuf::write_utf8(&mut payload, "en");
    assert(payload@ =~= channel_open_failure_payload(recipient_channel, reason_code, description@));
    SshPacket::new(MessageType::ChannelOpenFailure, payload)
}

/// Build SSH_MSG_CHANNEL_DATA.
pub fn build_channel_data(recipient_channel: u32, data: &[u8]) -> (r: SshPacket)
    ensures
        r.msg_type == MessageType::ChannelData.code(),
        r.payload@ == channel_data_payload(recipient_channel, data@),
{
    let mut payload = Vec::new();
    SshBuf::write_u32(&mut payload, recipient_channel);
    SshBuf::write_string(&mut payload, data);
    assert(payload@ =~= channel_data_payload(recipient_channel, data@));
    SshPacket::new(MessageType::ChannelData, payload)
}

/// Build SSH_MSG_CHANNEL_WINDOW_ADJUST.
pub fn build_window_adjust(recipient_channel: u32, bytes_to_add: u32) -> (r: SshPacket)
    ensures
        r.msg_type == MessageType::ChannelWindowAdjust.code(),
        r.payload@ == u32_be(recipient_channel) + u32_be(bytes_to_add),
{
    let mut payload = Vec::new();
    SshBuf::write_u32(&mut payload, recipient_channel);
    SshBuf::write_u32(&mut payload, bytes_to_add);
    SshPacket::new(MessageType::ChannelWindowAdjust, payload)
}

/// Build SSH_MSG_CHANNEL_EOF.
pub fn build_channel_eof(recipient_channel: u32) -> (r: SshPacket)
    ensures
        r.msg_type == MessageType::ChannelEof.code(),
        r.payload@ == u32_be(recipient_channel),
{
    let mut payload = Vec::new();
    SshBuf::write_u32(&mut payload, recipient_channel);
    assert(payload@ =~= u32_be(recipient_channel));
    SshPacket::new(MessageType::ChannelEof, payload)
}

/// Build SSH_MSG_CHANNEL_CLOSE.
pub fn build_channel_close(recipient_channel: u32) -> (r: SshPacket)
    ensures
        r.msg_type == MessageType::ChannelClose.code(),
        r.payload@ == u32_be(recipient_channel),
{
    let mut payload = Vec::new();
    SshBuf::write_u32(&mut payload, recipient_channel);
    assert(payload@ =~= u32_be(recipient_channel));
    SshPacket::new(MessageType::ChannelClose, payload)
}

/// Build SSH_MSG_CHANNEL_REQUEST for "exec".
pub fn build_exec_request(recipient_channel: u32, command: &str, want_reply: bool) -> (r: SshPacket)
    ensures
        r.msg_type == MessageType::ChannelRequest.code(),
        r.payload@ == exec_request_payload(recipient_channel, command@, want_reply),
{
    let mut payload = Vec::new();
    SshBuf::write_u32(&mut payload, recipient_channel);
    SshBuf::write_utf8(&mut payload, "exec");
    SshBuf::write_bool(&mut payload, want_reply);
    SshBuf::write_utf8(&mut payload, command);
    assert(payload@ =~= exec_request_payload(recipient_channel, command@, want_reply));
    SshPacket::new(MessageType::ChannelRequest, payload)
}

/// Build SSH_MSG_CHANNEL_REQUEST for "shell".
pub fn build_shell_request(recipient_channel: u32, want_reply: bool) -> (r: SshPacket)
    ensures
        r.msg_type == MessageType::ChannelRequest.code(),
        r.payload@ == shell_request_payload(recipient_channel, want_reply),
{
    let mut payload = Vec::new();
    SshBuf::write_u32(&mut payload, recipient_channel);
    SshBuf::write_utf8(&mut payload, "shell");
    SshBuf::write_bool(&mut payload, want_reply);
    assert(payload@ =~= shell_request_payload(recipient_channel, want_reply));
    SshPacket::new(MessageType::ChannelRequest, payload)
}

/// Build SSH_MSG_CHANNEL_REQUEST for "pty-req".
pub fn build_pty_request(
    recipient_channel: u32,
    term: &str,
    width_cols: u32,
    height_rows: u32,
    width_px: u32,
    height_px: u32,
    want_reply: bool,
) -> (r: SshPacket)
    ensures
        r.msg_type == MessageType::ChannelRequest.code(),
        r.payload@ == pty_request_payload(
            recipient_channel,
            term@,
            width_cols,
            height_rows,
            width_px,
            height_px,
            want_reply,
        ),
{
    let mut payload = Vec::new();
    SshBuf::write_u32(&mut payload, recipient_channel);
    SshBuf::write_utf8(&mut payload, "pty-req");
    SshBuf::write_bool(&mut payload, want_reply);
    SshBuf::write_utf8(&mut payload, term);
    SshBuf::write_u32(&mut payload, width_cols);
    SshBuf::write_u32(&mut payload, height_rows);
    SshBuf::write_u32(&mut payload, width_px);
    SshBuf::write_u32(&mut payload, height_px);
    let modes: [u8; 1] = [0u8];
    SshBuf::write_string(&mut payload, &modes);
    proof {
        assert(modes@ =~= seq![0u8]);
    }
    assert(payload@ =~= pty_request_payload(
        recipient_channel,
        term@,
        width_cols,
        height_rows,
        width_px,
        height_px,
        want_reply,
    ));
    SshPacket::new(MessageType::ChannelRequest, payload)
}

// ---------------------------------------------------------------------------
// Channel packets: parsing
// ---------------------------------------------------------------------------

/// What a CHANNEL_OPEN payload holds: type, sender channel, window, max packet.
pub open spec fn parse_channel_open(d: Seq<u8>) -> Option<(Seq<char>, u32, u32, u32)> {
    let (t, p1) = read_utf8_at(d, 0);
    let (s, p2) = read_u32_at(d, p1);
    let (w, p3) = read_u32_at(d, p2);
    let (m, p4) = read_u32_at(d, p3);
    match (t, s, w, m) {
        (Some(t), Some(s), Some(w), Some(m)) => Some((t, s, w, m)),
        _ => None,
    }
}

/// What a CHANNEL_DATA payload holds: recipient channel and data.
pub open spec fn parse_channel_data(d: Seq<u8>) -> Option<(u32, Seq<u8>)> {
    let (c, p1) = read_u32_at(d, 0);
    let (data, p2) = read_string_at(d, p1);
    match (c, data) {
        (Some(c), Some(data)) => Some((c, data)),
        _ => None,
    }
}

/// What a CHANNEL_REQUEST payload holds: recipient channel, request type,
/// want-reply flag, and the type-specific bytes after them.
pub open spec fn parse_channel_request(d: Seq<u8>) -> Option<(u32, Seq<char>, bool, Seq<u8>)> {
    let (c, p1) = read_u32_at(d, 0);
    let (t, p2) = read_utf8_at(d, p1);
    let (w, p3) = read_bool_at(d, p2);
    match (c, t, w) {
        (Some(c), Some(t), Some(w)) => Some((c, t, w, d.subrange(p3, d.len() as int))),
        _ => None,
    }
}

/// A parsed CHANNEL_OPEN packet.
pub struct ChannelOpenMsg {
    pub channel_type: String,
    pub sender_channel: u32,
    pub initial_window: u32,
    pub max_packet: u32,
}

impl ChannelOpenMsg {
    pub fn parse(payload: &[u8]) -> (r: SshResult<Self>)
        ensures
            (r is Ok) <==> parse_channel_open(payload@) is Some,
            r matches Err(e) ==> e is InvalidPacket,
            r matches Ok(m) ==> parse_channel_open(payload@) == Some(
                (m.channel_type@, m.sender_channel, m.initial_window, m.max_packet),
            ),
    {
        let mut cursor = Cursor::new(payload);
        let channel_type = SshBuf::read_utf8(&mut cursor)?;
        let sender_channel = SshBuf::read_u32(&mut cursor)?;
        let initial_window = SshBuf::read_u32(&mut cursor)?;
        let max_packet = SshBuf::read_u32(&mut cursor)?;
        Ok(ChannelOpenMsg { channel_type, sender_channel, initial_window, max_packet })
    }
}

/// A parsed CHANNEL_DATA packet.
pub struct ChannelDataMsg {
    pub recipient_channel: u32,
    pub data: Vec<u8>,
}

impl ChannelDataMsg {
    pub fn parse(payload: &[u8]) -> (r: SshResult<Self>)
        ensures
            (r is Ok) <==> parse_channel_data(payload@) is Some,
            r matches Err(e) ==> e is InvalidPacket,
            r matches Ok(m) ==> parse_channel_data(payload@) == Some((m.recipient_channel, m.data@)),
    {
        let mut cursor = Cursor::new(payload);
        let recipient_channel = SshBuf::read_u32(&mut cursor)?;
        let data = SshBuf::read_string(&mut cursor)?;
        Ok(ChannelDataMsg { recipient_channel, data })
    }
}

/// A parsed CHANNEL_REQUEST packet.
pub struct ChannelRequestMsg {
    pub recipient_channel: u32,
    pub request_type: String,
    pub want_reply: bool,
    /// The remaining type-specific data.
    pub data: Vec<u8>,
}

impl ChannelRequestMsg {
    pub fn parse(payload: &[u8]) -> (r: SshResult<Self>)
        ensures
            (r is Ok) <==> parse_channel_request(payload@) is Some,
            r matches Err(e) ==> e is InvalidPacket,
            r matches Ok(m) ==> parse_channel_request(payload@) == Some(
                (m.recipient_channel, m.request_type@, m.want_reply, m.data@),
            ),
    {
        let mut cursor = Cursor::new(payload);
        let recipient_channel = SshBuf::read_u32(&mut cursor)?;
        let request_type = SshBuf::read_utf8(&mut cursor)?;
        let want_reply = SshBuf::read_bool(&mut cursor)?;
        let pos = cursor.position() as usize;
        let data = vstd::slice::slice_to_vec(vstd::slice::slice_subrange(payload, pos, payload.len()));
        Ok(ChannelRequestMsg { recipient_channel, request_type, want_reply, data })
    }
}


// ---------------------------------------------------------------------------
// Round trips
// ---------------------------------------------------------------------------

/// Parsing a built CHANNEL_OPEN payload gives back what was built.
pub proof fn lemma_channel_open_roundtrip(channel_type: Seq<char>, sender: u32, window: u32, max_packet: u32)
    requires
        encode_utf8(channel_type).len() <= MAX_PACKET_SIZE,
    ensures
        parse_channel_open(channel_open_payload(channel_type, sender, window, max_packet)) == Some(
            (channel_type, sender, window, max_packet),
        ),
{
    let a = ssh_utf8(channel_type);
    let b = u32_be(sender);
    let c = u32_be(window);
    let e = u32_be(max_packet);
    let d = channel_open_payload(channel_type, sender, window, max_packet);
    let l = a.len() as int;
    assert(d.subrange(0, l) =~= a);
    lemma_read_utf8_of(d, 0, channel_type);
    assert(d.subrange(l, l + 4) =~= b);
    lemma_read_u32_of(d, l, sender);
    assert(d.subrange(l + 4, l + 8) =~= c);
    lemma_read_u32_of(d, l + 4, window);
    assert(d.subrange(l + 8, l + 12) =~= e);
    lemma_read_u32_of(d, l + 8, max_packet);
}

/// Parsing a built CHANNEL_DATA payload gives back the channel and data.
pub proof fn lemma_channel_data_roundtrip(recipient: u32, data: Seq<u8>)
    requires
        data.len() <= MAX_PACKET_SIZE,
    ensures
        parse_channel_data(channel_data_payload(recipient, data)) == Some((recipient, data)),
{
    let d = channel_data_payload(recipient, data);
    assert(d.subrange(0, 4) =~= u32_be(recipient));
    lemma_read_u32_of(d, 0, recipient);
    assert(d.subrange(4, 8 + data.len() as int) =~= ssh_string(data));
    lemma_read_string_of(d, 4, data);
}

/// Parsing a built "exec" request gives back the channel, the request type
/// "exec", the want-reply flag, and the command as the type-specific data.
pub proof fn lemma_exec_request_roundtrip(recipient: u32, command: Seq<char>, want_reply: bool)
    ensures
        parse_channel_request(exec_request_payload(recipient, command, want_reply)) == Some(
            (recipient, "exec"@, want_reply, ssh_utf8(command)),
        ),
{
    reveal_strlit("exec");
    lemma_encode_utf8_len("exec"@);
    let a = ssh_utf8("exec"@);
    let d = exec_request_payload(recipient, command, want_reply);
    let l = a.len() as int;
    assert(d.subrange(0, 4) =~= u32_be(recipient));
    lemma_read_u32_of(d, 0, recipient);
    assert(d.subrange(4, 4 + l) =~= a);
    lemma_read_utf8_of(d, 4, "exec"@);
    assert(d.subrange(4 + l, 5 + l) =~= ssh_bool(want_reply));
    lemma_read_bool_of(d, 4 + l, want_reply);
    assert(d.subrange(5 + l, d.len() as int) =~= ssh_utf8(command));
}

} // verus!
