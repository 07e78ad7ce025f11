//! SSH File Transfer Protocol (SFTP) subsystem, version 3
//! (draft-ietf-secsh-filexfer-02): packets, attributes and the server's
//! request handler.
use vstd::prelude::*;

use crate::error::{SshError, SshResult};
use crate::packet::codec::{
    append_bytes, bytes_eq, read_string_at, read_utf8_at, split_chars, split_string, text_eq, lemma_read_string_of, lemma_read_u32_of, lemma_read_u64_of, lemma_u32_be_roundtrip, read_u32_at,
    read_u64_at, ssh_string, ssh_utf8, u32_be, u32_of_be, u64_be, Cursor, SshBuf,
};

verus! {

// SFTP packet types
pub const SSH_FXP_INIT: u8 = 1;
pub const SSH_FXP_VERSION: u8 = 2;
pub const SSH_FXP_OPEN: u8 = 3;
pub const SSH_FXP_CLOSE: u8 = 4;
pub const SSH_FXP_READ: u8 = 5;
pub const SSH_FXP_WRITE: u8 = 6;
pub const SSH_FXP_LSTAT: u8 = 7;
pub const SSH_FXP_FSTAT: u8 = 8;
pub const SSH_FXP_SETSTAT: u8 = 9;
pub const SSH_FXP_OPENDIR: u8 = 11;
pub const SSH_FXP_READDIR: u8 = 12;
pub const SSH_FXP_REMOVE: u8 = 13;
pub const SSH_FXP_MKDIR: u8 = 14;
pub const SSH_FXP_RMDIR: u8 = 15;
pub const SSH_FXP_REALPATH: u8 = 16;
pub const SSH_FXP_STAT: u8 = 17;
pub const SSH_FXP_STATUS: u8 = 101;
pub const SSH_FXP_HANDLE: u8 = 102;
pub const SSH_FXP_DATA: u8 = 103;
pub const SSH_FXP_NAME: u8 = 104;
pub const SSH_FXP_ATTRS: u8 = 105;

// Status codes
pub const SSH_FX_OK: u32 = 0;
pub const SSH_FX_EOF: u32 = 1;
pub const SSH_FX_NO_SUCH_FILE: u32 = 2;
pub const SSH_FX_PERMISSION_DENIED: u32 = 3;
pub const SSH_FX_FAILURE: u32 = 4;
pub const SSH_FX_OP_UNSUPPORTED: u32 = 8;

// Open flags
pub const SSH_FXF_READ: u32 = 0x00000001;
pub const SSH_FXF_WRITE: u32 = 0x00000002;
pub const SSH_FXF_APPEND: u32 = 0x00000004;
pub const SSH_FXF_CREAT: u32 = 0x00000008;
pub const SSH_FXF_TRUNC: u32 = 0x00000010;

// Attribute flags
pub const SSH_FILEXFER_ATTR_SIZE: u32 = 0x00000001;
pub const SSH_FILEXFER_ATTR_UIDGID: u32 = 0x00000002;
pub const SSH_FILEXFER_ATTR_PERMISSIONS: u32 = 0x00000004;
pub const SSH_FILEXFER_ATTR_ACMODTIME: u32 = 0x00000008;

/// SFTP protocol version we support.
pub const SFTP_VERSION: u32 = 3;

/// File attributes.
#[derive(Debug, Clone, Copy)]
pub struct FileAttrs {
    pub flags: u32,
    pub size: Option<u64>,
    pub uid: Option<u32>,
    pub gid: Option<u32>,
    pub permissions: Option<u32>,
    pub atime: Option<u32>,
    pub mtime: Option<u32>,
}

impl Default for FileAttrs {
    fn default() -> (r: Self)
        ensures
            r == (FileAttrs {
                flags: 0,
                size: None,
                uid: None,
                gid: None,
                permissions: None,
                atime: None,
                mtime: None,
            }),
    {
        FileAttrs { flags: 0, size: None, uid: None, gid: None, permissions: None, atime: None, mtime: None }
    }
}

/// The wire form of file attributes: the flags, then each field that is
/// present (uid and gid only as a pair, likewise atime and mtime).
pub open spec fn attrs_bytes(a: FileAttrs) -> Seq<u8> {
    u32_be(a.flags) + match a.size {
        Some(s) => u64_be(s),
        None => Seq::empty(),
    } + match (a.uid, a.gid) {
        (Some(u), Some(g)) => u32_be(u) + u32_be(g),
        _ => Seq::empty(),
    } + match a.permissions {
        Some(p) => u32_be(p),
        None => Seq::empty(),
    } + match (a.atime, a.mtime) {
        (Some(at), Some(mt)) => u32_be(at) + u32_be(mt),
        _ => Seq::empty(),
    }
}

/// Attributes whose flags say exactly which fields are present.
pub open spec fn attrs_consistent(a: FileAttrs) -> bool {
    &&& (a.size is Some) == (a.flags & SSH_FILEXFER_ATTR_SIZE != 0)
    &&& (a.uid is Some) == (a.flags & SSH_FILEXFER_ATTR_UIDGID != 0)
    &&& (a.gid is Some) == (a.uid is Some)
    &&& (a.permissions is Some) == (a.flags & SSH_FILEXFER_ATTR_PERMISSIONS != 0)
    &&& (a.atime is Some) == (a.flags & SSH_FILEXFER_ATTR_ACMODTIME != 0)
    &&& (a.mtime is Some) == (a.atime is Some)
}

/// How reading attributes ends.
pub enum AttrsRead {
    Done(FileAttrs),
    /// The size field, flagged present, is cut short.
    BadSize,
    /// The flags or another flagged field is cut short.
    BadField,
}

/// Reading an optional uint32 field at `p`, when `present`.
pub open spec fn read_opt_u32_at(d: Seq<u8>, p: int, present: bool) -> (Option<Option<u32>>, int) {
    if present {
        let (v, q) = read_u32_at(d, p);
        match v {
            Some(v) => (Some(Some(v)), q),
            None => (None, q),
        }
    } else {
        (Some(None), p)
    }
}

/// Reading an optional uint64 field at `p`, when `present`.
pub open spec fn read_opt_u64_at(d: Seq<u8>, p: int, present: bool) -> (Option<Option<u64>>, int) {
    if present {
        let (v, q) = read_u64_at(d, p);
        match v {
            Some(v) => (Some(Some(v)), q),
            None => (None, q),
        }
    } else {
        (Some(None), p)
    }
}

/// Reading an optional pair of uint32 fields at `p`, when `present`.
pub open spec fn read_opt_pair_at(d: Seq<u8>, p: int, present: bool) -> (Option<(Option<u32>, Option<u32>)>, int) {
    if present {
        let (a, q1) = read_u32_at(d, p);
        match a {
            Some(a) => {
                let (b, q2) = read_u32_at(d, q1);
                match b {
                    Some(b) => (Some((Some(a), Some(b))), q2),
                    None => (None, q2),
                }
            },
            None => (None, q1),
        }
    } else {
        (Some((None, None)), p)
    }
}

/// Reading file attributes at `p`, and the position after.
pub open spec fn read_attrs_at(d: Seq<u8>, p: int) -> (AttrsRead, int) {
    let (f, p1) = read_u32_at(d, p);
    match f {
        None => (AttrsRead::BadField, p1),
        Some(flags) => {
            let (size, p2) = read_opt_u64_at(d, p1, flags & SSH_FILEXFER_ATTR_SIZE != 0);
            match size {
                None => (AttrsRead::BadSize, p2),
                Some(size) => {
                    let (ids, p3) = read_opt_pair_at(d, p2, flags & SSH_FILEXFER_ATTR_UIDGID != 0);
                    match ids {
                        None => (AttrsRead::BadField, p3),
                        Some((uid, gid)) => {
                            let (perms, p4) = read_opt_u32_at(
                                d,
                                p3,
                                flags & SSH_FILEXFER_ATTR_PERMISSIONS != 0,
                            );
                            match perms {
                                None => (AttrsRead::BadField, p4),
                                Some(permissions) => {
                                    let (times, p5) = read_opt_pair_at(
                                        d,
                                        p4,
                                        flags & SSH_FILEXFER_ATTR_ACMODTIME != 0,
                                    );
                                    match times {
                                        None => (AttrsRead::BadField, p5),
                                        Some((atime, mtime)) => (
                                            AttrsRead::Done(
                                                FileAttrs {
                                                    flags,
                                                    size,
                                                    uid,
                                                    gid,
                                                    permissions,
                                                    atime,
                                                    mtime,
                                                },
                                            ),
                                            p5,
                                        ),
                                    }
                                },
                            }
                        },
                    }
                },
            }
        },
    }
}

impl FileAttrs {
    pub fn encode(&self) -> (r: Vec<u8>)
        ensures
            r@ == attrs_bytes(*self),
    {
        let mut buf = Vec::new();
        SshBuf::write_u32(&mut buf, self.flags);
        let ghost b0 = buf@;
        if let Some(size) = self.size {
            SshBuf::write_u32(&mut buf, (size >> 32u64) as u32);
            SshBuf::write_u32(&mut buf, (size & 0xffff_ffffu64) as u32);
        }
        let ghost b1 = buf@;
        match (self.uid, self.gid) {
            (Some(uid), Some(gid)) => {
                SshBuf::write_u32(&mut buf, uid);
                SshBuf::write_u32(&mut buf, gid);
            },
            _ => {},
        }
        let ghost b2 = buf@;
        if let Some(perms) = self.permissions {
            SshBuf::write_u32(&mut buf, perms);
        }
        let ghost b3 = buf@;
        match (self.atime, self.mtime) {
            (Some(atime), Some(mtime)) => {
                SshBuf::write_u32(&mut buf, atime);
                SshBuf::write_u32(&mut buf, mtime);
            },
            _ => {},
        }
        assert(buf@ =~= attrs_bytes(*self));
        buf
    }

    pub fn decode(cursor: &mut Cursor) -> (r: SshResult<Self>)
        ensures
            final(cursor).bytes() == old(cursor).bytes(),
            final(cursor).pos() == read_attrs_at(old(cursor).bytes(), old(cursor).pos()).1,
            match read_attrs_at(old(cursor).bytes(), old(cursor).pos()).0 {
                AttrsRead::Done(a) => r == Ok::<FileAttrs, SshError>(a),
                AttrsRead::BadSize => r matches Err(e) && e is Sftp,
                AttrsRead::BadField => r matches Err(e) && e is InvalidPacket,
            },
    {
        let flags = SshBuf::read_u32(cursor)?;
        let mut attrs = FileAttrs {
            flags,
            size: None,
            uid: None,
            gid: None,
            permissions: None,
            atime: None,
            mtime: None,
        };
        if flags & SSH_FILEXFER_ATTR_SIZE != 0 {
            match cursor.read_u64_be() {
                Some(size) => {
                    attrs.size = Some(size);
                },
                None => {
                    return Err(SshError::Sftp("Failed to read file size".to_string()));
                },
            }
        }
        if flags & SSH_FILEXFER_ATTR_UIDGID != 0 {
            attrs.uid = Some(SshBuf::read_u32(cursor)?);
            attrs.gid = Some(SshBuf::read_u32(cursor)?);
        }
        if flags & SSH_FILEXFER_ATTR_PERMISSIONS != 0 {
            attrs.permissions = Some(SshBuf::read_u32(cursor)?);
        }
        if flags & SSH_FILEXFER_ATTR_ACMODTIME != 0 {
            attrs.atime = Some(SshBuf::read_u32(cursor)?);
            attrs.mtime = Some(SshBuf::read_u32(cursor)?);
        }
        Ok(attrs)
    }
}

proof fn lemma_read_opt_pair_of(d: Seq<u8>, p: int, x: Option<u32>, y: Option<u32>)
    requires
        0 <= p,
        (x is Some) == (y is Some),
        p + match (x, y) {
            (Some(u), Some(g)) => 8int,
            _ => 0int,
        } <= d.len(),
        x is Some ==> d.subrange(p, p + 8) == u32_be(x->0) + u32_be(y->0),
    ensures
        read_opt_pair_at(d, p, x is Some) == (Some((x, y)), p + if x is Some { 8int } else { 0int }),
{
    if let (Some(u), Some(g)) = (x, y) {
        let e = u32_be(u) + u32_be(g);
        assert(d.subrange(p, p + 4) =~= e.subrange(0, 4));
        assert(e.subrange(0, 4) =~= u32_be(u));
        lemma_read_u32_of(d, p, u);
        assert(d.subrange(p + 4, p + 8) =~= e.subrange(4, 8));
        assert(e.subrange(4, 8) =~= u32_be(g));
        lemma_read_u32_of(d, p + 4, g);
    }
}

proof fn lemma_read_opt_u32_of(d: Seq<u8>, p: int, x: Option<u32>)
    requires
        0 <= p,
        p + if x is Some { 4int } else { 0int } <= d.len(),
        x is Some ==> d.subrange(p, p + 4) == u32_be(x->0),
    ensures
        read_opt_u32_at(d, p, x is Some) == (Some(x), p + if x is Some { 4int } else { 0int }),
{
    if let Some(v) = x {
        lemma_read_u32_of(d, p, v);
    }
}

proof fn lemma_parts6(s0: Seq<u8>, s1: Seq<u8>, s2: Seq<u8>, s3: Seq<u8>, s4: Seq<u8>, s5: Seq<u8>)
    ensures
        ({
            let d = s0 + s1 + s2 + s3 + s4 + s5;
            let p1 = s0.len() as int;
            let p2 = p1 + s1.len();
            let p3 = p2 + s2.len();
            let p4 = p3 + s3.len();
            let p5 = p4 + s4.len();
            &&& d.len() == p5 + s5.len()
            &&& d.subrange(0, p1) == s0
            &&& d.subrange(p1, p2) == s1
            &&& d.subrange(p2, p3) == s2
            &&& d.subrange(p3, p4) == s3
            &&& d.subrange(p4, p5) == s4
        }),
{
    let d = s0 + s1 + s2 + s3 + s4 + s5;
    let p1 = s0.len() as int;
    let p2 = p1 + s1.len();
    let p3 = p2 + s2.len();
    let p4 = p3 + s3.len();
    let p5 = p4 + s4.len();
    assert(d.subrange(0, p1) =~= s0);
    assert(d.subrange(p1, p2) =~= s1);
    assert(d.subrange(p2, p3) =~= s2);
    assert(d.subrange(p3, p4) =~= s3);
    assert(d.subrange(p4, p5) =~= s4);
}

/// Attributes whose flags match their fields decode back from their encoding,
/// whatever bytes follow it; the read stops right after the encoding.
#[verifier::rlimit(60)]
#[verifier::spinoff_prover]
pub proof fn lemma_attrs_roundtrip(a: FileAttrs, rest: Seq<u8>)
    requires
        attrs_consistent(a),
    ensures
        read_attrs_at(attrs_bytes(a) + rest, 0) == (AttrsRead::Done(a), attrs_bytes(a).len() as int),
{
    let d = attrs_bytes(a) + rest;
    let s0 = u32_be(a.flags);
    let s1: Seq<u8> = match a.size {
        Some(s) => u64_be(s),
        None => Seq::empty(),
    };
    let s2: Seq<u8> = match (a.uid, a.gid) {
        (Some(u), Some(g)) => u32_be(u) + u32_be(g),
        _ => Seq::empty(),
    };
    let s3: Seq<u8> = match a.permissions {
        Some(p) => u32_be(p),
        None => Seq::empty(),
    };
    let s4: Seq<u8> = match (a.atime, a.mtime) {
        (Some(at), Some(mt)) => u32_be(at) + u32_be(mt),
        _ => Seq::empty(),
    };
    assert(attrs_bytes(a) == s0 + s1 + s2 + s3 + s4);
    assert(d == s0 + s1 + s2 + s3 + s4 + rest);
    lemma_parts6(s0, s1, s2, s3, s4, rest);
    let p1 = 4int;
    let p2 = p1 + s1.len();
    let p3 = p2 + s2.len();
    let p4 = p3 + s3.len();
    lemma_read_u32_of(d, 0, a.flags);
    if let Some(s) = a.size {
        lemma_read_u64_of(d, p1, s);
    }
    assert(read_opt_u64_at(d, p1, a.size is Some) == (Some(a.size), p2));
    lemma_read_opt_pair_of(d, p2, a.uid, a.gid);
    lemma_read_opt_u32_of(d, p3, a.permissions);
    lemma_read_opt_pair_of(d, p4, a.atime, a.mtime);
}


// ---------------------------------------------------------------------------
// SFTP packets
// ---------------------------------------------------------------------------

/// An SFTP request or response packet.
#[derive(Debug)]
pub struct SftpPacket {
    pub packet_type: u8,
    pub request_id: u32,
    pub data: Vec<u8>,
}

/// The wire form of an SFTP packet: length, type, request id, data.
pub open spec fn sftp_packet_bytes(packet_type: u8, request_id: u32, data: Seq<u8>) -> Seq<u8> {
    u32_be((5 + data.len()) as u32) + seq![packet_type] + u32_be(request_id) + data
}

impl SftpPacket {
    pub fn new(packet_type: u8, request_id: u32, data: Vec<u8>) -> (r: Self)
        ensures
            r.packet_type == packet_type,
            r.request_id == request_id,
            r.data == data,
    {
        SftpPacket { packet_type, request_id, data }
    }

    /// Encode the packet into bytes (length-prefixed).
    pub fn encode(&self) -> (r: Vec<u8>)
        requires
            self.data@.len() + 9 <= usize::MAX,
        ensures
            r@ == sftp_packet_bytes(self.packet_type, self.request_id, self.data@),
    {
        let inner_len = 1 + 4 + self.data.len();
        let mut buf = Vec::new();
        SshBuf::write_u32(&mut buf, #[verifier::truncate] (inner_len as u32));
        SshBuf::write_u8(&mut buf, self.packet_type);
        SshBuf::write_u32(&mut buf, self.request_id);
        append_bytes(&mut buf, self.data.as_slice());
        assert(buf@ =~= sftp_packet_bytes(self.packet_type, self.request_id, self.data@));
        buf
    }

    /// Decode an SFTP packet from the bytes after its length prefix.
    pub fn decode(data: &[u8]) -> (r: SshResult<Self>)
        ensures
            (r is Ok) <==> data@.len() >= 5,
            r matches Err(e) ==> e is Sftp,
            r matches Ok(p) ==> {
                &&& p.packet_type == data@[0]
                &&& p.request_id == u32_of_be(data@.subrange(1, 5))
                &&& p.data@ == data@.subrange(5, data@.len() as int)
            },
    {
        if data.len() < 5 {
            return Err(SshError::Sftp("SFTP packet too short".to_string()));
        }
        let packet_type = data[0];
        let request_id = ((data[1] as u32) << 24u32) | ((data[2] as u32) << 16u32) | ((data[3] as u32)
            << 8u32) | (data[4] as u32);
        let payload = vstd::slice::slice_to_vec(vstd::slice::slice_subrange(data, 5, data.len()));
        proof {
            let b = data@.subrange(1, 5);
            assert(b[0] == data@[1] && b[1] == data@[2] && b[2] == data@[3] && b[3] == data@[4]);
        }
        Ok(SftpPacket { packet_type, request_id, data: payload })
    }
}

/// Decoding an encoded SFTP packet (after its length prefix) gives it back.
pub proof fn lemma_sftp_packet_roundtrip(packet_type: u8, request_id: u32, data: Seq<u8>)
    ensures
        ({
            let b = sftp_packet_bytes(packet_type, request_id, data).subrange(
                4,
                sftp_packet_bytes(packet_type, request_id, data).len() as int,
            );
            &&& b.len() >= 5
            &&& b[0] == packet_type
            &&& u32_of_be(b.subrange(1, 5)) == request_id
            &&& b.subrange(5, b.len() as int) == data
        }),
{
    let e = sftp_packet_bytes(packet_type, request_id, data);
    let b = e.subrange(4, e.len() as int);
    assert(b =~= seq![packet_type] + u32_be(request_id) + data);
    assert(b.subrange(1, 5) =~= u32_be(request_id));
    lemma_u32_be_roundtrip(request_id);
    assert(b.subrange(5, b.len() as int) =~= data);
}

/// SSH_FXP_INIT announcing our version.
pub fn build_sftp_init() -> (r: Vec<u8>)
    ensures
        r@ == u32_be(5) + seq![SSH_FXP_INIT] + u32_be(SFTP_VERSION),
{
    let mut buf = Vec::new();
    let inner_len: u32 = 1 + 4;
    SshBuf::write_u32(&mut buf, inner_len);
    SshBuf::write_u8(&mut buf, SSH_FXP_INIT);
    SshBuf::write_u32(&mut buf, SFTP_VERSION);
    buf
}

/// SSH_FXP_VERSION response with our version.
pub fn build_sftp_version() -> (r: Vec<u8>)
    ensures
        r@ == u32_be(5) + seq![SSH_FXP_VERSION] + u32_be(SFTP_VERSION),
{
    let mut buf = Vec::new();
    let inner_len: u32 = 1 + 4;
    SshBuf::write_u32(&mut buf, inner_len);
    SshBuf::write_u8(&mut buf, SSH_FXP_VERSION);
    SshBuf::write_u32(&mut buf, SFTP_VERSION);
    buf
}

/// The data of an SSH_FXP_STATUS response.
pub open spec fn status_data(status_code: u32, message: Seq<char>) -> Seq<u8> {
    u32_be(status_code) + ssh_utf8(message) + ssh_utf8("en"@)
}

/// Build an SSH_FXP_STATUS response.
pub fn build_sftp_status(request_id: u32, status_code: u32, message: &str) -> (r: SftpPacket)
    ensures
        r.packet_type == SSH_FXP_STATUS,
        r.request_id == request_id,
        r.data@ == status_data(status_code, message@),
{
    let mut data = Vec::new();
    SshBuf::write_u32(&mut data, status_code);
    SshBuf::write_utf8(&mut data, message);
    SshBuf::write_utf8(&mut data, "en");
    assert(data@ =~= status_data(status_code, message@));
    SftpPacket::new(SSH_FXP_STATUS, request_id, data)
}

/// Build an SSH_FXP_HANDLE response.
pub fn build_sftp_handle(request_id: u32, handle: &[u8]) -> (r: SftpPacket)
    ensures
        r.packet_type == SSH_FXP_HANDLE,
        r.request_id == request_id,
        r.data@ == ssh_string(handle@),
{
    let mut data = Vec::new();
    SshBuf::write_string(&mut data, handle);
    assert(data@ =~= ssh_string(handle@));
    SftpPacket::new(SSH_FXP_HANDLE, request_id, data)
}

/// Build an SSH_FXP_DATA response.
pub fn build_sftp_data(request_id: u32, file_data: &[u8]) -> (r: SftpPacket)
    ensures
        r.packet_type == SSH_FXP_DATA,
        r.request_id == request_id,
        r.data@ == ssh_string(file_data@),
{
    let mut data = Vec::new();
    SshBuf::write_string(&mut data, file_data);
    assert(data@ =~= ssh_string(file_data@));
    SftpPacket::new(SSH_FXP_DATA, request_id, data)
}

/// The wire form of the entries of an SSH_FXP_NAME response: each name twice
/// (short and long form) and its attributes.
pub open spec fn name_entries_bytes(entries: Seq<(String, FileAttrs)>) -> Seq<u8>
    decreases entries.len(),
{
    if entries.len() == 0 {
        Seq::empty()
    } else {
        let last = entries.last();
        name_entries_bytes(entries.drop_last()) + ssh_utf8(last.0@) + ssh_utf8(last.0@)
            + attrs_bytes(last.1)
    }
}

/// Build an SSH_FXP_NAME response (for readdir / realpath).
pub fn build_sftp_name(request_id: u32, entries: &[(String, FileAttrs)]) -> (r: SftpPacket)
    ensures
        r.packet_type == SSH_FXP_NAME,
        r.request_id == request_id,
        r.data@ == u32_be(entries@.len() as u32) + name_entries_bytes(entries@),
{
    let mut data = Vec::new();
    SshBuf::write_u32(&mut data, #[verifier::truncate] (entries.len() as u32));
    let mut i: usize = 0;
    while i < entries.len()
        invariant
            i <= entries@.len(),
            data@ == u32_be(entries@.len() as u32) + name_entries_bytes(entries@.subrange(0, i as int)),
        decreases entries@.len() - i,
    {
        let (name, attrs) = &entries[i];
        SshBuf::write_utf8(&mut data, name.as_str());
        SshBuf::write_utf8(&mut data, name.as_str());
        let enc = attrs.encode();
        append_bytes(&mut data, enc.as_slice());
        proof {
            let sub = entries@.subrange(0, i + 1);
            assert(sub.drop_last() =~= entries@.subrange(0, i as int));
            assert(sub.last() == entries@[i as int]);
        }
        i = i + 1;
        assert(data@ =~= u32_be(entries@.len() as u32) + name_entries_bytes(entries@.subrange(0, i as int)));
    }
    assert(entries@.subrange(0, entries@.len() as int) =~= entries@);
    SftpPacket::new(SSH_FXP_NAME, request_id, data)
}

/// Build an SSH_FXP_ATTRS response.
pub fn build_sftp_attrs(request_id: u32, attrs: &FileAttrs) -> (r: SftpPacket)
    ensures
        r.packet_type == SSH_FXP_ATTRS,
        r.request_id == request_id,
        r.data@ == attrs_bytes(*attrs),
{
    SftpPacket::new(SSH_FXP_ATTRS, request_id, attrs.encode())
}


// ---------------------------------------------------------------------------
// Paths
// ---------------------------------------------------------------------------

/// One component of a path, as `std::path::Component` names them on Unix.
#[derive(Debug, Clone)]
pub enum PathComponent {
    RootDir,
    CurDir,
    ParentDir,
    Normal(String),
}

/// The mathematical value of a path component.
pub enum PathPart {
    RootDir,
    CurDir,
    ParentDir,
    Normal(Seq<char>),
}

impl PathComponent {
    /// A copy of this component.
    pub fn duplicate(&self) -> (r: Self)
        ensures
            r@ == self@,
    {
        match self {
            PathComponent::RootDir => PathComponent::RootDir,
            PathComponent::CurDir => PathComponent::CurDir,
            PathComponent::ParentDir => PathComponent::ParentDir,
            PathComponent::Normal(s) => PathComponent::Normal(s.clone()),
        }
    }
}

impl View for PathComponent {
    type V = PathPart;

    open spec fn view(&self) -> PathPart {
        match self {
            PathComponent::RootDir => PathPart::RootDir,
            PathComponent::CurDir => PathPart::CurDir,
            PathComponent::ParentDir => PathPart::ParentDir,
            PathComponent::Normal(s) => PathPart::Normal(s@),
        }
    }
}

/// The parts of a path held as components.
pub open spec fn parts_of(p: Seq<PathComponent>) -> Seq<PathPart> {
    p.map_values(|c: PathComponent| c@)
}

/// The component a piece between slashes stands for: empty pieces and "."
/// are dropped, except "." at the start of a relative path.
pub open spec fn piece_part(piece: Seq<char>, leading: bool) -> Option<PathPart> {
    if piece.len() == 0 {
        None
    } else if piece == seq!['.'] {
        if leading {
            Some(PathPart::CurDir)
        } else {
            None
        }
    } else if piece == seq!['.', '.'] {
        Some(PathPart::ParentDir)
    } else {
        Some(PathPart::Normal(piece))
    }
}

pub open spec fn pieces_parts(pieces: Seq<Seq<char>>, relative: bool) -> Seq<PathPart>
    decreases pieces.len(),
{
    if pieces.len() == 0 {
        Seq::empty()
    } else {
        let rest = pieces_parts(pieces.drop_last(), relative);
        match piece_part(pieces.last(), relative && pieces.len() == 1) {
            Some(c) => rest.push(c),
            None => rest,
        }
    }
}

/// The components of a path string (`Path::components` on Unix): a leading
/// slash is the root, repeated slashes and "." are normalized away except a
/// leading ".", and ".." is the parent.
pub open spec fn path_parts(s: Seq<char>) -> Seq<PathPart> {
    if s.len() > 0 && s[0] == '/' {
        seq![PathPart::RootDir] + pieces_parts(split_chars(s, '/'), false)
    } else {
        pieces_parts(split_chars(s, '/'), true)
    }
}

/// `rel` joined onto `base` (`Path::join`): an absolute path replaces the
/// base, and a leading "." of the joined path is normalized away.
pub open spec fn join_parts(base: Seq<PathPart>, rel: Seq<PathPart>) -> Seq<PathPart> {
    if rel.len() > 0 && rel[0] == PathPart::RootDir {
        rel
    } else if base.len() == 0 {
        rel
    } else if rel.len() > 0 && rel[0] == PathPart::CurDir {
        base + rel.drop_first()
    } else {
        base + rel
    }
}

/// Lexical normalization: "." dropped, ".." removes the component before it;
/// at the root, or when there is none before it, it is dropped, so `/..` is
/// `/` and an absolute path stays absolute.
pub open spec fn normalize_parts(p: Seq<PathPart>) -> Seq<PathPart>
    decreases p.len(),
{
    if p.len() == 0 {
        Seq::empty()
    } else {
        let r = normalize_parts(p.drop_last());
        match p.last() {
            PathPart::ParentDir => if r.len() > 0 && r.last() != PathPart::RootDir {
                r.drop_last()
            } else {
                r
            },
            PathPart::CurDir => r,
            c => r.push(c),
        }
    }
}

/// Whether `base` is a leading run of whole components of `p` (`Path::starts_with`).
pub open spec fn parts_start_with(p: Seq<PathPart>, base: Seq<PathPart>) -> bool {
    base.len() <= p.len() && p.subrange(0, base.len() as int) == base
}

pub open spec fn part_text(c: PathPart) -> Seq<char> {
    match c {
        PathPart::RootDir => seq!['/'],
        PathPart::CurDir => seq!['.'],
        PathPart::ParentDir => seq!['.', '.'],
        PathPart::Normal(s) => s,
    }
}

/// The text of a path built from components: a slash between components,
/// none after the root.
pub open spec fn parts_text(p: Seq<PathPart>) -> Seq<char>
    decreases p.len(),
{
    if p.len() == 0 {
        Seq::empty()
    } else {
        let r = parts_text(p.drop_last());
        if r.len() == 0 || r.last() == '/' {
            r + part_text(p.last())
        } else {
            r + seq!['/'] + part_text(p.last())
        }
    }
}

fn is_dot_piece(s: &str) -> (r: (bool, bool))
    ensures
        r.0 == (s@ == seq!['.']),
        r.1 == (s@ == seq!['.', '.']),
{
    let n = s.unicode_len();
    if n == 1 {
        let c = s.get_char(0);
        proof {
            if c == '.' {
                assert(s@ =~= seq!['.']);
            }
        }
        (c == '.', false)
    } else if n == 2 {
        let c0 = s.get_char(0);
        let c1 = s.get_char(1);
        proof {
            if c0 == '.' && c1 == '.' {
                assert(s@ =~= seq!['.', '.']);
            }
        }
        (false, c0 == '.' && c1 == '.')
    } else {
        (false, false)
    }
}

/// The components of a path string.
pub fn path_components(s: &str) -> (r: Vec<PathComponent>)
    ensures
        parts_of(r@) == path_parts(s@),
{
    let n = s.unicode_len();
    let has_root = n > 0 && s.get_char(0) == '/';
    let pieces = split_string(s, '/');
    let ghost pv = pieces@.map_values(|x: String| x@);
    let mut out: Vec<PathComponent> = Vec::new();
    if has_root {
        out.push(PathComponent::RootDir);
    }
    let ghost prefix: Seq<PathPart> = if has_root { seq![PathPart::RootDir] } else { Seq::empty() };
    proof {
        assert(parts_of(out@) =~= prefix);
        assert(pv.subrange(0, 0) =~= Seq::<Seq<char>>::empty());
        assert(prefix + pieces_parts(pv.subrange(0, 0), !has_root) =~= prefix);
    }
    let mut i: usize = 0;
    while i < pieces.len()
        invariant
            pv == pieces@.map_values(|x: String| x@),
            pv == split_chars(s@, '/'),
            i <= pieces@.len(),
            parts_of(out@) == prefix + pieces_parts(pv.subrange(0, i as int), !has_root),
        decreases pieces@.len() - i,
    {
        let piece = pieces[i].as_str();
        let (dot, dotdot) = is_dot_piece(piece);
        let ghost before = out@;
        let len = piece.unicode_len();
        let ghost pp = piece_part(piece@, !has_root && i == 0);
        if len == 0 {
        } else if dot {
            if !has_root && i == 0 {
                out.push(PathComponent::CurDir);
            }
        } else if dotdot {
            out.push(PathComponent::ParentDir);
        } else {
            out.push(PathComponent::Normal(String::from_str(piece)));
        }
        proof {
            match pp {
                Some(c) => {
                    assert(parts_of(out@) =~= parts_of(before).push(c));
                },
                None => {
                    assert(out@ == before);
                },
            }
            let sub = pv.subrange(0, i + 1);
            assert(sub.drop_last() =~= pv.subrange(0, i as int));
            assert(sub.last() == pv[i as int]);
            assert(pv[i as int] == piece@);
            assert(parts_of(out@) =~= prefix + pieces_parts(sub, !has_root));
        }
        i = i + 1;
    }
    proof {
        assert(pv.subrange(0, pieces@.len() as int) =~= pv);
    }
    out
}

/// Lexical normalization of a path.
pub fn normalize_path(path: &Vec<PathComponent>) -> (r: Vec<PathComponent>)
    ensures
        parts_of(r@) == normalize_parts(parts_of(path@)),
{
    let mut out: Vec<PathComponent> = Vec::new();
    let mut i: usize = 0;
    proof {
        assert(parts_of(path@).subrange(0, 0) =~= Seq::<PathPart>::empty());
        assert(parts_of(out@) =~= Seq::<PathPart>::empty());
    }
    while i < path.len()
        invariant
            i <= path@.len(),
            parts_of(out@) == normalize_parts(parts_of(path@).subrange(0, i as int)),
        decreases path@.len() - i,
    {
        match &path[i] {
            PathComponent::ParentDir => {
                let n = out.len();
                if n > 0 {
                    let at_root = match &out[n - 1] {
                        PathComponent::RootDir => true,
                        _ => false,
                    };
                    if !at_root {
                        out.pop();
                    }
                }
            },
            PathComponent::CurDir => {},
            c => {
                out.push(c.duplicate());
            },
        }
        proof {
            let sub = parts_of(path@).subrange(0, i + 1);
            let prev = normalize_parts(parts_of(path@).subrange(0, i as int));
            match path@[i as int]@ {
                PathPart::ParentDir => {
                    if prev.len() > 0 && prev.last() != PathPart::RootDir {
                        assert(parts_of(out@) =~= prev.drop_last());
                    } else {
                        assert(parts_of(out@) =~= prev);
                    }
                },
                PathPart::CurDir => {},
                c => {
                    assert(parts_of(out@) =~= prev.push(c));
                },
            }
            assert(sub.drop_last() =~= parts_of(path@).subrange(0, i as int));
            assert(sub.last() == path@[i as int]@);
            assert(parts_of(out@) =~= normalize_parts(sub));
        }
        i = i + 1;
    }
    proof {
        assert(parts_of(path@).subrange(0, path@.len() as int) =~= parts_of(path@));
    }
    out
}


fn same_component(a: &PathComponent, b: &PathComponent) -> (r: bool)
    ensures
        r == (a@ == b@),
{
    match (a, b) {
        (PathComponent::RootDir, PathComponent::RootDir) => true,
        (PathComponent::CurDir, PathComponent::CurDir) => true,
        (PathComponent::ParentDir, PathComponent::ParentDir) => true,
        (PathComponent::Normal(x), PathComponent::Normal(y)) => text_eq(x.as_str(), y.as_str()),
        _ => false,
    }
}

/// `rel` joined onto `base`.
pub fn join_paths(base: &Vec<PathComponent>, rel: Vec<PathComponent>) -> (r: Vec<PathComponent>)
    ensures
        parts_of(r@) == join_parts(parts_of(base@), parts_of(rel@)),
{
    let rel_abs = rel.len() > 0 && match &rel[0] {
        PathComponent::RootDir => true,
        _ => false,
    };
    if rel_abs || base.len() == 0 {
        return rel;
    }
    let skip_first = rel.len() > 0 && match &rel[0] {
        PathComponent::CurDir => true,
        _ => false,
    };
    let mut out: Vec<PathComponent> = Vec::new();
    let mut i: usize = 0;
    while i < base.len()
        invariant
            i <= base@.len(),
            parts_of(out@) == parts_of(base@).subrange(0, i as int),
        decreases base@.len() - i,
    {
        let ghost o0 = out@;
        out.push(base[i].duplicate());
        assert(parts_of(out@) =~= parts_of(o0).push(base@[i as int]@));
        i = i + 1;
        assert(parts_of(out@) =~= parts_of(base@).subrange(0, i as int));
    }
    let start: usize = if skip_first { 1 } else { 0 };
    let mut j: usize = start;
    let ghost tail = parts_of(rel@).subrange(start as int, rel@.len() as int);
    assert(parts_of(base@).subrange(0, base@.len() as int) =~= parts_of(base@));
    while j < rel.len()
        invariant
            start <= j <= rel@.len(),
            parts_of(out@) == parts_of(base@) + parts_of(rel@).subrange(start as int, j as int),
        decreases rel@.len() - j,
    {
        let ghost o0 = out@;
        out.push(rel[j].duplicate());
        assert(parts_of(out@) =~= parts_of(o0).push(rel@[j as int]@));
        j = j + 1;
        assert(parts_of(out@) =~= parts_of(base@) + parts_of(rel@).subrange(start as int, j as int));
    }
    proof {
        if skip_first {
            assert(parts_of(rel@).subrange(1, rel@.len() as int) =~= parts_of(rel@).drop_first());
        } else {
            assert(parts_of(rel@).subrange(0, rel@.len() as int) =~= parts_of(rel@));
        }
    }
    out
}

/// Whether `base` is a leading run of whole components of `path`.
pub fn path_starts_with(path: &Vec<PathComponent>, base: &Vec<PathComponent>) -> (r: bool)
    ensures
        r == parts_start_with(parts_of(path@), parts_of(base@)),
{
    if base.len() > path.len() {
        return false;
    }
    let mut i: usize = 0;
    while i < base.len()
        invariant
            base@.len() <= path@.len(),
            i <= base@.len(),
            forall|k: int| 0 <= k < i ==> path@[k]@ == base@[k]@,
        decreases base@.len() - i,
    {
        if !same_component(&path[i], &base[i]) {
            proof {
                assert(parts_of(path@).subrange(0, base@.len() as int)[i as int] != parts_of(base@)[i as int]);
            }
            return false;
        }
        i = i + 1;
    }
    assert(parts_of(path@).subrange(0, base@.len() as int) =~= parts_of(base@));
    true
}

/// The text of a path built from components.
pub fn path_text(path: &Vec<PathComponent>) -> (r: String)
    ensures
        r@ == parts_text(parts_of(path@)),
{
    let mut out = String::new();
    let mut ends_slash = false;
    let mut empty = true;
    let mut i: usize = 0;
    proof {
        assert(parts_of(path@).subrange(0, 0) =~= Seq::<PathPart>::empty());
    }
    while i < path.len()
        invariant
            i <= path@.len(),
            out@ == parts_text(parts_of(path@).subrange(0, i as int)),
            empty == (out@.len() == 0),
            !empty ==> ends_slash == (out@.last() == '/'),
        decreases path@.len() - i,
    {
        let ghost prev = out@;
        if !empty && !ends_slash {
            out.append("/");
            proof {
                reveal_strlit("/");
            }
        }
        let ghost mid = out@;
        match &path[i] {
            PathComponent::RootDir => {
                out.append("/");
                proof {
                    reveal_strlit("/");
                }
            },
            PathComponent::CurDir => {
                out.append(".");
                proof {
                    reveal_strlit(".");
                }
            },
            PathComponent::ParentDir => {
                out.append("..");
                proof {
                    reveal_strlit("..");
                }
            },
            PathComponent::Normal(name) => {
                out.append(name.as_str());
            },
        }
        let len_now = out.as_str().unicode_len();
        ends_slash = len_now > 0 && out.as_str().get_char(len_now - 1) == '/';
        empty = len_now == 0;
        proof {
            let sub = parts_of(path@).subrange(0, i + 1);
            assert(sub.drop_last() =~= parts_of(path@).subrange(0, i as int));
            assert(sub.last() == path@[i as int]@);
            let t = part_text(path@[i as int]@);
            if prev.len() == 0 || prev.last() == '/' {
                assert(out@ =~= prev + t);
            } else {
                assert(out@ =~= prev + seq!['/'] + t);
            }
        }
        i = i + 1;
    }
    proof {
        assert(parts_of(path@).subrange(0, path@.len() as int) =~= parts_of(path@));
    }
    out
}

// ---------------------------------------------------------------------------
// Handle tables
// ---------------------------------------------------------------------------

struct TableSlot<V> {
    key: Vec<u8>,
    value: V,
}

/// A table from handle bytes to values; no handle occurs twice. Handles are
/// byte strings, so the table is a list of distinct keys with a map view,
/// since Verus proves nothing of a `HashMap` keyed by `Vec<u8>`.
pub struct HandleTable<V> {
    slots: Vec<TableSlot<V>>,
}

spec fn table_has<V>(s: Seq<TableSlot<V>>, k: Seq<u8>) -> bool {
    exists|i: int| 0 <= i < s.len() && s[i].key@ == k
}

spec fn table_index<V>(s: Seq<TableSlot<V>>, k: Seq<u8>) -> int {
    choose|i: int| 0 <= i < s.len() && s[i].key@ == k
}

spec fn table_unique<V>(s: Seq<TableSlot<V>>) -> bool {
    forall|i: int, j: int| 0 <= i < s.len() && 0 <= j < s.len() && i != j ==> s[i].key@ != s[j].key@
}

spec fn table_view<V>(s: Seq<TableSlot<V>>) -> Map<Seq<u8>, V> {
    Map::new(|k: Seq<u8>| table_has(s, k), |k: Seq<u8>| s[table_index(s, k)].value)
}

proof fn lemma_table_lookup<V>(s: Seq<TableSlot<V>>, i: int)
    requires
        table_unique(s),
        0 <= i < s.len(),
    ensures
        table_view(s).contains_key(s[i].key@),
        table_view(s)[s[i].key@] == s[i].value,
{
    assert(table_has(s, s[i].key@));
    assert(table_index(s, s[i].key@) == i);
}

impl<V> View for HandleTable<V> {
    type V = Map<Seq<u8>, V>;

    closed spec fn view(&self) -> Map<Seq<u8>, V> {
        table_view(self.slots@)
    }
}

impl<V> HandleTable<V> {
    pub closed spec fn wf(&self) -> bool {
        table_unique(self.slots@)
    }

    pub fn new() -> (r: Self)
        ensures
            r.wf(),
            r@ == Map::<Seq<u8>, V>::empty(),
    {
        let r = HandleTable { slots: Vec::new() };
        assert(r@ =~= Map::<Seq<u8>, V>::empty());
        r
    }

    fn index_of(&self, key: &[u8]) -> (r: Option<usize>)
        requires
            self.wf(),
        ensures
            match r {
                Some(i) => i < self.slots@.len() && self.slots@[i as int].key@ == key@,
                None => !self@.contains_key(key@),
            },
    {
        let mut i: usize = 0;
        while i < self.slots.len()
            invariant
                i <= self.slots@.len(),
                forall|j: int| 0 <= j < i ==> self.slots@[j].key@ != key@,
            decreases self.slots@.len() - i,
        {
            if bytes_eq(self.slots[i].key.as_slice(), key) {
                return Some(i);
            }
            i = i + 1;
        }
        None
    }

    pub fn get(&self, key: &[u8]) -> (r: Option<&V>)
        requires
            self.wf(),
        ensures
            match r {
                Some(v) => self@.contains_key(key@) && *v == self@[key@],
                None => !self@.contains_key(key@),
            },
    {
        match self.index_of(key) {
            Some(i) => {
                proof {
                    lemma_table_lookup(self.slots@, i as int);
                }
                Some(&self.slots[i].value)
            },
            None => None,
        }
    }

    pub fn get_mut(&mut self, key: &[u8]) -> (r: Option<&mut V>)
        requires
            old(self).wf(),
        ensures
            final(self).wf(),
            match r {
                Some(v) => {
                    &&& old(self)@.contains_key(key@)
                    &&& *v == old(self)@[key@]
                    &&& final(self)@ == old(self)@.insert(key@, *final(v))
                },
                None => !old(self)@.contains_key(key@) && final(self)@ == old(self)@,
            },
    {
        match self.index_of(key) {
            Some(i) => {
                proof {
                    lemma_table_lookup(self.slots@, i as int);
                }
                let ghost s0 = self.slots@;
                let r = &mut self.slots[i].value;
                proof {
                    let v1 = *final(r);
                    let s1 = s0.update(i as int, TableSlot { key: s0[i as int].key, value: v1 });
                    assert forall|a: int, b: int|
                        0 <= a < s1.len() && 0 <= b < s1.len() && a != b implies s1[a].key@
                        != s1[b].key@ by {
                        assert(s1[a].key == s0[a].key);
                        assert(s1[b].key == s0[b].key);
                    }
                    let m = table_view(s0).insert(key@, v1);
                    assert forall|k: Seq<u8>| #[trigger] table_view(s1).contains_key(k) == m.contains_key(k) by {
                        if table_has(s1, k) {
                            let j = choose|j: int| 0 <= j < s1.len() && s1[j].key@ == k;
                            assert(s0[j].key@ == k);
                        }
                        if table_has(s0, k) {
                            let j = choose|j: int| 0 <= j < s0.len() && s0[j].key@ == k;
                            assert(s1[j].key@ == k);
                        }
                    }
                    assert forall|k: Seq<u8>| table_view(s1).contains_key(k) implies #[trigger] table_view(s1)[k]
                        == m[k] by {
                        let j = choose|j: int| 0 <= j < s1.len() && s1[j].key@ == k;
                        lemma_table_lookup(s1, j);
                        if j != i {
                            lemma_table_lookup(s0, j);
                        }
                    }
                    assert(table_view(s1) =~= m);
                }
                Some(r)
            },
            None => None,
        }
    }

    /// Add a value under a handle that is not in use.
    pub fn insert_new(&mut self, key: Vec<u8>, value: V)
        requires
            old(self).wf(),
            !old(self)@.contains_key(key@),
        ensures
            final(self).wf(),
            final(self)@ == old(self)@.insert(key@, value),
    {
        let ghost s0 = self.slots@;
        let ghost k = key@;
        let slot = TableSlot { key, value };
        self.slots.push(slot);
        proof {
            let s1 = self.slots@;
            assert(!table_has(s0, k));
            assert forall|a: int, b: int|
                0 <= a < s1.len() && 0 <= b < s1.len() && a != b implies s1[a].key@ != s1[b].key@ by {
                if a == s0.len() {
                    assert(!(s0[b].key@ == k));
                } else if b == s0.len() {
                    assert(!(s0[a].key@ == k));
                }
            }
            let m = table_view(s0).insert(k, value);
            assert forall|kk: Seq<u8>| #[trigger] table_view(s1).contains_key(kk) == m.contains_key(kk) by {
                if table_has(s1, kk) && kk != k {
                    let j = choose|j: int| 0 <= j < s1.len() && s1[j].key@ == kk;
                    assert(s0[j].key@ == kk);
                }
                if table_has(s0, kk) {
                    let j = choose|j: int| 0 <= j < s0.len() && s0[j].key@ == kk;
                    assert(s1[j].key@ == kk);
                }
                if kk == k {
                    assert(s1[s0.len() as int].key@ == kk);
                }
            }
            assert forall|kk: Seq<u8>| table_view(s1).contains_key(kk) implies #[trigger] table_view(s1)[kk]
                == m[kk] by {
                let j = choose|j: int| 0 <= j < s1.len() && s1[j].key@ == kk;
                lemma_table_lookup(s1, j);
                if j < s0.len() {
                    lemma_table_lookup(s0, j);
                }
            }
            assert(table_view(s1) =~= m);
        }
    }

    /// Remove the value under a handle, if any.
    pub fn remove(&mut self, key: &[u8]) -> (r: Option<V>)
        requires
            old(self).wf(),
        ensures
            final(self).wf(),
            final(self)@ == old(self)@.remove(key@),
            match r {
                Some(v) => old(self)@.contains_key(key@) && v == old(self)@[key@],
                None => !old(self)@.contains_key(key@),
            },
    {
        match self.index_of(key) {
            Some(i) => {
                let ghost s0 = self.slots@;
                proof {
                    lemma_table_lookup(s0, i as int);
                }
                let slot = self.slots.remove(i);
                proof {
                    let s1 = self.slots@;
                    assert(s1 == s0.remove(i as int));
                    assert forall|a: int, b: int|
                        0 <= a < s1.len() && 0 <= b < s1.len() && a != b implies s1[a].key@
                        != s1[b].key@ by {
                        let a0 = if a < i { a } else { a + 1 };
                        let b0 = if b < i { b } else { b + 1 };
                        assert(s1[a] == s0[a0]);
                        assert(s1[b] == s0[b0]);
                    }
                    let m = table_view(s0).remove(key@);
                    assert forall|kk: Seq<u8>| #[trigger] table_view(s1).contains_key(kk) == m.contains_key(kk) by {
                        if table_has(s1, kk) {
                            let j = choose|j: int| 0 <= j < s1.len() && s1[j].key@ == kk;
                            let j0 = if j < i { j } else { j + 1 };
                            assert(s1[j] == s0[j0]);
                        }
                        if table_has(s0, kk) && kk != key@ {
                            let j = choose|j: int| 0 <= j < s0.len() && s0[j].key@ == kk;
                            let j1 = if j < i { j } else { j - 1 };
                            assert(s1[j1] == s0[j]);
                        }
                    }
                    assert forall|kk: Seq<u8>| table_view(s1).contains_key(kk) implies #[trigger] table_view(s1)[kk]
                        == m[kk] by {
                        let j = choose|j: int| 0 <= j < s1.len() && s1[j].key@ == kk;
                        let j0 = if j < i { j } else { j + 1 };
                        assert(s1[j] == s0[j0]);
                        lemma_table_lookup(s1, j);
                        lemma_table_lookup(s0, j0);
                    }
                    assert(table_view(s1) =~= m);
                }
                Some(slot.value)
            },
            None => {
                assert(old(self)@.remove(key@) =~= old(self)@);
                None
            },
        }
    }
}


// ---------------------------------------------------------------------------
// The server's request handler
// ---------------------------------------------------------------------------

/// The file attributes reported for a file: size, permissions, owner and group.
pub fn attrs_from_metadata(size: u64, mode: u32, uid: u32, gid: u32) -> (r: FileAttrs)
    ensures
        r == (FileAttrs {
            flags: SSH_FILEXFER_ATTR_SIZE | SSH_FILEXFER_ATTR_PERMISSIONS | SSH_FILEXFER_ATTR_UIDGID,
            size: Some(size),
            uid: Some(uid),
            gid: Some(gid),
            permissions: Some(mode),
            atime: None,
            mtime: None,
        }),
{
    let flags = SSH_FILEXFER_ATTR_SIZE | SSH_FILEXFER_ATTR_PERMISSIONS;
    let mut attrs = FileAttrs {
        flags,
        size: Some(size),
        uid: None,
        gid: None,
        permissions: Some(mode),
        atime: None,
        mtime: None,
    };
    attrs.uid = Some(uid);
    attrs.gid = Some(gid);
    attrs.flags = attrs.flags | SSH_FILEXFER_ATTR_UIDGID;
    attrs
}

/// A request that names a path, waiting for the path to be resolved.
#[derive(Debug, Clone, Copy, PartialEq, Eq, Structural)]
pub enum PathOp {
    Realpath,
    Stat,
    OpenDir,
    /// Open with these open flags.
    Open(u32),
    Mkdir,
    Rmdir,
    Remove,
}

/// A path request waiting for the canonical forms of `joined` and of the root.
pub struct PathTask {
    pub op: PathOp,
    pub request_id: u32,
    /// The requested path joined onto the handler's root.
    pub joined: Vec<PathComponent>,
}

/// A file-system operation the handler needs done.
pub enum FsOp {
    /// Read the metadata of a path.
    Stat { path: Vec<PathComponent> },
    /// Find out whether a path is a directory.
    IsDir { path: Vec<PathComponent> },
    /// List a directory.
    ReadDir { path: Vec<PathComponent> },
    /// Open a file, seek to `offset`, and read once into a buffer of `max_len` bytes.
    ReadFile { path: Vec<PathComponent>, offset: u64, max_len: u32 },
    /// Open a file for writing (creating or truncating it as flagged), seek to
    /// `offset`, and write all of `data`.
    WriteFile { path: Vec<PathComponent>, create: bool, truncate: bool, offset: u64, data: Vec<u8> },
    CreateDir { path: Vec<PathComponent> },
    RemoveDir { path: Vec<PathComponent> },
    RemoveFile { path: Vec<PathComponent> },
}

/// A file-system operation for a request.
pub struct FsTask {
    pub op: FsOp,
    pub request_id: u32,
}

/// What the handler asks for next.
pub enum SftpAction {
    /// Send this response.
    Reply(SftpPacket),
    /// Canonicalize the task's path and the root, then call `resolved`.
    Resolve(PathTask),
    /// Perform the operation, then call `completed` with its outcome.
    Perform(FsTask),
}

/// How reading a file went.
pub enum ReadOutcome {
    CannotOpen,
    SeekFailed,
    ReadFailed,
    /// The bytes read (none at end of file).
    Data(Vec<u8>),
}

/// How writing a file went.
pub enum WriteOutcome {
    CannotOpen,
    SeekFailed,
    WriteFailed,
    Written,
}

/// The outcome of a file-system operation.
pub enum FsOutcome {
    Attrs(Option<FileAttrs>),
    IsDir(bool),
    Entries(Option<Vec<(String, FileAttrs)>>),
    Read(ReadOutcome),
    Write(WriteOutcome),
    Done(bool),
}

/// The mathematical value of a file-system operation.
pub enum FsOpView {
    Stat(Seq<PathPart>),
    IsDir(Seq<PathPart>),
    ReadDir(Seq<PathPart>),
    ReadFile(Seq<PathPart>, u64, u32),
    WriteFile(Seq<PathPart>, bool, bool, u64, Seq<u8>),
    CreateDir(Seq<PathPart>),
    RemoveDir(Seq<PathPart>),
    RemoveFile(Seq<PathPart>),
}

impl View for FsOp {
    type V = FsOpView;

    open spec fn view(&self) -> FsOpView {
        match self {
            FsOp::Stat { path } => FsOpView::Stat(parts_of(path@)),
            FsOp::IsDir { path } => FsOpView::IsDir(parts_of(path@)),
            FsOp::ReadDir { path } => FsOpView::ReadDir(parts_of(path@)),
            FsOp::ReadFile { path, offset, max_len } => FsOpView::ReadFile(parts_of(path@), *offset, *max_len),
            FsOp::WriteFile { path, create, truncate, offset, data } => FsOpView::WriteFile(
                parts_of(path@),
                *create,
                *truncate,
                *offset,
                data@,
            ),
            FsOp::CreateDir { path } => FsOpView::CreateDir(parts_of(path@)),
            FsOp::RemoveDir { path } => FsOpView::RemoveDir(parts_of(path@)),
            FsOp::RemoveFile { path } => FsOpView::RemoveFile(parts_of(path@)),
        }
    }
}

/// The mathematical value of an action.
pub enum ActionView {
    Reply(u8, u32, Seq<u8>),
    Resolve(PathOp, u32, Seq<PathPart>),
    Perform(FsOpView, u32),
}

impl View for SftpAction {
    type V = ActionView;

    open spec fn view(&self) -> ActionView {
        match self {
            SftpAction::Reply(p) => ActionView::Reply(p.packet_type, p.request_id, p.data@),
            SftpAction::Resolve(t) => ActionView::Resolve(t.op, t.request_id, parts_of(t.joined@)),
            SftpAction::Perform(t) => ActionView::Perform(t.op@, t.request_id),
        }
    }
}

/// A status reply.
pub open spec fn status_reply(id: u32, code: u32, message: Seq<char>) -> ActionView {
    ActionView::Reply(SSH_FXP_STATUS, id, status_data(code, message))
}

/// The handle bytes given out for counter value `n`.
pub open spec fn handle_bytes(n: u32) -> Seq<u8> {
    u32_be(n)
}

/// The state of the handler: open files (path, open flags) and open
/// directories (path, already listed) by handle, and the next handle number.
pub struct HandlerState {
    pub files: Map<Seq<u8>, (Seq<PathPart>, u32)>,
    pub dirs: Map<Seq<u8>, (Seq<PathPart>, bool)>,
    pub next_handle: u32,
}

/// The requested path with one leading slash removed.
pub open spec fn strip_leading_slash(p: Seq<char>) -> Seq<char> {
    if p.len() > 0 && p[0] == '/' {
        p.drop_first()
    } else {
        p
    }
}

/// The path operation of a packet type that names only a path.
pub open spec fn path_op_of(t: u8) -> Option<PathOp> {
    if t == SSH_FXP_REALPATH {
        Some(PathOp::Realpath)
    } else if t == SSH_FXP_STAT || t == SSH_FXP_LSTAT {
        Some(PathOp::Stat)
    } else if t == SSH_FXP_OPENDIR {
        Some(PathOp::OpenDir)
    } else if t == SSH_FXP_MKDIR {
        Some(PathOp::Mkdir)
    } else if t == SSH_FXP_RMDIR {
        Some(PathOp::Rmdir)
    } else if t == SSH_FXP_REMOVE {
        Some(PathOp::Remove)
    } else {
        None
    }
}

/// How the handler answers a request: the new state and what it asks for.
pub open spec fn request_step(
    st: HandlerState,
    root: Seq<PathPart>,
    t: u8,
    id: u32,
    d: Seq<u8>,
) -> (HandlerState, ActionView) {
    if path_op_of(t) is Some {
        match read_utf8_at(d, 0).0 {
            None => (st, status_reply(id, SSH_FX_FAILURE, "Bad path"@)),
            Some(p) => (
                st,
                ActionView::Resolve(
                    path_op_of(t)->0,
                    id,
                    join_parts(root, path_parts(strip_leading_slash(p))),
                ),
            ),
        }
    } else if t == SSH_FXP_OPEN {
        let (p, p1) = read_utf8_at(d, 0);
        match p {
            None => (st, status_reply(id, SSH_FX_FAILURE, "Bad path"@)),
            Some(p) => match read_u32_at(d, p1).0 {
                None => (st, status_reply(id, SSH_FX_FAILURE, "Bad flags"@)),
                Some(flags) => (
                    st,
                    ActionView::Resolve(
                        PathOp::Open(flags),
                        id,
                        join_parts(root, path_parts(strip_leading_slash(p))),
                    ),
                ),
            },
        }
    } else if t == SSH_FXP_READDIR {
        match read_string_at(d, 0).0 {
            None => (st, status_reply(id, SSH_FX_FAILURE, "Bad handle"@)),
            Some(h) => if !st.dirs.contains_key(h) {
                (st, status_reply(id, SSH_FX_FAILURE, "Invalid handle"@))
            } else if st.dirs[h].1 {
                (st, status_reply(id, SSH_FX_EOF, "End of directory"@))
            } else {
                (
                    HandlerState { dirs: st.dirs.insert(h, (st.dirs[h].0, true)), ..st },
                    ActionView::Perform(FsOpView::ReadDir(st.dirs[h].0), id),
                )
            },
        }
    } else if t == SSH_FXP_CLOSE {
        match read_string_at(d, 0).0 {
            None => (st, status_reply(id, SSH_FX_FAILURE, "Bad handle"@)),
            Some(h) => (
                HandlerState { files: st.files.remove(h), dirs: st.dirs.remove(h), ..st },
                status_reply(id, SSH_FX_OK, "OK"@),
            ),
        }
    } else if t == SSH_FXP_READ {
        let (h, p1) = read_string_at(d, 0);
        let (off, p2) = read_u64_at(d, p1);
        let (len, p3) = read_u32_at(d, p2);
        match (h, off, len) {
            (None, _, _) => (st, status_reply(id, SSH_FX_FAILURE, "Bad handle"@)),
            (Some(_), None, _) => (st, status_reply(id, SSH_FX_FAILURE, "Bad offset"@)),
            (Some(_), Some(_), None) => (st, status_reply(id, SSH_FX_FAILURE, "Bad length"@)),
            (Some(h), Some(off), Some(len)) => if !st.files.contains_key(h) {
                (st, status_reply(id, SSH_FX_FAILURE, "Invalid handle"@))
            } else {
                (
                    st,
                    ActionView::Perform(
                        FsOpView::ReadFile(
                            st.files[h].0,
                            off,
                            if len < 32768 {
                                len
                            } else {
                                32768
                            },
                        ),
                        id,
                    ),
                )
            },
        }
    } else if t == SSH_FXP_WRITE {
        let (h, p1) = read_string_at(d, 0);
        let (off, p2) = read_u64_at(d, p1);
        let (data, p3) = read_string_at(d, p2);
        match (h, off, data) {
            (None, _, _) => (st, status_reply(id, SSH_FX_FAILURE, "Bad handle"@)),
            (Some(_), None, _) => (st, status_reply(id, SSH_FX_FAILURE, "Bad offset"@)),
            (Some(_), Some(_), None) => (st, status_reply(id, SSH_FX_FAILURE, "Bad data"@)),
            (Some(h), Some(off), Some(data)) => if !st.files.contains_key(h) {
                (st, status_reply(id, SSH_FX_FAILURE, "Invalid handle"@))
            } else if st.files[h].1 & SSH_FXF_WRITE == 0 {
                (st, status_reply(id, SSH_FX_PERMISSION_DENIED, "Not opened for writing"@))
            } else {
                let flags = st.files[h].1;
                (
                    st,
                    ActionView::Perform(
                        FsOpView::WriteFile(
                            st.files[h].0,
                            flags & SSH_FXF_CREAT != 0,
                            flags & SSH_FXF_TRUNC != 0,
                            off,
                            data,
                        ),
                        id,
                    ),
                )
            },
        }
    } else {
        (st, status_reply(id, SSH_FX_OP_UNSUPPORTED, "Unsupported operation"@))
    }
}

/// How the handler continues a path request once the file system's facts
/// about the path and the canonical form of the root (`None` where
/// canonicalizing failed) are known: the resolved path must lie under the root.
pub open spec fn resolved_step(
    st: HandlerState,
    root: Seq<PathPart>,
    op: PathOp,
    id: u32,
    joined: Seq<PathPart>,
    facts: FactsView,
    root_canonical: Option<Seq<PathPart>>,
) -> (HandlerState, ActionView) {
    let path = resolved_path(joined, facts);
    let base = match root_canonical {
        Some(c) => c,
        None => normalize_parts(root),
    };
    let inside = parts_start_with(path, base);
    match op {
        PathOp::Realpath => if inside {
            (
                st,
                ActionView::Reply(
                    SSH_FXP_NAME,
                    id,
                    u32_be(1) + ssh_utf8(parts_text(path)) + ssh_utf8(parts_text(path))
                        + attrs_bytes(FileAttrs {
                        flags: 0,
                        size: None,
                        uid: None,
                        gid: None,
                        permissions: None,
                        atime: None,
                        mtime: None,
                    }),
                ),
            )
        } else {
            (st, status_reply(id, SSH_FX_NO_SUCH_FILE, "Not found"@))
        },
        PathOp::Stat => if inside {
            (st, ActionView::Perform(FsOpView::Stat(path), id))
        } else {
            (st, status_reply(id, SSH_FX_NO_SUCH_FILE, "Not found"@))
        },
        PathOp::OpenDir => if inside {
            (st, ActionView::Perform(FsOpView::IsDir(path), id))
        } else {
            (st, status_reply(id, SSH_FX_NO_SUCH_FILE, "Not found"@))
        },
        PathOp::Open(flags) => if inside {
            (
                HandlerState {
                    files: st.files.insert(handle_bytes(st.next_handle), (path, flags)),
                    next_handle: (st.next_handle + 1) as u32,
                    ..st
                },
                ActionView::Reply(SSH_FXP_HANDLE, id, ssh_string(handle_bytes(st.next_handle))),
            )
        } else {
            (st, status_reply(id, SSH_FX_NO_SUCH_FILE, "Path error"@))
        },
        PathOp::Mkdir => if inside {
            (st, ActionView::Perform(FsOpView::CreateDir(path), id))
        } else {
            (st, status_reply(id, SSH_FX_PERMISSION_DENIED, "Bad path"@))
        },
        PathOp::Rmdir => if inside {
            (st, ActionView::Perform(FsOpView::RemoveDir(path), id))
        } else {
            (st, status_reply(id, SSH_FX_PERMISSION_DENIED, "Bad path"@))
        },
        PathOp::Remove => if inside {
            (st, ActionView::Perform(FsOpView::RemoveFile(path), id))
        } else {
            (st, status_reply(id, SSH_FX_PERMISSION_DENIED, "Bad path"@))
        },
    }
}

/// The reply to a finished file-system operation, and the new state.
pub open spec fn completed_step(st: HandlerState, op: FsOpView, id: u32, outcome: FsOutcome) -> (HandlerState, ActionView) {
    match (op, outcome) {
        (FsOpView::Stat(_), FsOutcome::Attrs(a)) => match a {
            Some(a) => (st, ActionView::Reply(SSH_FXP_ATTRS, id, attrs_bytes(a))),
            None => (st, status_reply(id, SSH_FX_NO_SUCH_FILE, "Not found"@)),
        },
        (FsOpView::IsDir(path), FsOutcome::IsDir(is_dir)) => if is_dir {
            (
                HandlerState {
                    dirs: st.dirs.insert(handle_bytes(st.next_handle), (path, false)),
                    next_handle: (st.next_handle + 1) as u32,
                    ..st
                },
                ActionView::Reply(SSH_FXP_HANDLE, id, ssh_string(handle_bytes(st.next_handle))),
            )
        } else {
            (st, status_reply(id, SSH_FX_NO_SUCH_FILE, "Not a directory"@))
        },
        (FsOpView::ReadDir(_), FsOutcome::Entries(es)) => match es {
            Some(es) => (
                st,
                ActionView::Reply(SSH_FXP_NAME, id, u32_be(es@.len() as u32) + name_entries_bytes(es@)),
            ),
            None => (st, status_reply(id, SSH_FX_PERMISSION_DENIED, "Cannot read dir"@)),
        },
        (FsOpView::ReadFile(..), FsOutcome::Read(r)) => match r {
            ReadOutcome::CannotOpen => (st, status_reply(id, SSH_FX_NO_SUCH_FILE, "Cannot open"@)),
            ReadOutcome::SeekFailed => (st, status_reply(id, SSH_FX_FAILURE, "Seek failed"@)),
            ReadOutcome::ReadFailed => (st, status_reply(id, SSH_FX_FAILURE, "Read error"@)),
            ReadOutcome::Data(v) => if v@.len() == 0 {
                (st, status_reply(id, SSH_FX_EOF, "EOF"@))
            } else {
                (st, ActionView::Reply(SSH_FXP_DATA, id, ssh_string(v@)))
            },
        },
        (FsOpView::WriteFile(..), FsOutcome::Write(w)) => match w {
            WriteOutcome::CannotOpen => (st, status_reply(id, SSH_FX_PERMISSION_DENIED, "Cannot open"@)),
            WriteOutcome::SeekFailed => (st, status_reply(id, SSH_FX_FAILURE, "Seek failed"@)),
            WriteOutcome::WriteFailed => (st, status_reply(id, SSH_FX_FAILURE, "Write error"@)),
            WriteOutcome::Written => (st, status_reply(id, SSH_FX_OK, "OK"@)),
        },
        (FsOpView::CreateDir(_), FsOutcome::Done(ok)) => if ok {
            (st, status_reply(id, SSH_FX_OK, "OK"@))
        } else {
            (st, status_reply(id, SSH_FX_FAILURE, "mkdir failed"@))
        },
        (FsOpView::RemoveDir(_), FsOutcome::Done(ok)) => if ok {
            (st, status_reply(id, SSH_FX_OK, "OK"@))
        } else {
            (st, status_reply(id, SSH_FX_FAILURE, "rmdir failed"@))
        },
        (FsOpView::RemoveFile(_), FsOutcome::Done(ok)) => if ok {
            (st, status_reply(id, SSH_FX_OK, "OK"@))
        } else {
            (st, status_reply(id, SSH_FX_FAILURE, "remove failed"@))
        },
        _ => (st, status_reply(id, SSH_FX_FAILURE, Seq::empty())),
    }
}


/// Server-side SFTP handler: the open handles and the root that requests are
/// confined to. File-system work is handed out as `FsOp`s.
pub struct SftpHandler {
    next_handle: u32,
    open_files: HandleTable<(Vec<PathComponent>, u32)>,
    open_dirs: HandleTable<(Vec<PathComponent>, bool)>,
    root: Vec<PathComponent>,
}

spec fn handle_in_use(k: Seq<u8>, next: u32) -> bool {
    exists|n: u32| n < next && k == #[trigger] handle_bytes(n)
}

proof fn lemma_fresh_handle(next: u32, k: Seq<u8>)
    requires
        handle_in_use(k, next),
    ensures
        k != handle_bytes(next),
{
    let n = choose|n: u32| n < next && k == #[trigger] handle_bytes(n);
    lemma_u32_be_roundtrip(n);
    lemma_u32_be_roundtrip(next);
}

impl SftpHandler {
    /// The handler's state.
    pub closed spec fn state(&self) -> HandlerState {
        HandlerState {
            files: self.open_files@.map_values(|v: (Vec<PathComponent>, u32)| (parts_of(v.0@), v.1)),
            dirs: self.open_dirs@.map_values(|v: (Vec<PathComponent>, bool)| (parts_of(v.0@), v.1)),
            next_handle: self.next_handle,
        }
    }

    /// The root directory that requests are confined to.
    pub closed spec fn root_parts(&self) -> Seq<PathPart> {
        parts_of(self.root@)
    }

    /// Every handle in use was given out before the next one.
    pub closed spec fn wf(&self) -> bool {
        &&& self.open_files.wf()
        &&& self.open_dirs.wf()
        &&& forall|k: Seq<u8>| #[trigger] self.open_files@.contains_key(k) ==> handle_in_use(k, self.next_handle)
        &&& forall|k: Seq<u8>| #[trigger] self.open_dirs@.contains_key(k) ==> handle_in_use(k, self.next_handle)
    }

    pub fn new(root: &str) -> (r: Self)
        ensures
            r.wf(),
            r.root_parts() == path_parts(root@),
            r.state() == (HandlerState { files: Map::empty(), dirs: Map::empty(), next_handle: 0 }),
    {
        let r = SftpHandler {
            next_handle: 0,
            open_files: HandleTable::new(),
            open_dirs: HandleTable::new(),
            root: path_components(root),
        };
        assert(r.state().files =~= Map::<Seq<u8>, (Seq<PathPart>, u32)>::empty());
        assert(r.state().dirs =~= Map::<Seq<u8>, (Seq<PathPart>, bool)>::empty());
        r
    }

    /// The requested path joined onto the root (one leading slash of the
    /// request is dropped first).
    pub fn joined_path(&self, requested: &str) -> (r: Vec<PathComponent>)
        ensures
            parts_of(r@) == join_parts(self.root_parts(), path_parts(strip_leading_slash(requested@))),
    {
        let n = requested.unicode_len();
        let rel = if n > 0 && requested.get_char(0) == '/' {
            let rest = requested.substring_char(1, n);
            proof {
                assert(rest@ =~= requested@.drop_first());
            }
            path_components(rest)
        } else {
            path_components(requested)
        };
        join_paths(&self.root, rel)
    }

    /// Resolve a requested path against the root, given what the file
    /// system says about the joined path (see `PathFacts`) and the canonical
    /// form of the root (`None` where canonicalizing failed; the lexically
    /// normalized root stands in). Paths outside the root are refused.
    pub fn resolve_path(
        &self,
        requested: &str,
        facts: PathFacts,
        root_canonical: Option<Vec<PathComponent>>,
    ) -> (r: SshResult<Vec<PathComponent>>)
        ensures
            ({
                let path = resolved_path(
                    join_parts(self.root_parts(), path_parts(strip_leading_slash(requested@))),
                    facts@,
                );
                let base = match root_canonical {
                    Some(c) => parts_of(c@),
                    None => normalize_parts(self.root_parts()),
                };
                &&& (r is Ok) <==> parts_start_with(path, base)
                &&& r matches Ok(p) ==> parts_of(p@) == path
                &&& r matches Err(e) ==> e is Sftp
            }),
    {
        let joined = self.joined_path(requested);
        self.check_inside(&joined, facts, root_canonical)
    }

    fn check_inside(
        &self,
        joined: &Vec<PathComponent>,
        facts: PathFacts,
        root_canonical: Option<Vec<PathComponent>>,
    ) -> (r: SshResult<Vec<PathComponent>>)
        ensures
            ({
                let path = resolved_path(parts_of(joined@), facts@);
                let base = match root_canonical {
                    Some(c) => parts_of(c@),
                    None => normalize_parts(self.root_parts()),
                };
                &&& (r is Ok) <==> parts_start_with(path, base)
                &&& r matches Ok(p) ==> parts_of(p@) == path
                &&& r matches Err(e) ==> e is Sftp
            }),
    {
        let path = match facts {
            PathFacts::Exists(c) => c,
            PathFacts::Ancestor(c, k) => with_rest(c, &normalize_path(joined), k),
            PathFacts::Unknown => normalize_path(joined),
        };
        let base = match root_canonical {
            Some(c) => c,
            None => normalize_path(&self.root),
        };
        if !path_starts_with(&path, &base) {
            return Err(SshError::Sftp("Access denied: path outside root".to_string()));
        }
        Ok(path)
    }

    fn alloc_handle(&mut self) -> (h: Vec<u8>)
        requires
            old(self).next_handle < u32::MAX,
        ensures
            h@ == handle_bytes(old(self).next_handle),
            final(self).next_handle == old(self).next_handle + 1,
            final(self).open_files == old(self).open_files,
            final(self).open_dirs == old(self).open_dirs,
            final(self).root == old(self).root,
    {
        let mut h = Vec::new();
        SshBuf::write_u32(&mut h, self.next_handle);
        assert(h@ =~= u32_be(self.next_handle));
        self.next_handle = self.next_handle + 1;
        h
    }

    proof fn lemma_after_alloc(&self, old_next: u32)
        requires
            self.open_files.wf(),
            self.open_dirs.wf(),
            old_next < self.next_handle,
            forall|k: Seq<u8>| #[trigger] self.open_files@.contains_key(k) ==> handle_in_use(k, old_next)
                || k == handle_bytes(old_next),
            forall|k: Seq<u8>| #[trigger] self.open_dirs@.contains_key(k) ==> handle_in_use(k, old_next)
                || k == handle_bytes(old_next),
        ensures
            self.wf(),
    {
        assert forall|k: Seq<u8>| #[trigger] self.open_files@.contains_key(k) implies handle_in_use(
            k,
            self.next_handle,
        ) by {
            if k == handle_bytes(old_next) {
                assert(old_next < self.next_handle && k == handle_bytes(old_next));
            } else {
                let n = choose|n: u32| n < old_next && k == #[trigger] handle_bytes(n);
                assert(n < self.next_handle && k == handle_bytes(n));
            }
        }
        assert forall|k: Seq<u8>| #[trigger] self.open_dirs@.contains_key(k) implies handle_in_use(
            k,
            self.next_handle,
        ) by {
            if k == handle_bytes(old_next) {
                assert(old_next < self.next_handle && k == handle_bytes(old_next));
            } else {
                let n = choose|n: u32| n < old_next && k == #[trigger] handle_bytes(n);
                assert(n < self.next_handle && k == handle_bytes(n));
            }
        }
    }
}


/// A copy of a path.
pub fn clone_path(path: &Vec<PathComponent>) -> (r: Vec<PathComponent>)
    ensures
        parts_of(r@) == parts_of(path@),
{
    let mut out: Vec<PathComponent> = Vec::new();
    let mut i: usize = 0;
    while i < path.len()
        invariant
            i <= path@.len(),
            parts_of(out@) == parts_of(path@).subrange(0, i as int),
        decreases path@.len() - i,
    {
        let ghost o0 = out@;
        out.push(path[i].duplicate());
        assert(parts_of(out@) =~= parts_of(o0).push(path@[i as int]@));
        i = i + 1;
        assert(parts_of(out@) =~= parts_of(path@).subrange(0, i as int));
    }
    assert(parts_of(path@).subrange(0, path@.len() as int) =~= parts_of(path@));
    out
}

/// The path operation of a packet type that names only a path.
fn path_op_for(t: u8) -> (r: Option<PathOp>)
    ensures
        r == path_op_of(t),
{
    if t == SSH_FXP_REALPATH {
        Some(PathOp::Realpath)
    } else if t == SSH_FXP_STAT || t == SSH_FXP_LSTAT {
        Some(PathOp::Stat)
    } else if t == SSH_FXP_OPENDIR {
        Some(PathOp::OpenDir)
    } else if t == SSH_FXP_MKDIR {
        Some(PathOp::Mkdir)
    } else if t == SSH_FXP_RMDIR {
        Some(PathOp::Rmdir)
    } else if t == SSH_FXP_REMOVE {
        Some(PathOp::Remove)
    } else {
        None
    }
}

impl SftpHandler {
    /// Whether every handle number has been given out.
    pub fn handles_exhausted(&self) -> (r: bool)
        ensures
            r == (self.state().next_handle == u32::MAX),
    {
        self.next_handle == u32::MAX
    }

    /// Answer a request: a reply, or a path to resolve, or a file-system
    /// operation to perform.
    pub fn handle_request(&mut self, pkt: &SftpPacket) -> (r: SftpAction)
        requires
            old(self).wf(),
        ensures
            final(self).wf(),
            final(self).root_parts() == old(self).root_parts(),
            (final(self).state(), r@) == request_step(
                old(self).state(),
                old(self).root_parts(),
                pkt.packet_type,
                pkt.request_id,
                pkt.data@,
            ),
    {
        let t = pkt.packet_type;
        match path_op_for(t) {
            Some(op) => {
                return self.path_request(op, pkt);
            },
            None => {},
        }
        if t == SSH_FXP_OPEN {
            self.open_request(pkt)
        } else if t == SSH_FXP_READDIR {
            self.readdir_request(pkt)
        } else if t == SSH_FXP_CLOSE {
            self.close_request(pkt)
        } else if t == SSH_FXP_READ {
            self.read_request(pkt)
        } else if t == SSH_FXP_WRITE {
            self.write_request(pkt)
        } else {
            SftpAction::Reply(build_sftp_status(pkt.request_id, SSH_FX_OP_UNSUPPORTED, "Unsupported operation"))
        }
    }

    fn path_request(&self, op: PathOp, pkt: &SftpPacket) -> (r: SftpAction)
        requires
            path_op_of(pkt.packet_type) == Some(op),
        ensures
            (self.state(), r@) == request_step(
                self.state(),
                self.root_parts(),
                pkt.packet_type,
                pkt.request_id,
                pkt.data@,
            ),
    {
        let mut cursor = Cursor::new(pkt.data.as_slice());
        match SshBuf::read_utf8(&mut cursor) {
            Err(_) => SftpAction::Reply(build_sftp_status(pkt.request_id, SSH_FX_FAILURE, "Bad path")),
            Ok(p) => SftpAction::Resolve(
                PathTask { op, request_id: pkt.request_id, joined: self.joined_path(p.as_str()) },
            ),
        }
    }

    fn open_request(&self, pkt: &SftpPacket) -> (r: SftpAction)
        requires
            pkt.packet_type == SSH_FXP_OPEN,
        ensures
            (self.state(), r@) == request_step(
                self.state(),
                self.root_parts(),
                pkt.packet_type,
                pkt.request_id,
                pkt.data@,
            ),
    {
        let mut cursor = Cursor::new(pkt.data.as_slice());
        let p = match SshBuf::read_utf8(&mut cursor) {
            Err(_) => {
                return SftpAction::Reply(build_sftp_status(pkt.request_id, SSH_FX_FAILURE, "Bad path"));
            },
            Ok(p) => p,
        };
        let flags = match SshBuf::read_u32(&mut cursor) {
            Err(_) => {
                return SftpAction::Reply(build_sftp_status(pkt.request_id, SSH_FX_FAILURE, "Bad flags"));
            },
            Ok(f) => f,
        };
        SftpAction::Resolve(
            PathTask { op: PathOp::Open(flags), request_id: pkt.request_id, joined: self.joined_path(p.as_str()) },
        )
    }
}


impl SftpHandler {
    fn readdir_request(&mut self, pkt: &SftpPacket) -> (r: SftpAction)
        requires
            old(self).wf(),
            pkt.packet_type == SSH_FXP_READDIR,
        ensures
            final(self).wf(),
            final(self).root == old(self).root,
            (final(self).state(), r@) == request_step(
                old(self).state(),
                old(self).root_parts(),
                pkt.packet_type,
                pkt.request_id,
                pkt.data@,
            ),
    {
        let ghost st = self.state();
        let mut cursor = Cursor::new(pkt.data.as_slice());
        let handle = match SshBuf::read_string(&mut cursor) {
            Err(_) => {
                return SftpAction::Reply(build_sftp_status(pkt.request_id, SSH_FX_FAILURE, "Bad handle"));
            },
            Ok(h) => h,
        };
        let ghost d0 = self.open_dirs@;
        let entry = self.open_dirs.get_mut(handle.as_slice());
        let r = match entry {
            None => {
                SftpAction::Reply(build_sftp_status(pkt.request_id, SSH_FX_FAILURE, "Invalid handle"))
            },
            Some(e) => {
                if e.1 {
                    SftpAction::Reply(build_sftp_status(pkt.request_id, SSH_FX_EOF, "End of directory"))
                } else {
                    e.1 = true;
                    let path = clone_path(&e.0);
                    SftpAction::Perform(FsTask { op: FsOp::ReadDir { path }, request_id: pkt.request_id })
                }
            },
        };
        proof {
            if d0.contains_key(handle@) {
                if d0[handle@].1 {
                    assert(self.open_dirs@ =~= d0);
                } else {
                    let m1 = d0.insert(handle@, (d0[handle@].0, true));
                    assert(self.open_dirs@ == m1);
                    assert(self.state().dirs =~= st.dirs.insert(handle@, (st.dirs[handle@].0, true)));
                }
            }
        }
        r
    }

    fn close_request(&mut self, pkt: &SftpPacket) -> (r: SftpAction)
        requires
            old(self).wf(),
            pkt.packet_type == SSH_FXP_CLOSE,
        ensures
            final(self).wf(),
            final(self).root == old(self).root,
            (final(self).state(), r@) == request_step(
                old(self).state(),
                old(self).root_parts(),
                pkt.packet_type,
                pkt.request_id,
                pkt.data@,
            ),
    {
        let ghost st = self.state();
        let mut cursor = Cursor::new(pkt.data.as_slice());
        let handle = match SshBuf::read_string(&mut cursor) {
            Err(_) => {
                return SftpAction::Reply(build_sftp_status(pkt.request_id, SSH_FX_FAILURE, "Bad handle"));
            },
            Ok(h) => h,
        };
        let _ = self.open_files.remove(handle.as_slice());
        let _ = self.open_dirs.remove(handle.as_slice());
        proof {
            assert(self.state().files =~= st.files.remove(handle@));
            assert(self.state().dirs =~= st.dirs.remove(handle@));
        }
        SftpAction::Reply(build_sftp_status(pkt.request_id, SSH_FX_OK, "OK"))
    }

    fn read_request(&self, pkt: &SftpPacket) -> (r: SftpAction)
        requires
            self.wf(),
            pkt.packet_type == SSH_FXP_READ,
        ensures
            (self.state(), r@) == request_step(
                self.state(),
                self.root_parts(),
                pkt.packet_type,
                pkt.request_id,
                pkt.data@,
            ),
    {
        let mut cursor = Cursor::new(pkt.data.as_slice());
        let handle = match SshBuf::read_string(&mut cursor) {
            Err(_) => {
                return SftpAction::Reply(build_sftp_status(pkt.request_id, SSH_FX_FAILURE, "Bad handle"));
            },
            Ok(h) => h,
        };
        let offset = match cursor.read_u64_be() {
            None => {
                return SftpAction::Reply(build_sftp_status(pkt.request_id, SSH_FX_FAILURE, "Bad offset"));
            },
            Some(o) => o,
        };
        let length = match SshBuf::read_u32(&mut cursor) {
            Err(_) => {
                return SftpAction::Reply(build_sftp_status(pkt.request_id, SSH_FX_FAILURE, "Bad length"));
            },
            Ok(l) => l,
        };
        match self.open_files.get(handle.as_slice()) {
            None => SftpAction::Reply(build_sftp_status(pkt.request_id, SSH_FX_FAILURE, "Invalid handle")),
            Some(entry) => {
                let max_len: u32 = if length < 32768 { length } else { 32768 };
                let path = clone_path(&entry.0);
                SftpAction::Perform(
                    FsTask { op: FsOp::ReadFile { path, offset, max_len }, request_id: pkt.request_id },
                )
            },
        }
    }

    fn write_request(&self, pkt: &SftpPacket) -> (r: SftpAction)
        requires
            self.wf(),
            pkt.packet_type == SSH_FXP_WRITE,
        ensures
            (self.state(), r@) == request_step(
                self.state(),
                self.root_parts(),
                pkt.packet_type,
                pkt.request_id,
                pkt.data@,
            ),
    {
        let mut cursor = Cursor::new(pkt.data.as_slice());
        let handle = match SshBuf::read_string(&mut cursor) {
            Err(_) => {
                return SftpAction::Reply(build_sftp_status(pkt.request_id, SSH_FX_FAILURE, "Bad handle"));
            },
            Ok(h) => h,
        };
        let offset = match cursor.read_u64_be() {
            None => {
                return SftpAction::Reply(build_sftp_status(pkt.request_id, SSH_FX_FAILURE, "Bad offset"));
            },
            Some(o) => o,
        };
        let data = match SshBuf::read_string(&mut cursor) {
            Err(_) => {
                return SftpAction::Reply(build_sftp_status(pkt.request_id, SSH_FX_FAILURE, "Bad data"));
            },
            Ok(d) => d,
        };
        match self.open_files.get(handle.as_slice()) {
            None => SftpAction::Reply(build_sftp_status(pkt.request_id, SSH_FX_FAILURE, "Invalid handle")),
            Some(entry) => {
                let flags = entry.1;
                if flags & SSH_FXF_WRITE == 0 {
                    SftpAction::Reply(
                        build_sftp_status(pkt.request_id, SSH_FX_PERMISSION_DENIED, "Not opened for writing"),
                    )
                } else {
                    let path = clone_path(&entry.0);
                    SftpAction::Perform(
                        FsTask {
                            op: FsOp::WriteFile {
                                path,
                                create: flags & SSH_FXF_CREAT != 0,
                                truncate: flags & SSH_FXF_TRUNC != 0,
                                offset,
                                data,
                            },
                            request_id: pkt.request_id,
                        },
                    )
                }
            },
        }
    }
}


/// What the file system says about a path to be resolved.
pub enum PathFacts {
    /// The path exists; this is its canonical form.
    Exists(Vec<PathComponent>),
    /// The path does not exist. Of its lexically normalized form, the first
    /// `n` components name an existing directory, whose canonical form this is.
    Ancestor(Vec<PathComponent>, usize),
    /// Nothing of the path could be canonicalized.
    Unknown,
}

/// The mathematical value of `PathFacts`.
pub enum FactsView {
    Exists(Seq<PathPart>),
    Ancestor(Seq<PathPart>, usize),
    Unknown,
}

impl View for PathFacts {
    type V = FactsView;

    open spec fn view(&self) -> FactsView {
        match self {
            PathFacts::Exists(c) => FactsView::Exists(parts_of(c@)),
            PathFacts::Ancestor(c, n) => FactsView::Ancestor(parts_of(c@), *n),
            PathFacts::Unknown => FactsView::Unknown,
        }
    }
}

/// The components of `p` after the first `n` (none when `p` is shorter).
pub open spec fn parts_after(p: Seq<PathPart>, n: int) -> Seq<PathPart> {
    if 0 <= n <= p.len() {
        p.subrange(n, p.len() as int)
    } else {
        Seq::empty()
    }
}

/// The path a request resolves to: the canonical form of an existing path;
/// for a path that does not exist, the canonical form of its deepest
/// existing ancestor followed by the rest of its normalized form, so that
/// links among the existing components are followed; the normalized form
/// alone when nothing could be canonicalized.
pub open spec fn resolved_path(joined: Seq<PathPart>, facts: FactsView) -> Seq<PathPart> {
    match facts {
        FactsView::Exists(c) => c,
        FactsView::Ancestor(c, n) => c + parts_after(normalize_parts(joined), n as int),
        FactsView::Unknown => normalize_parts(joined),
    }
}

/// `c` followed by the components of `p` after the first `n`.
fn with_rest(c: Vec<PathComponent>, p: &Vec<PathComponent>, n: usize) -> (r: Vec<PathComponent>)
    ensures
        parts_of(r@) == parts_of(c@) + parts_after(parts_of(p@), n as int),
{
    let mut out = c;
    let ghost c0 = parts_of(out@);
    if n > p.len() {
        assert(parts_of(out@) =~= c0 + parts_after(parts_of(p@), n as int));
        return out;
    }
    let mut i: usize = n;
    assert(parts_of(p@).subrange(n as int, n as int) =~= Seq::<PathPart>::empty());
    assert(parts_of(out@) =~= c0 + parts_of(p@).subrange(n as int, n as int));
    while i < p.len()
        invariant
            n <= i <= p@.len(),
            parts_of(out@) == c0 + parts_of(p@).subrange(n as int, i as int),
        decreases p@.len() - i,
    {
        let ghost o0 = out@;
        out.push(p[i].duplicate());
        assert(parts_of(out@) =~= parts_of(o0).push(p@[i as int]@));
        i = i + 1;
        assert(parts_of(out@) =~= c0 + parts_of(p@).subrange(n as int, i as int));
    }
    out
}

/// Lexical normalization leaves no "." or ".." components.
pub proof fn lemma_normalized_has_no_dots(p: Seq<PathPart>)
    ensures
        forall|i: int|
            0 <= i < normalize_parts(p).len() ==> #[trigger] normalize_parts(p)[i] != PathPart::ParentDir
                && normalize_parts(p)[i] != PathPart::CurDir,
    decreases p.len(),
{
    if p.len() > 0 {
        lemma_normalized_has_no_dots(p.drop_last());
    }
}

/// A path that does not exist yet is resolved to its deepest existing
/// ancestor, canonicalized, followed only by plain names: no "." or ".."
/// among the components that do not exist yet can lead back out through a
/// link.
pub proof fn lemma_ancestor_rest_plain(joined: Seq<PathPart>, c: Seq<PathPart>, n: usize)
    ensures
        ({
            let path = resolved_path(joined, FactsView::Ancestor(c, n));
            &&& path.subrange(0, c.len() as int) == c
            &&& forall|i: int|
                c.len() <= i < path.len() ==> #[trigger] path[i] != PathPart::ParentDir && path[i]
                    != PathPart::CurDir
        }),
{
    lemma_normalized_has_no_dots(joined);
    let path = resolved_path(joined, FactsView::Ancestor(c, n));
    assert(path.subrange(0, c.len() as int) =~= c);
    let q = normalize_parts(joined);
    assert forall|i: int| c.len() <= i < path.len() implies #[trigger] path[i] != PathPart::ParentDir && path[i]
        != PathPart::CurDir by {
        assert(path[i] == q[i - c.len() + n]);
    }
}

/// The optional canonical form of a path, as parts.
pub open spec fn opt_parts(p: Option<Vec<PathComponent>>) -> Option<Seq<PathPart>> {
    match p {
        Some(c) => Some(parts_of(c@)),
        None => None,
    }
}

impl SftpHandler {
    fn add_file(&mut self, path: Vec<PathComponent>, flags: u32) -> (h: Vec<u8>)
        requires
            old(self).wf(),
            old(self).next_handle < u32::MAX,
        ensures
            final(self).wf(),
            final(self).root == old(self).root,
            h@ == handle_bytes(old(self).next_handle),
            final(self).state() == (HandlerState {
                files: old(self).state().files.insert(
                    handle_bytes(old(self).next_handle),
                    (parts_of(path@), flags),
                ),
                next_handle: (old(self).next_handle + 1) as u32,
                ..old(self).state()
            }),
    {
        let ghost st = self.state();
        let ghost n0 = self.next_handle;
        let ghost pp = parts_of(path@);
        proof {
            if self.open_files@.contains_key(handle_bytes(n0)) {
                lemma_fresh_handle(n0, handle_bytes(n0));
            }
        }
        let h = self.alloc_handle();
        self.open_files.insert_new(vstd::slice::slice_to_vec(h.as_slice()), (path, flags));
        proof {
            assert(self.state().files =~= st.files.insert(handle_bytes(n0), (pp, flags)));
            assert(self.state().dirs =~= st.dirs);
            self.lemma_after_alloc(n0);
        }
        h
    }

    fn add_dir(&mut self, path: Vec<PathComponent>) -> (h: Vec<u8>)
        requires
            old(self).wf(),
            old(self).next_handle < u32::MAX,
        ensures
            final(self).wf(),
            final(self).root == old(self).root,
            h@ == handle_bytes(old(self).next_handle),
            final(self).state() == (HandlerState {
                dirs: old(self).state().dirs.insert(handle_bytes(old(self).next_handle), (parts_of(path@), false)),
                next_handle: (old(self).next_handle + 1) as u32,
                ..old(self).state()
            }),
    {
        let ghost st = self.state();
        let ghost n0 = self.next_handle;
        let ghost pp = parts_of(path@);
        proof {
            if self.open_dirs@.contains_key(handle_bytes(n0)) {
                lemma_fresh_handle(n0, handle_bytes(n0));
            }
        }
        let h = self.alloc_handle();
        self.open_dirs.insert_new(vstd::slice::slice_to_vec(h.as_slice()), (path, false));
        proof {
            assert(self.state().dirs =~= st.dirs.insert(handle_bytes(n0), (pp, false)));
            assert(self.state().files =~= st.files);
            self.lemma_after_alloc(n0);
        }
        h
    }

    /// Continue a path request once the file system's facts about its path
    /// and the canonical form of the root (`None` where canonicalizing
    /// failed) are known.
    pub fn resolved(
        &mut self,
        task: PathTask,
        facts: PathFacts,
        root_canonical: Option<Vec<PathComponent>>,
    ) -> (r: SftpAction)
        requires
            old(self).wf(),
            task.op is Open ==> old(self).state().next_handle < u32::MAX,
        ensures
            final(self).wf(),
            final(self).root_parts() == old(self).root_parts(),
            (final(self).state(), r@) == resolved_step(
                old(self).state(),
                old(self).root_parts(),
                task.op,
                task.request_id,
                parts_of(task.joined@),
                facts@,
                opt_parts(root_canonical),
            ),
    {
        let id = task.request_id;
        let op = task.op;
        let inside = self.check_inside(&task.joined, facts, root_canonical);
        match op {
            PathOp::Realpath => match inside {
                Ok(p) => {
                    let mut entries: Vec<(String, FileAttrs)> = Vec::new();
                    entries.push((path_text(&p), FileAttrs::default()));
                    let r = build_sftp_name(id, entries.as_slice());
                    proof {
                        assert(entries@.drop_last() =~= Seq::<(String, FileAttrs)>::empty());
                        let e0 = entries@.last();
                        assert(name_entries_bytes(entries@.drop_last()) == Seq::<u8>::empty());
                        assert(name_entries_bytes(entries@) == name_entries_bytes(entries@.drop_last())
                            + ssh_utf8(e0.0@) + ssh_utf8(e0.0@) + attrs_bytes(e0.1));
                        assert(name_entries_bytes(entries@) =~= ssh_utf8(e0.0@) + ssh_utf8(e0.0@) + attrs_bytes(e0.1));
                        assert(r.data@ =~= u32_be(1) + ssh_utf8(e0.0@) + ssh_utf8(e0.0@) + attrs_bytes(e0.1));
                    }
                    SftpAction::Reply(r)
                },
                Err(_) => SftpAction::Reply(build_sftp_status(id, SSH_FX_NO_SUCH_FILE, "Not found")),
            },
            PathOp::Stat => match inside {
                Ok(p) => SftpAction::Perform(FsTask { op: FsOp::Stat { path: p }, request_id: id }),
                Err(_) => SftpAction::Reply(build_sftp_status(id, SSH_FX_NO_SUCH_FILE, "Not found")),
            },
            PathOp::OpenDir => match inside {
                Ok(p) => SftpAction::Perform(FsTask { op: FsOp::IsDir { path: p }, request_id: id }),
                Err(_) => SftpAction::Reply(build_sftp_status(id, SSH_FX_NO_SUCH_FILE, "Not found")),
            },
            PathOp::Open(flags) => match inside {
                Ok(p) => {
                    let h = self.add_file(p, flags);
                    SftpAction::Reply(build_sftp_handle(id, h.as_slice()))
                },
                Err(_) => SftpAction::Reply(build_sftp_status(id, SSH_FX_NO_SUCH_FILE, "Path error")),
            },
            PathOp::Mkdir => match inside {
                Ok(p) => SftpAction::Perform(FsTask { op: FsOp::CreateDir { path: p }, request_id: id }),
                Err(_) => SftpAction::Reply(build_sftp_status(id, SSH_FX_PERMISSION_DENIED, "Bad path")),
            },
            PathOp::Rmdir => match inside {
                Ok(p) => SftpAction::Perform(FsTask { op: FsOp::RemoveDir { path: p }, request_id: id }),
                Err(_) => SftpAction::Reply(build_sftp_status(id, SSH_FX_PERMISSION_DENIED, "Bad path")),
            },
            PathOp::Remove => match inside {
                Ok(p) => SftpAction::Perform(FsTask { op: FsOp::RemoveFile { path: p }, request_id: id }),
                Err(_) => SftpAction::Reply(build_sftp_status(id, SSH_FX_PERMISSION_DENIED, "Bad path")),
            },
        }
    }

    /// The reply to a finished file-system operation. An outcome of another
    /// kind than the operation's is answered with a bare failure status.
    pub fn completed(&mut self, task: FsTask, outcome: FsOutcome) -> (r: SftpPacket)
        requires
            old(self).wf(),
            (task.op is IsDir && outcome == FsOutcome::IsDir(true)) ==> old(self).state().next_handle
                < u32::MAX,
        ensures
            final(self).wf(),
            final(self).root_parts() == old(self).root_parts(),
            (final(self).state(), ActionView::Reply(r.packet_type, r.request_id, r.data@)) == completed_step(
                old(self).state(),
                task.op@,
                task.request_id,
                outcome,
            ),
    {
        let id = task.request_id;
        proof {
            reveal_strlit("");
        }
        match task.op {
            FsOp::Stat { path } => match outcome {
                FsOutcome::Attrs(Some(a)) => build_sftp_attrs(id, &a),
                FsOutcome::Attrs(None) => build_sftp_status(id, SSH_FX_NO_SUCH_FILE, "Not found"),
                _ => build_sftp_status(id, SSH_FX_FAILURE, ""),
            },
            FsOp::IsDir { path } => match outcome {
                FsOutcome::IsDir(is_dir) => if is_dir {
                    let h = self.add_dir(path);
                    build_sftp_handle(id, h.as_slice())
                } else {
                    build_sftp_status(id, SSH_FX_NO_SUCH_FILE, "Not a directory")
                },
                _ => build_sftp_status(id, SSH_FX_FAILURE, ""),
            },
            FsOp::ReadDir { path } => match outcome {
                FsOutcome::Entries(Some(es)) => build_sftp_name(id, es.as_slice()),
                FsOutcome::Entries(None) => build_sftp_status(id, SSH_FX_PERMISSION_DENIED, "Cannot read dir"),
                _ => build_sftp_status(id, SSH_FX_FAILURE, ""),
            },
            FsOp::ReadFile { .. } => match outcome {
                FsOutcome::Read(ReadOutcome::CannotOpen) => build_sftp_status(id, SSH_FX_NO_SUCH_FILE, "Cannot open"),
                FsOutcome::Read(ReadOutcome::SeekFailed) => build_sftp_status(id, SSH_FX_FAILURE, "Seek failed"),
                FsOutcome::Read(ReadOutcome::ReadFailed) => build_sftp_status(id, SSH_FX_FAILURE, "Read error"),
                FsOutcome::Read(ReadOutcome::Data(v)) => if v.len() == 0 {
                    build_sftp_status(id, SSH_FX_EOF, "EOF")
                } else {
                    build_sftp_data(id, v.as_slice())
                },
                _ => build_sftp_status(id, SSH_FX_FAILURE, ""),
            },
            FsOp::WriteFile { .. } => match outcome {
                FsOutcome::Write(WriteOutcome::CannotOpen) => build_sftp_status(
                    id,
                    SSH_FX_PERMISSION_DENIED,
                    "Cannot open",
                ),
                FsOutcome::Write(WriteOutcome::SeekFailed) => build_sftp_status(id, SSH_FX_FAILURE, "Seek failed"),
                FsOutcome::Write(WriteOutcome::WriteFailed) => build_sftp_status(id, SSH_FX_FAILURE, "Write error"),
                FsOutcome::Write(WriteOutcome::Written) => build_sftp_status(id, SSH_FX_OK, "OK"),
                _ => build_sftp_status(id, SSH_FX_FAILURE, ""),
            },
            FsOp::CreateDir { .. } => match outcome {
                FsOutcome::Done(ok) => if ok {
                    build_sftp_status(id, SSH_FX_OK, "OK")
                } else {
                    build_sftp_status(id, SSH_FX_FAILURE, "mkdir failed")
                },
                _ => build_sftp_status(id, SSH_FX_FAILURE, ""),
            },
            FsOp::RemoveDir { .. } => match outcome {
                FsOutcome::Done(ok) => if ok {
                    build_sftp_status(id, SSH_FX_OK, "OK")
                } else {
                    build_sftp_status(id, SSH_FX_FAILURE, "rmdir failed")
                },
                _ => build_sftp_status(id, SSH_FX_FAILURE, ""),
            },
            FsOp::RemoveFile { .. } => match outcome {
                FsOutcome::Done(ok) => if ok {
                    build_sftp_status(id, SSH_FX_OK, "OK")
                } else {
                    build_sftp_status(id, SSH_FX_FAILURE, "remove failed")
                },
                _ => build_sftp_status(id, SSH_FX_FAILURE, ""),
            },
        }
    }
}


/// The path a file-system operation works on.
pub open spec fn fs_op_path(op: FsOpView) -> Seq<PathPart> {
    match op {
        FsOpView::Stat(p) => p,
        FsOpView::IsDir(p) => p,
        FsOpView::ReadDir(p) => p,
        FsOpView::ReadFile(p, _, _) => p,
        FsOpView::WriteFile(p, _, _, _, _) => p,
        FsOpView::CreateDir(p) => p,
        FsOpView::RemoveDir(p) => p,
        FsOpView::RemoveFile(p) => p,
    }
}

/// Requests cannot reach outside the root: when a path request is resolved,
/// every file-system operation handed out, and every file opened, names a
/// path that starts with the (canonical) root.
pub proof fn lemma_resolved_paths_under_root(
    st: HandlerState,
    root: Seq<PathPart>,
    op: PathOp,
    id: u32,
    joined: Seq<PathPart>,
    facts: FactsView,
    root_canonical: Option<Seq<PathPart>>,
)
    ensures
        ({
            let (st2, action) = resolved_step(st, root, op, id, joined, facts, root_canonical);
            let base = match root_canonical {
                Some(c) => c,
                None => normalize_parts(root),
            };
            &&& action matches ActionView::Perform(o, _) ==> parts_start_with(fs_op_path(o), base)
            &&& forall|h: Seq<u8>| #[trigger] st2.files.contains_key(h) && !st.files.contains_key(h)
                ==> parts_start_with(st2.files[h].0, base)
        }),
{
}


/// The data of a READ request: handle, offset, length.
pub open spec fn read_request_data(handle: Seq<u8>, offset: u64, len: u32) -> Seq<u8> {
    ssh_string(handle) + u64_be(offset) + u32_be(len)
}

proof fn lemma_read_request_parses(handle: Seq<u8>, offset: u64, len: u32)
    requires
        handle.len() <= crate::packet::types::MAX_PACKET_SIZE,
    ensures
        ({
            let d = read_request_data(handle, offset, len);
            let (h, p1) = read_string_at(d, 0);
            let (off, p2) = read_u64_at(d, p1);
            let (l, p3) = read_u32_at(d, p2);
            h == Some(handle) && off == Some(offset) && l == Some(len)
        }),
{
    let d = read_request_data(handle, offset, len);
    let n = handle.len() as int;
    assert(d.subrange(0, 4 + n) =~= ssh_string(handle));
    lemma_read_string_of(d, 0, handle);
    assert(d.subrange(4 + n, 12 + n) =~= u64_be(offset));
    lemma_read_u64_of(d, 4 + n, offset);
    assert(d.subrange(12 + n, 16 + n) =~= u32_be(len));
    lemma_read_u32_of(d, 12 + n, len);
}

/// What OPEN hands out, READ uses: once a path request to open a file is
/// resolved to a handle, reading through that handle reads that file, at the
/// offset asked for and at most 32768 bytes at a time.
pub proof fn lemma_opened_handle_reads(
    st: HandlerState,
    root: Seq<PathPart>,
    flags: u32,
    id: u32,
    joined: Seq<PathPart>,
    facts: FactsView,
    root_canonical: Option<Seq<PathPart>>,
    read_id: u32,
    offset: u64,
    len: u32,
)
    ensures
        ({
            let (st2, action) = resolved_step(st, root, PathOp::Open(flags), id, joined, facts, root_canonical);
            let path = resolved_path(joined, facts);
            action matches ActionView::Reply(t, _, _) && t == SSH_FXP_HANDLE ==> request_step(
                st2,
                root,
                SSH_FXP_READ,
                read_id,
                read_request_data(handle_bytes(st.next_handle), offset, len),
            ).1 == ActionView::Perform(
                FsOpView::ReadFile(
                    path,
                    offset,
                    if len < 32768 {
                        len
                    } else {
                        32768
                    },
                ),
                read_id,
            )
        }),
{
    lemma_read_request_parses(handle_bytes(st.next_handle), offset, len);
}

/// The data of a WRITE request: handle, offset and the bytes to write.
pub open spec fn write_request_data(handle: Seq<u8>, offset: u64, data: Seq<u8>) -> Seq<u8> {
    ssh_string(handle) + u64_be(offset) + ssh_string(data)
}

proof fn lemma_write_request_parses(handle: Seq<u8>, offset: u64, data: Seq<u8>)
    requires
        handle.len() <= crate::packet::types::MAX_PACKET_SIZE,
        data.len() <= crate::packet::types::MAX_PACKET_SIZE,
    ensures
        ({
            let d = write_request_data(handle, offset, data);
            let (h, p1) = read_string_at(d, 0);
            let (off, p2) = read_u64_at(d, p1);
            let (w, p3) = read_string_at(d, p2);
            h == Some(handle) && off == Some(offset) && w == Some(data)
        }),
{
    let d = write_request_data(handle, offset, data);
    let n = handle.len() as int;
    assert(d.subrange(0, 4 + n) =~= ssh_string(handle));
    lemma_read_string_of(d, 0, handle);
    assert(d.subrange(4 + n, 12 + n) =~= u64_be(offset));
    lemma_read_u64_of(d, 4 + n, offset);
    assert(d.subrange(12 + n, 16 + n + data.len()) =~= ssh_string(data));
    lemma_read_string_of(d, 12 + n, data);
}

/// What OPEN hands out, WRITE uses: once a path request to open a file is
/// resolved to a handle, writing through that handle writes that file at the
/// offset asked for, creating it when the open flags hold SSH_FXF_CREAT
/// (0x08) and truncating it first when they hold SSH_FXF_TRUNC (0x10); a file
/// opened without SSH_FXF_WRITE (0x02) refuses the write.
pub proof fn lemma_opened_handle_writes(
    st: HandlerState,
    root: Seq<PathPart>,
    flags: u32,
    id: u32,
    joined: Seq<PathPart>,
    facts: FactsView,
    root_canonical: Option<Seq<PathPart>>,
    write_id: u32,
    offset: u64,
    data: Seq<u8>,
)
    requires
        data.len() <= crate::packet::types::MAX_PACKET_SIZE,
    ensures
        ({
            let (st2, action) = resolved_step(st, root, PathOp::Open(flags), id, joined, facts, root_canonical);
            let path = resolved_path(joined, facts);
            let answer = request_step(
                st2,
                root,
                6u8,
                write_id,
                write_request_data(handle_bytes(st.next_handle), offset, data),
            ).1;
            action matches ActionView::Reply(t, _, _) && t == 102u8 ==> {
                &&& flags & 0x02u32 != 0 ==> answer == ActionView::Perform(
                    FsOpView::WriteFile(path, flags & 0x08u32 != 0, flags & 0x10u32 != 0, offset, data),
                    write_id,
                )
                &&& flags & 0x02u32 == 0 ==> answer == status_reply(
                    write_id,
                    3u32,
                    "Not opened for writing"@,
                )
            }
        }),
{
    lemma_write_request_parses(handle_bytes(st.next_handle), offset, data);
}

/// Path requests act on their resolved path as their packet type says: a
/// REMOVE (13) removes the file, an RMDIR (15) removes the directory and an
/// MKDIR (14) creates one, each only when the resolved path lies under the
/// root; otherwise the request is refused with SSH_FX_PERMISSION_DENIED (3)
/// and "Bad path", and nothing is handed to the file system.
pub proof fn lemma_path_requests_act_by_type(
    st: HandlerState,
    root: Seq<PathPart>,
    id: u32,
    p: Seq<char>,
    facts: FactsView,
    root_canonical: Option<Seq<PathPart>>,
)
    requires
        vstd::utf8::encode_utf8(p).len() <= crate::packet::types::MAX_PACKET_SIZE,
    ensures
        ({
            let joined = join_parts(root, path_parts(strip_leading_slash(p)));
            let path = resolved_path(joined, facts);
            let base = match root_canonical {
                Some(c) => c,
                None => normalize_parts(root),
            };
            let inside = parts_start_with(path, base);
            let refused = status_reply(id, 3u32, "Bad path"@);
            &&& request_step(st, root, 13u8, id, ssh_utf8(p)) matches (st1, ActionView::Resolve(op, rid, j))
                && st1 == st && rid == id && j == joined
                && resolved_step(st, root, op, id, joined, facts, root_canonical) == (
                st,
                if inside {
                    ActionView::Perform(FsOpView::RemoveFile(path), id)
                } else {
                    refused
                },
            )
            &&& request_step(st, root, 15u8, id, ssh_utf8(p)) matches (st1, ActionView::Resolve(op, rid, j))
                && st1 == st && rid == id && j == joined
                && resolved_step(st, root, op, id, joined, facts, root_canonical) == (
                st,
                if inside {
                    ActionView::Perform(FsOpView::RemoveDir(path), id)
                } else {
                    refused
                },
            )
            &&& request_step(st, root, 14u8, id, ssh_utf8(p)) matches (st1, ActionView::Resolve(op, rid, j))
                && st1 == st && rid == id && j == joined
                && resolved_step(st, root, op, id, joined, facts, root_canonical) == (
                st,
                if inside {
                    ActionView::Perform(FsOpView::CreateDir(path), id)
                } else {
                    refused
                },
            )
        }),
{
    crate::packet::codec::lemma_utf8_roundtrip(p);
}

/// Lookups act on their resolved path as their packet type says: STAT (17)
/// and LSTAT (7) read the metadata of the path, OPENDIR (11) asks whether it
/// is a directory, each only when the resolved path lies under the root;
/// otherwise the answer is SSH_FX_NO_SUCH_FILE (2) "Not found". An OPEN (3)
/// with open flags `flags` asks to open the same joined path with those flags.
pub proof fn lemma_lookups_act_by_type(
    st: HandlerState,
    root: Seq<PathPart>,
    id: u32,
    p: Seq<char>,
    flags: u32,
    facts: FactsView,
    root_canonical: Option<Seq<PathPart>>,
)
    requires
        vstd::utf8::encode_utf8(p).len() <= crate::packet::types::MAX_PACKET_SIZE,
    ensures
        ({
            let joined = join_parts(root, path_parts(strip_leading_slash(p)));
            let path = resolved_path(joined, facts);
            let base = match root_canonical {
                Some(c) => c,
                None => normalize_parts(root),
            };
            let inside = parts_start_with(path, base);
            let missing = status_reply(id, 2u32, "Not found"@);
            &&& request_step(st, root, 17u8, id, ssh_utf8(p)) matches (st1, ActionView::Resolve(op, rid, j))
                && st1 == st && rid == id && j == joined
                && resolved_step(st, root, op, id, joined, facts, root_canonical) == (
                st,
                if inside {
                    ActionView::Perform(FsOpView::Stat(path), id)
                } else {
                    missing
                },
            )
            &&& request_step(st, root, 7u8, id, ssh_utf8(p)) matches (st1, ActionView::Resolve(op, rid, j))
                && st1 == st && rid == id && j == joined
                && resolved_step(st, root, op, id, joined, facts, root_canonical) == (
                st,
                if inside {
                    ActionView::Perform(FsOpView::Stat(path), id)
                } else {
                    missing
                },
            )
            &&& request_step(st, root, 11u8, id, ssh_utf8(p)) matches (st1, ActionView::Resolve(op, rid, j))
                && st1 == st && rid == id && j == joined
                && resolved_step(st, root, op, id, joined, facts, root_canonical) == (
                st,
                if inside {
                    ActionView::Perform(FsOpView::IsDir(path), id)
                } else {
                    missing
                },
            )
            &&& request_step(st, root, 3u8, id, ssh_utf8(p) + u32_be(flags)) == (
                st,
                ActionView::Resolve(PathOp::Open(flags), id, joined),
            )
        }),
{
    crate::packet::codec::lemma_utf8_roundtrip(p);
    let d = ssh_utf8(p) + u32_be(flags);
    let n = ssh_utf8(p).len() as int;
    assert(d.subrange(0, n) =~= ssh_utf8(p));
    crate::packet::codec::lemma_read_utf8_of(d, 0, p);
    assert(d.subrange(n, n + 4) =~= u32_be(flags));
    lemma_read_u32_of(d, n, flags);
}

/// A closed handle is no longer valid: after CLOSE of a handle, reading
/// through it is answered with a failure status "Invalid handle".
pub proof fn lemma_closed_handle_invalid(
    st: HandlerState,
    root: Seq<PathPart>,
    id: u32,
    handle: Seq<u8>,
    read_id: u32,
    offset: u64,
    len: u32,
)
    requires
        handle.len() <= crate::packet::types::MAX_PACKET_SIZE,
    ensures
        ({
            let st2 = request_step(st, root, SSH_FXP_CLOSE, id, ssh_string(handle)).0;
            request_step(st2, root, SSH_FXP_READ, read_id, read_request_data(handle, offset, len)).1
                == status_reply(read_id, SSH_FX_FAILURE, "Invalid handle"@)
        }),
{
    let d = ssh_string(handle);
    assert(d.subrange(0, d.len() as int) =~= d);
    lemma_read_string_of(d, 0, handle);
    lemma_read_request_parses(handle, offset, len);
}

} // verus!
