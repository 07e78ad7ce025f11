//! SSH packet protection and version strings (RFC 4253 sections 4.2, 6):
//! what goes on the wire for an outgoing packet, how an incoming one is
//! decrypted, checked and parsed, and how the peer's version line is read.
//! The reading and writing themselves are the caller's.
use vstd::prelude::*;
use vstd::utf8::{decode_utf8, encode_utf8, valid_utf8};

use crate::crypto::{compute_hmac, ctr_xor, hmac_sha256_tag, lemma_ctr_xor_involution, lemma_ctr_xor_split, verify_hmac, AesCipher};
use crate::error::{decimal_text, text_with_number, SshError, SshResult};
use crate::packet::codec::{
    append_bytes, deserialize_accepts, deserialized_payload, framed_packet, lemma_serialize_deserialize,
    lemma_u32_be_roundtrip, packet_len_for, padding_len_for, string_from_utf8, text_eq, u32_be, u32_of_be,
    SshBuf, SshPacket,
};
use crate::packet::types::{AES_BLOCK_SIZE, MAX_PACKET_SIZE};
use crate::session::{seq_after, SessionKeys};

verus! {

// ---------------------------------------------------------------------------
// The session keys as values
// ---------------------------------------------------------------------------

/// A cipher direction as a value: key, initial counter block, keystream position.
pub open spec fn cipher_view(c: AesCipher) -> (Seq<u8>, Seq<u8>, u64) {
    (c.key(), c.iv(), c.position())
}

/// The cipher direction that outgoing packets go through, if encryption is on.
pub open spec fn send_cipher(keys: SessionKeys) -> Option<(Seq<u8>, Seq<u8>, u64)> {
    match keys.ciphers {
        Some(p) => Some(cipher_view(p.encrypt)),
        None => None,
    }
}

/// The cipher direction that incoming packets go through, if encryption is on.
pub open spec fn recv_cipher(keys: SessionKeys) -> Option<(Seq<u8>, Seq<u8>, u64)> {
    match keys.ciphers {
        Some(p) => Some(cipher_view(p.decrypt)),
        None => None,
    }
}

/// The bytes of an optional key.
pub open spec fn key_of(k: Option<Vec<u8>>) -> Option<Seq<u8>> {
    match k {
        Some(v) => Some(v@),
        None => None,
    }
}

/// `data` through a cipher direction (unchanged without one).
pub open spec fn apply_cipher(data: Seq<u8>, c: Option<(Seq<u8>, Seq<u8>, u64)>) -> Seq<u8> {
    match c {
        Some((k, iv, pos)) => ctr_xor(data, k, iv, pos),
        None => data,
    }
}

/// A cipher direction after `n` more keystream bytes.
pub open spec fn advance(c: Option<(Seq<u8>, Seq<u8>, u64)>, n: int) -> Option<(Seq<u8>, Seq<u8>, u64)> {
    match c {
        Some((k, iv, pos)) => Some((k, iv, (pos + n) as u64)),
        None => None,
    }
}

/// The MAC sent after a packet: HMAC-SHA256 over the sequence number and the
/// unencrypted packet, or nothing without a MAC key.
pub open spec fn packet_mac(plain: Seq<u8>, seq: u32, key: Option<Seq<u8>>) -> Seq<u8> {
    match key {
        Some(k) => hmac_sha256_tag(k, u32_be(seq) + plain),
        None => Seq::empty(),
    }
}

/// Whether `mac` is the MAC a packet needs (anything passes without a key).
pub open spec fn mac_ok(plain: Seq<u8>, seq: u32, key: Option<Seq<u8>>, mac: Seq<u8>) -> bool {
    match key {
        Some(k) => mac == hmac_sha256_tag(k, u32_be(seq) + plain),
        None => true,
    }
}

/// The bytes sent for the unencrypted packet `plain`: the encrypted packet,
/// then its MAC.
pub open spec fn sealed_bytes(plain: Seq<u8>, seq: u32, cipher: Option<(Seq<u8>, Seq<u8>, u64)>, mac_key: Option<Seq<u8>>) -> Seq<u8> {
    apply_cipher(plain, cipher) + packet_mac(plain, seq, mac_key)
}

/// The MAC of a packet covers its sequence number (RFC 4253 §6.4): what is
/// sent after the encrypted packet is HMAC-SHA256, under the sending MAC key,
/// of the sequence number as a big-endian uint32 followed by the unencrypted
/// packet; a received MAC passes exactly when it is that tag under the
/// receiving MAC key. Without a MAC key nothing is sent and nothing checked.
pub proof fn lemma_mac_covers_sequence_number(
    plain: Seq<u8>,
    seq: u32,
    cipher: Option<(Seq<u8>, Seq<u8>, u64)>,
    key: Option<Seq<u8>>,
    mac: Seq<u8>,
)
    ensures
        ({
            let wire = sealed_bytes(plain, seq, cipher, key);
            &&& wire.subrange(0, plain.len() as int) == apply_cipher(plain, cipher)
            &&& key matches Some(k) ==> wire.subrange(plain.len() as int, wire.len() as int) == hmac_sha256_tag(
                k,
                u32_be(seq) + plain,
            )
            &&& key is None ==> wire.len() == plain.len()
        }),
        key matches Some(k) ==> (mac_ok(plain, seq, key, mac) <==> mac == hmac_sha256_tag(k, u32_be(seq) + plain)),
        key is None ==> mac_ok(plain, seq, key, mac),
{
    let wire = sealed_bytes(plain, seq, cipher, key);
    let e = apply_cipher(plain, cipher);
    assert(e.len() == plain.len());
    assert(wire.subrange(0, plain.len() as int) =~= e);
    assert(wire.subrange(plain.len() as int, wire.len() as int) =~= packet_mac(plain, seq, key));
}

/// The block size packets are padded to and read by: the AES block once
/// encryption is on, 8 before.
pub open spec fn block_size_of(keys: SessionKeys) -> int {
    if keys.ciphers is Some {
        AES_BLOCK_SIZE as int
    } else {
        8
    }
}

/// The keys after sending a packet of `n` bytes: the next send sequence
/// number and `n` more bytes of the outgoing keystream; nothing else changes.
pub open spec fn keys_after_send(before: SessionKeys, after: SessionKeys, n: int) -> bool {
    &&& after.send_seq == seq_after(before.send_seq)
    &&& after.recv_seq == before.recv_seq
    &&& after.session_id == before.session_id
    &&& after.send_mac_key == before.send_mac_key
    &&& after.recv_mac_key == before.recv_mac_key
    &&& send_cipher(after) == advance(send_cipher(before), n)
    &&& recv_cipher(after) == recv_cipher(before)
    &&& (after.ciphers is Some) == (before.ciphers is Some)
}

/// The keys after decrypting `n` incoming bytes: `n` more bytes of the
/// incoming keystream; nothing else changes.
pub open spec fn keys_after_decrypt(before: SessionKeys, after: SessionKeys, n: int) -> bool {
    &&& after.send_seq == before.send_seq
    &&& after.recv_seq == before.recv_seq
    &&& after.session_id == before.session_id
    &&& after.send_mac_key == before.send_mac_key
    &&& after.recv_mac_key == before.recv_mac_key
    &&& send_cipher(after) == send_cipher(before)
    &&& recv_cipher(after) == advance(recv_cipher(before), n)
    &&& (after.ciphers is Some) == (before.ciphers is Some)
}

// ---------------------------------------------------------------------------
// Sending
// ---------------------------------------------------------------------------

/// The block size packets are padded to and read by.
pub fn block_size(keys: &SessionKeys) -> (r: usize)
    ensures
        r == block_size_of(*keys),
{
    if keys.is_encrypted() {
        AES_BLOCK_SIZE
    } else {
        8
    }
}

/// The bytes to send for `packet`: it is serialized with random padding, its
/// MAC is taken over the send sequence number and the unencrypted packet,
/// the packet is encrypted and the MAC follows it. The send sequence number
/// advances. A packet too large to serialize is refused and nothing changes.
pub fn seal_packet(packet: &SshPacket, keys: &mut SessionKeys) -> (r: SshResult<Vec<u8>>)
    requires
        packet.payload@.len() + 30 <= usize::MAX,
        old(keys).ciphers matches Some(c) ==> c.encrypt.position() + MAX_PACKET_SIZE + 4 <= u64::MAX,
    ensures
        ({
            let bs = block_size_of(*old(keys));
            let n = packet.payload@.len() as int;
            &&& (r is Err) <==> packet_len_for(n, bs) > MAX_PACKET_SIZE
            &&& r matches Err(e) ==> (e is InvalidPacket && *final(keys) == *old(keys))
            &&& r matches Ok(wire) ==> exists|padding: Seq<u8>|
                padding.len() == padding_len_for(n, bs) && wire@ == sealed_bytes(
                    #[trigger] framed_packet(packet.msg_type, packet.payload@, padding),
                    old(keys).send_seq,
                    send_cipher(*old(keys)),
                    key_of(old(keys).send_mac_key),
                ) && keys_after_send(
                    *old(keys),
                    *final(keys),
                    framed_packet(packet.msg_type, packet.payload@, padding).len() as int,
                ) && (key_of(old(keys).send_mac_key) matches Some(k) ==> wire@.subrange(
                    framed_packet(packet.msg_type, packet.payload@, padding).len() as int,
                    wire@.len() as int,
                ) == hmac_sha256_tag(
                    k,
                    u32_be(old(keys).send_seq) + framed_packet(packet.msg_type, packet.payload@, padding),
                ))
        }),
{
    let bs = block_size(keys);
    let mut data = packet.serialize(bs)?;
    let ghost plain = data@;
    let ghost padding = plain.subrange(6 + packet.payload@.len() as int, plain.len() as int);
    let ghost k0 = *keys;
    let seq = keys.next_send_seq();
    let mac: Option<Vec<u8>> = match &keys.send_mac_key {
        Some(k) => {
            let mut mac_data = Vec::new();
            SshBuf::write_u32(&mut mac_data, seq);
            append_bytes(&mut mac_data, data.as_slice());
            Some(compute_hmac(k.as_slice(), mac_data.as_slice()))
        },
        None => None,
    };
    let ghost k1 = *keys;
    match &mut keys.ciphers {
        Some(c) => {
            c.encrypt.apply(data.as_mut_slice());
        },
        None => {},
    }
    assert(data@ == apply_cipher(plain, send_cipher(k0)));
    match mac {
        Some(m) => {
            append_bytes(&mut data, m.as_slice());
        },
        None => {},
    }
    assert(data@ =~= sealed_bytes(plain, k0.send_seq, send_cipher(k0), key_of(k0.send_mac_key)));
    assert(plain == framed_packet(packet.msg_type, packet.payload@, padding));
    proof {
        lemma_mac_covers_sequence_number(plain, k0.send_seq, send_cipher(k0), key_of(k0.send_mac_key), Seq::empty());
    }
    Ok(data)
}

// ---------------------------------------------------------------------------
// Receiving
// ---------------------------------------------------------------------------

/// Decrypt the first block of an incoming packet in place (when encryption
/// is on) and read the packet length from its first four bytes.
pub fn open_first_block(keys: &mut SessionKeys, block: &mut [u8]) -> (r: u32)
    requires
        old(block)@.len() >= 4,
        old(keys).ciphers matches Some(c) ==> c.decrypt.position() + old(block)@.len() <= u64::MAX,
    ensures
        final(block)@ == apply_cipher(old(block)@, recv_cipher(*old(keys))),
        r == u32_of_be(final(block)@),
        keys_after_decrypt(*old(keys), *final(keys), old(block)@.len() as int),
{
    decrypt_in_place(keys, block);
    ((block[0] as u32) << 24u32) | ((block[1] as u32) << 16u32) | ((block[2] as u32) << 8u32) | (
    block[3] as u32)
}

/// Decrypt incoming bytes in place (when encryption is on).
pub fn decrypt_in_place(keys: &mut SessionKeys, data: &mut [u8])
    requires
        old(keys).ciphers matches Some(c) ==> c.decrypt.position() + old(data)@.len() <= u64::MAX,
    ensures
        final(data)@ == apply_cipher(old(data)@, recv_cipher(*old(keys))),
        keys_after_decrypt(*old(keys), *final(keys), old(data)@.len() as int),
{
    match &mut keys.ciphers {
        Some(c) => {
            c.decrypt.apply(data);
        },
        None => {},
    }
}

/// How many bytes of the packet follow its first block; a length over the
/// maximum packet size is refused.
pub fn rest_length(packet_length: u32, block_size: usize) -> (r: SshResult<usize>)
    requires
        packet_length > MAX_PACKET_SIZE || 4 + packet_length >= block_size,
    ensures
        (r is Err) <==> packet_length > MAX_PACKET_SIZE,
        r matches Err(e) ==> (e matches SshError::InvalidPacket(m) && m@ == "Packet length too large: "@
            + decimal_text(packet_length as u64)),
        r matches Ok(n) ==> n == 4 + packet_length - block_size,
{
    if packet_length as usize > MAX_PACKET_SIZE {
        let m = text_with_number("Packet length too large: ", packet_length as u64);
        return Err(SshError::InvalidPacket(m));
    }
    let total = 4 + packet_length as usize;
    Ok(total - block_size)
}

/// Whether a MAC follows each incoming packet.
pub fn expects_mac(keys: &SessionKeys) -> (r: bool)
    ensures
        r == keys.recv_mac_key is Some,
{
    keys.recv_mac_key.is_some()
}

/// Finish an incoming packet from its decrypted first block and rest: take
/// the receive sequence number, check the MAC that followed the packet (when
/// a MAC key is set; `mac` is ignored otherwise), and parse the packet.
pub fn finish_packet(keys: &mut SessionKeys, first: Vec<u8>, rest: &[u8], mac: &[u8]) -> (r: SshResult<SshPacket>)
    ensures
        ({
            let full = first@ + rest@;
            let seq = old(keys).recv_seq;
            let good_mac = mac_ok(full, seq, key_of(old(keys).recv_mac_key), mac@);
            &&& final(keys).recv_seq == seq_after(seq)
            &&& final(keys).send_seq == old(keys).send_seq
            &&& final(keys).session_id == old(keys).session_id
            &&& final(keys).ciphers == old(keys).ciphers
            &&& final(keys).send_mac_key == old(keys).send_mac_key
            &&& final(keys).recv_mac_key == old(keys).recv_mac_key
            &&& (r is Ok) <==> (good_mac && deserialize_accepts(full))
            &&& !good_mac ==> (r matches Err(e) && e is MacMismatch)
            &&& good_mac && !deserialize_accepts(full) ==> (r matches Err(e) && e is InvalidPacket)
            &&& r matches Ok(p) ==> p.msg_type == full[5] && p.payload@ == deserialized_payload(full)
            &&& key_of(old(keys).recv_mac_key) matches Some(k) ==> {
                &&& r is Ok ==> mac@ == hmac_sha256_tag(k, u32_be(seq) + full)
                &&& mac@ != hmac_sha256_tag(k, u32_be(seq) + full) ==> (r matches Err(e) && e is MacMismatch)
            }
        }),
{
    let mut full = first;
    append_bytes(&mut full, rest);
    let seq = keys.next_recv_seq();
    match &keys.recv_mac_key {
        Some(k) => {
            let mut mac_data = Vec::new();
            SshBuf::write_u32(&mut mac_data, seq);
            append_bytes(&mut mac_data, full.as_slice());
            verify_hmac(k.as_slice(), mac_data.as_slice(), mac)?;
        },
        None => {},
    }
    SshPacket::deserialize(full.as_slice())
}

/// What the sender seals, the peer opens: with the peer's incoming cipher,
/// MAC key and sequence number equal to the sender's outgoing ones, the first
/// block decrypts to the packet's true length (accepted, and no shorter than
/// a block), the first block and the rest decrypt to the packet the sender
/// framed, the bytes after it are the MAC the peer expects, and parsing gives
/// back the message type and payload.
pub proof fn lemma_sealed_packet_opens(
    msg_type: u8,
    payload: Seq<u8>,
    padding: Seq<u8>,
    bs: int,
    seq: u32,
    cipher: Option<(Seq<u8>, Seq<u8>, u64)>,
    mac_key: Option<Seq<u8>>,
)
    requires
        bs == 8 || bs == AES_BLOCK_SIZE,
        padding.len() == padding_len_for(payload.len() as int, bs),
        packet_len_for(payload.len() as int, bs) <= MAX_PACKET_SIZE,
        cipher matches Some(c) ==> c.2 + MAX_PACKET_SIZE + 4 <= u64::MAX,
    ensures
        ({
            let plain = framed_packet(msg_type, payload, padding);
            let n = plain.len() as int;
            let wire = sealed_bytes(plain, seq, cipher, mac_key);
            let first = apply_cipher(wire.subrange(0, bs), cipher);
            let len = u32_of_be(first);
            let rest = apply_cipher(wire.subrange(bs, 4 + len), advance(cipher, bs));
            &&& len <= MAX_PACKET_SIZE
            &&& 4 + len >= bs
            &&& 4 + len == n
            &&& first + rest == plain
            &&& mac_ok(first + rest, seq, mac_key, wire.subrange(n, wire.len() as int))
            &&& deserialize_accepts(first + rest)
            &&& (first + rest)[5] == msg_type
            &&& deserialized_payload(first + rest) == payload
        }),
{
    let plain = framed_packet(msg_type, payload, padding);
    let n = plain.len() as int;
    let pl = (2 + payload.len() + padding.len()) as u32;
    lemma_serialize_deserialize(msg_type, payload, bs, padding);
    crate::packet::codec::lemma_packet_alignment(payload.len() as int, bs);
    assert(n == 4 + packet_len_for(payload.len() as int, bs));
    assert(n >= bs) by {
        assert(packet_len_for(payload.len() as int, bs) % bs == 0);
        assert(packet_len_for(payload.len() as int, bs) > 0);
    }
    let wire = sealed_bytes(plain, seq, cipher, mac_key);
    let enc = apply_cipher(plain, cipher);
    assert(wire.subrange(0, n) =~= enc);
    let a = plain.subrange(0, bs);
    let b = plain.subrange(bs, n);
    assert(plain =~= a + b);
    let first = apply_cipher(wire.subrange(0, bs), cipher);
    match cipher {
        Some((k, iv, pos)) => {
            lemma_ctr_xor_split(a, b, k, iv, pos);
            assert(enc.subrange(0, bs) =~= ctr_xor(a, k, iv, pos));
            lemma_ctr_xor_involution(a, k, iv, pos);
            assert(first =~= a);
        },
        None => {
            assert(first =~= a);
        },
    }
    lemma_u32_be_roundtrip(pl);
    assert(first.subrange(0, 4) =~= u32_be(pl));
    assert(u32_of_be(first) == pl);
    let len = u32_of_be(first);
    let rest = apply_cipher(wire.subrange(bs, 4 + len), advance(cipher, bs));
    match cipher {
        Some((k, iv, pos)) => {
            assert(enc.subrange(bs, n) =~= ctr_xor(b, k, iv, (pos + bs) as u64));
            lemma_ctr_xor_involution(b, k, iv, (pos + bs) as u64);
            assert(rest =~= b);
        },
        None => {
            assert(rest =~= b);
        },
    }
    assert(first + rest =~= plain);
    assert(wire.subrange(n, wire.len() as int) =~= packet_mac(plain, seq, mac_key));
}

// ---------------------------------------------------------------------------
// Version strings
// ---------------------------------------------------------------------------

/// The line that announces `version`: its UTF-8 bytes followed by CR LF.
pub fn version_line(version: &str) -> (r: Vec<u8>)
    ensures
        r@ == encode_utf8(version@) + seq![13u8, 10u8],
{
    let mut line = vstd::slice::slice_to_vec(version.as_bytes());
    line.push(13);
    line.push(10);
    line
}

/// Whether a version string is SSH protocol version 2.0.
pub open spec fn is_ssh2_version(v: Seq<char>) -> bool {
    v.len() >= 8 && v.subrange(0, 8) == "SSH-2.0-"@
}

/// Whether `b` ends in CR LF.
pub open spec fn ends_with_crlf(b: Seq<u8>) -> bool {
    b.len() >= 2 && b[b.len() - 2] == 13 && b[b.len() - 1] == 10
}

/// Where reading a version line stands after the bytes `b`.
pub enum VersionRead {
    /// The line goes on.
    More,
    /// More than 255 bytes without the line ending.
    TooLong,
    /// The line is not UTF-8.
    BadUtf8,
    /// The line announces another protocol version.
    Unsupported(Seq<char>),
    /// The line announces SSH-2.0 with this version string.
    Version(Seq<char>),
}

/// Where reading stands after the bytes `b`, which were read while the line
/// went on: over 255 bytes is too long; a line ends at CR LF, and the text
/// before them must be UTF-8 and start with "SSH-2.0-".
pub open spec fn version_read(b: Seq<u8>) -> VersionRead {
    let line = b.subrange(0, b.len() - 2);
    if b.len() > 255 {
        VersionRead::TooLong
    } else if !ends_with_crlf(b) {
        VersionRead::More
    } else if !valid_utf8(line) {
        VersionRead::BadUtf8
    } else if !is_ssh2_version(decode_utf8(line)) {
        VersionRead::Unsupported(decode_utf8(line))
    } else {
        VersionRead::Version(decode_utf8(line))
    }
}

/// Whether `r` is the reader's answer for `v`: nothing yet, the version, or
/// a protocol error with its message.
pub open spec fn version_answer(r: Option<SshResult<String>>, v: VersionRead) -> bool {
    match v {
        VersionRead::More => r is None,
        VersionRead::TooLong => r matches Some(Err(SshError::Protocol(m))) && m@ == "Version string too long"@,
        VersionRead::BadUtf8 => r matches Some(Err(SshError::Protocol(m))) && m@
            == "Invalid UTF-8 in version string"@,
        VersionRead::Unsupported(s) => r matches Some(Err(SshError::Protocol(m))) && m@
            == "Unsupported protocol version: "@ + s,
        VersionRead::Version(s) => r matches Some(Ok(x)) && x@ == s,
    }
}

/// Reads the peer's version line one byte at a time.
pub struct VersionReader {
    buf: Vec<u8>,
}

impl VersionReader {
    /// The bytes read so far.
    pub closed spec fn bytes(&self) -> Seq<u8> {
        self.buf@
    }

    pub fn new() -> (r: Self)
        ensures
            r.bytes() == Seq::<u8>::empty(),
    {
        VersionReader { buf: Vec::new() }
    }

    /// Take the next byte. `None` while the line goes on; at CR LF the
    /// version without them, or the error: a line over 255 bytes, one that
    /// is not UTF-8, or a version other than SSH-2.0.
    pub fn push_byte(&mut self, byte: u8) -> (r: Option<SshResult<String>>)
        ensures
            final(self).bytes() == old(self).bytes().push(byte),
            version_answer(r, version_read(old(self).bytes().push(byte))),
    {
        self.buf.push(byte);
        let n = self.buf.len();
        if n > 255 {
            return Some(Err(SshError::Protocol("Version string too long".to_string())));
        }
        if n < 2 || self.buf[n - 2] != 13 || self.buf[n - 1] != 10 {
            return None;
        }
        let line = vstd::slice::slice_to_vec(vstd::slice::slice_subrange(self.buf.as_slice(), 0, n - 2));
        match string_from_utf8(line) {
            None => Some(Err(SshError::Protocol("Invalid UTF-8 in version string".to_string()))),
            Some(version) => {
                let ok = version.unicode_len() >= 8 && text_eq(
                    version.as_str().substring_char(0, 8),
                    "SSH-2.0-",
                );
                if ok {
                    Some(Ok(version))
                } else {
                    let mut m = String::from_str("Unsupported protocol version: ");
                    m.append(version.as_str());
                    Some(Err(SshError::Protocol(m)))
                }
            },
        }
    }
}

/// What one side announces, the other reads back: feeding the bytes of
/// `version_line(v)` to a version reader one at a time, it waits until the
/// last byte and then gives `v`, for an SSH-2.0 version whose line fits in
/// 255 bytes and holds no CR before its end.
pub proof fn lemma_version_line_reads_back(v: Seq<char>)
    requires
        is_ssh2_version(v),
        encode_utf8(v).len() + 2 <= 255,
        forall|i: int| 0 <= i < encode_utf8(v).len() ==> encode_utf8(v)[i] != 13u8,
    ensures
        ({
            let b = encode_utf8(v) + seq![13u8, 10u8];
            &&& forall|k: int| 1 <= k < b.len() ==> #[trigger] version_read(b.subrange(0, k)) == VersionRead::More
            &&& version_read(b) == VersionRead::Version(v)
        }),
{
    let e = encode_utf8(v);
    let b = e + seq![13u8, 10u8];
    assert forall|k: int| 1 <= k < b.len() implies #[trigger] version_read(b.subrange(0, k))
        == VersionRead::More by {
        let p = b.subrange(0, k);
        if k >= 2 {
            assert(p[k - 2] == b[k - 2]);
            assert(k - 2 < e.len());
            assert(b[k - 2] == e[k - 2]);
        }
    }
    assert(b.subrange(0, b.len() - 2) =~= e);
    vstd::utf8::encode_utf8_valid_utf8(v);
    vstd::utf8::encode_utf8_decode_utf8(v);
}

} // verus!
