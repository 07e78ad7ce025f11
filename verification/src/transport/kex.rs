//! SSH-2 key exchange using Curve25519 (curve25519-sha256, RFC 8731): the
//! ephemeral key pairs, the exchange hash and the KEXINIT payload.
use vstd::prelude::*;

use vstd::utf8::encode_utf8;

use crate::crypto::{compute_hmac, derive_key, derived_key, hmac_sha256_tag, sha256, sha256_digest, CipherPair};
use crate::error::{SshError, SshResult};
use crate::packet::codec::{
    random_bytes, read_string_at, ssh_bool, ssh_mpint, ssh_name_list, ssh_string, ssh_utf8, u32_be, append_bytes,
    Cursor, SshBuf, SshPacket,
};
use crate::packet::types::MessageType;
use crate::session::SessionKeys;
use crate::transport::io::{key_of, recv_cipher, send_cipher};

verus! {

/// Supported key exchange algorithms.
pub const KEX_ALGORITHMS: [&'static str; 1] = ["curve25519-sha256"];

/// Supported host key algorithms.
pub const HOST_KEY_ALGORITHMS: [&'static str; 2] = ["ssh-ed25519", "rsa-sha2-256"];

/// Supported encryption algorithms.
pub const ENCRYPTION_ALGORITHMS: [&'static str; 2] = ["aes256-ctr", "aes128-ctr"];

/// Supported MAC algorithms.
pub const MAC_ALGORITHMS: [&'static str; 1] = ["hmac-sha2-256"];

/// Supported compression algorithms.
pub const COMPRESSION_ALGORITHMS: [&'static str; 1] = ["none"];

/// The X25519 base point, u = 9, as 32 little-endian bytes.
pub open spec fn x25519_basepoint() -> Seq<u8> {
    seq![9u8] + Seq::new(31, |i: int| 0u8)
}

/// The X25519 function of RFC 7748: the scalar `k` (clamped) times the
/// point with u-coordinate `u`, as 32 bytes.
pub uninterp spec fn x25519_result(k: Seq<u8>, u: Seq<u8>) -> Seq<u8>;

/// Whether `public` is the X25519 public value of the 32-byte `secret`, and
/// agrees with every other key pair: the other secret applied to `public`
/// gives what `secret` applied to the other public value gives.
pub open spec fn is_key_pair(secret: Seq<u8>, public: Seq<u8>) -> bool {
    &&& secret.len() == 32
    &&& public == x25519_result(secret, x25519_basepoint())
    &&& forall|j: Seq<u8>|
        j.len() == 32 ==> #[trigger] x25519_result(j, public) == x25519_result(
            secret,
            x25519_result(j, x25519_basepoint()),
        )
}

/// Calls `x25519_dalek::x25519` (x25519-dalek): the scalar `k`, clamped,
/// times the point `u`. Claims that the result is `x25519_result(k, u)`, and,
/// when `u` is the base point, the Diffie-Hellman agreement that the
/// function's documentation shows: any other scalar applied to the result
/// equals `k` applied to that scalar's own public value.
#[verifier::external_body]
fn x25519_apply(k: [u8; 32], u: [u8; 32]) -> (r: [u8; 32])
    ensures
        r@ == x25519_result(k@, u@),
        u@ == x25519_basepoint() ==> forall|j: Seq<u8>|
            j.len() == 32 ==> #[trigger] x25519_result(j, r@) == x25519_result(
                k@,
                x25519_result(j, x25519_basepoint()),
            ),
{
    x25519_dalek::x25519(k, u)
}

/// The base point as bytes.
fn basepoint_bytes() -> (r: [u8; 32])
    ensures
        r@ == x25519_basepoint(),
{
    let mut b = [0u8; 32];
    b.set(0, 9u8);
    assert(b@ =~= x25519_basepoint());
    b
}

/// A fresh ephemeral key pair: 32 random secret bytes and their public value.
fn new_key_pair() -> (r: ([u8; 32], [u8; 32]))
    ensures
        is_key_pair(r.0@, r.1@),
{
    let bytes = random_bytes(32);
    let secret = key_array(bytes.as_slice());
    let public = x25519_apply(secret, basepoint_bytes());
    (secret, public)
}

/// Key pairs agree: a client and a server holding each other's public
/// values reach the same shared secret.
pub proof fn lemma_shared_secrets_agree(
    client_secret: Seq<u8>,
    client_public: Seq<u8>,
    server_secret: Seq<u8>,
    server_public: Seq<u8>,
)
    requires
        is_key_pair(client_secret, client_public),
        is_key_pair(server_secret, server_public),
    ensures
        x25519_result(client_secret, server_public) == x25519_result(server_secret, client_public),
{
    assert(x25519_result(server_secret, client_public) == x25519_result(
        client_secret,
        x25519_result(server_secret, x25519_basepoint()),
    ));
}

/// Result of Diffie-Hellman key exchange on one side.
pub struct KexResult {
    /// The shared secret K (raw bytes, not yet mpint-encoded).
    pub shared_secret: Vec<u8>,
    /// The exchange hash H = SHA-256(...).
    pub exchange_hash: Vec<u8>,
}

/// What the exchange hash is taken over:
/// `V_C || V_S || I_C || I_S || K_S || e || f || K`, the first seven as SSH
/// strings and the shared secret K as an mpint.
pub open spec fn exchange_hash_input(
    client_version: Seq<char>,
    server_version: Seq<char>,
    client_kexinit: Seq<u8>,
    server_kexinit: Seq<u8>,
    server_host_key_blob: Seq<u8>,
    client_ephemeral_pub: Seq<u8>,
    server_ephemeral_pub: Seq<u8>,
    shared_secret: Seq<u8>,
) -> Seq<u8> {
    ssh_utf8(client_version) + ssh_utf8(server_version) + ssh_string(client_kexinit) + ssh_string(
        server_kexinit,
    ) + ssh_string(server_host_key_blob) + ssh_string(client_ephemeral_pub) + ssh_string(
        server_ephemeral_pub,
    ) + ssh_mpint(shared_secret)
}

/// Compute the exchange hash H per RFC 4253 §8 / RFC 8731:
/// `H = SHA-256(V_C || V_S || I_C || I_S || K_S || e || f || K)`.
fn compute_exchange_hash(
    client_version: &str,
    server_version: &str,
    client_kexinit: &[u8],
    server_kexinit: &[u8],
    server_host_key_blob: &[u8],
    client_ephemeral_pub: &[u8; 32],
    server_ephemeral_pub: &[u8; 32],
    shared_secret: &[u8],
) -> (r: Vec<u8>)
    requires
        shared_secret@.len() < usize::MAX,
    ensures
        r@ == sha256_digest(
            exchange_hash_input(
                client_version@,
                server_version@,
                client_kexinit@,
                server_kexinit@,
                server_host_key_blob@,
                client_ephemeral_pub@,
                server_ephemeral_pub@,
                shared_secret@,
            ),
        ),
        r@.len() == 32,
{
    let mut buf = Vec::new();
    SshBuf::write_utf8(&mut buf, client_version);
    SshBuf::write_utf8(&mut buf, server_version);
    SshBuf::write_string(&mut buf, client_kexinit);
    SshBuf::write_string(&mut buf, server_kexinit);
    SshBuf::write_string(&mut buf, server_host_key_blob);
    SshBuf::write_string(&mut buf, client_ephemeral_pub.as_slice());
    SshBuf::write_string(&mut buf, server_ephemeral_pub.as_slice());
    SshBuf::write_mpint(&mut buf, shared_secret);
    assert(buf@ =~= exchange_hash_input(
        client_version@,
        server_version@,
        client_kexinit@,
        server_kexinit@,
        server_host_key_blob@,
        client_ephemeral_pub@,
        server_ephemeral_pub@,
        shared_secret@,
    ));
    sha256(buf.as_slice())
}

/// Client-side key exchange state.
pub struct KexClient {
    secret: Option<[u8; 32]>,
    pub client_ephemeral_pub: [u8; 32],
}

impl KexClient {
    /// Whether the ephemeral secret is still there to complete the exchange with.
    pub closed spec fn can_complete(&self) -> bool {
        self.secret is Some
    }

    /// The ephemeral public key `e`.
    pub closed spec fn public_key(&self) -> Seq<u8> {
        self.client_ephemeral_pub@
    }

    /// The ephemeral secret (empty once used up).
    pub closed spec fn secret_key(&self) -> Seq<u8> {
        match self.secret {
            Some(k) => k@,
            None => Seq::empty(),
        }
    }

    /// Generate an ephemeral keypair for key exchange.
    pub fn new() -> (r: Self)
        ensures
            r.can_complete(),
            is_key_pair(r.secret_key(), r.public_key()),
    {
        let (secret, public) = new_key_pair();
        KexClient { secret: Some(secret), client_ephemeral_pub: public }
    }

    /// Complete key exchange given the server's ephemeral public key and the
    /// exchange hash inputs: computes the shared secret and exchange hash.
    /// The secret is used up; a second call fails.
    pub fn complete(
        &mut self,
        server_ephemeral_pub: &[u8; 32],
        client_version: &str,
        server_version: &str,
        client_kexinit: &[u8],
        server_kexinit: &[u8],
        server_host_key_blob: &[u8],
    ) -> (r: SshResult<KexResult>)
        ensures
            (r is Ok) <==> old(self).can_complete(),
            !final(self).can_complete(),
            final(self).public_key() == old(self).public_key(),
            r matches Err(e) ==> e is KeyExchange,
            r matches Ok(res) ==> {
                &&& res.shared_secret@ == x25519_result(old(self).secret_key(), server_ephemeral_pub@)
                &&& res.shared_secret@.len() == 32
                &&& res.exchange_hash@ == sha256_digest(
                    exchange_hash_input(
                        client_version@,
                        server_version@,
                        client_kexinit@,
                        server_kexinit@,
                        server_host_key_blob@,
                        old(self).public_key(),
                        server_ephemeral_pub@,
                        res.shared_secret@,
                    ),
                )
            },
    {
        let secret = match self.secret.take() {
            Some(s) => s,
            None => {
                return Err(SshError::KeyExchange("Key exchange already completed".to_string()));
            },
        };
        let shared = x25519_apply(secret, *server_ephemeral_pub);
        let mut shared_bytes: Vec<u8> = Vec::new();
        append_bytes(&mut shared_bytes, shared.as_slice());
        assert(shared_bytes@ =~= shared@);
        let exchange_hash = compute_exchange_hash(
            client_version,
            server_version,
            client_kexinit,
            server_kexinit,
            server_host_key_blob,
            &self.client_ephemeral_pub,
            server_ephemeral_pub,
            shared_bytes.as_slice(),
        );
        Ok(KexResult { shared_secret: shared_bytes, exchange_hash })
    }
}

/// Server-side key exchange state.
pub struct KexServer {
    secret: Option<[u8; 32]>,
    pub server_ephemeral_pub: [u8; 32],
}

impl KexServer {
    /// Whether the ephemeral secret is still there to complete the exchange with.
    pub closed spec fn can_complete(&self) -> bool {
        self.secret is Some
    }

    /// The ephemeral public key `f`.
    pub closed spec fn public_key(&self) -> Seq<u8> {
        self.server_ephemeral_pub@
    }

    /// The ephemeral secret (empty once used up).
    pub closed spec fn secret_key(&self) -> Seq<u8> {
        match self.secret {
            Some(k) => k@,
            None => Seq::empty(),
        }
    }

    pub fn new() -> (r: Self)
        ensures
            r.can_complete(),
            is_key_pair(r.secret_key(), r.public_key()),
    {
        let (secret, public) = new_key_pair();
        KexServer { secret: Some(secret), server_ephemeral_pub: public }
    }

    /// Complete key exchange given the client's ephemeral public key.
    /// The secret is used up; a second call fails.
    pub fn complete(
        &mut self,
        client_ephemeral_pub: &[u8; 32],
        client_version: &str,
        server_version: &str,
        client_kexinit: &[u8],
        server_kexinit: &[u8],
        server_host_key_blob: &[u8],
    ) -> (r: SshResult<KexResult>)
        ensures
            (r is Ok) <==> old(self).can_complete(),
            !final(self).can_complete(),
            final(self).public_key() == old(self).public_key(),
            r matches Err(e) ==> e is KeyExchange,
            r matches Ok(res) ==> {
                &&& res.shared_secret@ == x25519_result(old(self).secret_key(), client_ephemeral_pub@)
                &&& res.shared_secret@.len() == 32
                &&& res.exchange_hash@ == sha256_digest(
                    exchange_hash_input(
                        client_version@,
                        server_version@,
                        client_kexinit@,
                        server_kexinit@,
                        server_host_key_blob@,
                        client_ephemeral_pub@,
                        old(self).public_key(),
                        res.shared_secret@,
                    ),
                )
            },
    {
        let secret = match self.secret.take() {
            Some(s) => s,
            None => {
                return Err(SshError::KeyExchange("Key exchange already completed".to_string()));
            },
        };
        let shared = x25519_apply(secret, *client_ephemeral_pub);
        let mut shared_bytes: Vec<u8> = Vec::new();
        append_bytes(&mut shared_bytes, shared.as_slice());
        assert(shared_bytes@ =~= shared@);
        let exchange_hash = compute_exchange_hash(
            client_version,
            server_version,
            client_kexinit,
            server_kexinit,
            server_host_key_blob,
            client_ephemeral_pub,
            &self.server_ephemeral_pub,
            shared_bytes.as_slice(),
        );
        Ok(KexResult { shared_secret: shared_bytes, exchange_hash })
    }
}

/// Both sides hash the same transcript: when the client and the server hold
/// each other's ephemeral public keys and reach the same shared secret, their
/// exchange hashes are equal.
pub proof fn lemma_exchange_hashes_agree(
    client_version: Seq<char>,
    server_version: Seq<char>,
    client_kexinit: Seq<u8>,
    server_kexinit: Seq<u8>,
    host_key_blob: Seq<u8>,
    client_pub: Seq<u8>,
    server_pub: Seq<u8>,
    client_shared: Seq<u8>,
    server_shared: Seq<u8>,
)
    requires
        client_shared == server_shared,
    ensures
        sha256_digest(
            exchange_hash_input(
                client_version,
                server_version,
                client_kexinit,
                server_kexinit,
                host_key_blob,
                client_pub,
                server_pub,
                client_shared,
            ),
        ) == sha256_digest(
            exchange_hash_input(
                client_version,
                server_version,
                client_kexinit,
                server_kexinit,
                host_key_blob,
                client_pub,
                server_pub,
                server_shared,
            ),
        ),
{
}

/// A client and a server that each completed the exchange with the other's
/// public value reach the same shared secret and the same exchange hash,
/// given the same versions, KEXINIT payloads and host key.
pub proof fn lemma_key_exchange_agrees(
    client_secret: Seq<u8>,
    client_public: Seq<u8>,
    server_secret: Seq<u8>,
    server_public: Seq<u8>,
    client_version: Seq<char>,
    server_version: Seq<char>,
    client_kexinit: Seq<u8>,
    server_kexinit: Seq<u8>,
    host_key_blob: Seq<u8>,
)
    requires
        is_key_pair(client_secret, client_public),
        is_key_pair(server_secret, server_public),
    ensures
        x25519_result(client_secret, server_public) == x25519_result(server_secret, client_public),
        sha256_digest(
            exchange_hash_input(
                client_version,
                server_version,
                client_kexinit,
                server_kexinit,
                host_key_blob,
                client_public,
                server_public,
                x25519_result(client_secret, server_public),
            ),
        ) == sha256_digest(
            exchange_hash_input(
                client_version,
                server_version,
                client_kexinit,
                server_kexinit,
                host_key_blob,
                client_public,
                server_public,
                x25519_result(server_secret, client_public),
            ),
        ),
{
    lemma_shared_secrets_agree(client_secret, client_public, server_secret, server_public);
}

/// The names of an algorithm list.
pub open spec fn names_of(list: Seq<&str>) -> Seq<Seq<char>> {
    list.map_values(|n: &str| n@)
}

/// An SSH_MSG_KEXINIT payload (RFC 4253 §7.1) with the given cookie: the
/// cookie, our algorithm lists (each direction listed), two empty language
/// lists, `first_kex_packet_follows` false and a reserved zero.
pub open spec fn kexinit_payload(cookie: Seq<u8>) -> Seq<u8> {
    cookie + ssh_name_list(names_of(KEX_ALGORITHMS@)) + ssh_name_list(names_of(HOST_KEY_ALGORITHMS@))
        + ssh_name_list(names_of(ENCRYPTION_ALGORITHMS@)) + ssh_name_list(
        names_of(ENCRYPTION_ALGORITHMS@),
    ) + ssh_name_list(names_of(MAC_ALGORITHMS@)) + ssh_name_list(names_of(MAC_ALGORITHMS@))
        + ssh_name_list(names_of(COMPRESSION_ALGORITHMS@)) + ssh_name_list(
        names_of(COMPRESSION_ALGORITHMS@),
    ) + ssh_name_list(Seq::empty()) + ssh_name_list(Seq::empty()) + ssh_bool(false) + u32_be(0)
}

/// Build an SSH_MSG_KEXINIT payload with the given 16-byte cookie.
pub fn build_kexinit_payload_with_cookie(cookie: &[u8]) -> (r: Vec<u8>)
    ensures
        r@ == kexinit_payload(cookie@),
{
    let mut payload = Vec::new();
    append_bytes(&mut payload, cookie);
    SshBuf::write_name_list(&mut payload, KEX_ALGORITHMS.as_slice());
    SshBuf::write_name_list(&mut payload, HOST_KEY_ALGORITHMS.as_slice());
    SshBuf::write_name_list(&mut payload, ENCRYPTION_ALGORITHMS.as_slice());
    SshBuf::write_name_list(&mut payload, ENCRYPTION_ALGORITHMS.as_slice());
    SshBuf::write_name_list(&mut payload, MAC_ALGORITHMS.as_slice());
    SshBuf::write_name_list(&mut payload, MAC_ALGORITHMS.as_slice());
    SshBuf::write_name_list(&mut payload, COMPRESSION_ALGORITHMS.as_slice());
    SshBuf::write_name_list(&mut payload, COMPRESSION_ALGORITHMS.as_slice());
    let no_languages: Vec<&str> = Vec::new();
    SshBuf::write_name_list(&mut payload, no_languages.as_slice());
    SshBuf::write_name_list(&mut payload, no_languages.as_slice());
    SshBuf::write_bool(&mut payload, false);
    SshBuf::write_u32(&mut payload, 0);
    assert(no_languages@.map_values(|n: &str| n@) =~= Seq::<Seq<char>>::empty());
    assert(payload@ =~= kexinit_payload(cookie@));
    payload
}

/// Build an SSH_MSG_KEXINIT payload (RFC 4253 §7.1) with a random cookie.
pub fn build_kexinit_payload() -> (r: Vec<u8>)
    ensures
        exists|cookie: Seq<u8>| cookie.len() == 16 && r@ == #[trigger] kexinit_payload(cookie),
{
    let cookie = random_bytes(16);
    build_kexinit_payload_with_cookie(cookie.as_slice())
}


// ---------------------------------------------------------------------------
// Key exchange messages
// ---------------------------------------------------------------------------

/// The 32 bytes of `v` as an array.
fn key_array(v: &[u8]) -> (r: [u8; 32])
    requires
        v@.len() == 32,
    ensures
        r@ == v@,
{
    let mut a = [0u8; 32];
    let mut i: usize = 0;
    while i < 32
        invariant
            i <= 32,
            v@.len() == 32,
            forall|j: int| 0 <= j < i ==> a@[j] == v@[j],
        decreases 32 - i,
    {
        a[i] = v[i];
        i = i + 1;
    }
    assert(a@ =~= v@);
    a
}

/// A KEXINIT payload as it enters the exchange hash: with its message type byte.
pub fn kexinit_transcript(payload: &[u8]) -> (r: Vec<u8>)
    ensures
        r@ == seq![MessageType::KexInit.code()] + payload@,
{
    let mut v = Vec::new();
    v.push(MessageType::KexInit.to_u8());
    append_bytes(&mut v, payload);
    v
}

/// Build SSH_MSG_KEX_ECDH_INIT carrying the client's ephemeral public key.
pub fn build_ecdh_init(client_ephemeral_pub: &[u8; 32]) -> (r: SshPacket)
    ensures
        r.msg_type == MessageType::KexEcdhInit.code(),
        r.payload@ == ssh_string(client_ephemeral_pub@),
{
    let mut payload = Vec::new();
    SshBuf::write_string(&mut payload, client_ephemeral_pub.as_slice());
    assert(payload@ =~= ssh_string(client_ephemeral_pub@));
    SshPacket::new(MessageType::KexEcdhInit, payload)
}

/// Read the client's ephemeral public key from an SSH_MSG_KEX_ECDH_INIT
/// payload; it must be 32 bytes.
pub fn parse_ecdh_init(payload: &[u8]) -> (r: SshResult<[u8; 32]>)
    ensures
        match read_string_at(payload@, 0).0 {
            None => r matches Err(e) && e is InvalidPacket,
            Some(e) => if e.len() == 32 {
                r matches Ok(k) && k@ == e
            } else {
                r matches Err(SshError::KeyExchange(m)) && m@ == "Invalid client public key length"@
            },
        },
{
    let mut cursor = Cursor::new(payload);
    let e = SshBuf::read_string(&mut cursor)?;
    if e.len() != 32 {
        return Err(SshError::KeyExchange("Invalid client public key length".to_string()));
    }
    Ok(key_array(e.as_slice()))
}

/// The key the simplified host signature is made with.
pub open spec fn host_signature_key() -> Seq<u8> {
    encode_utf8("host-key-secret"@)
}

/// The payload of SSH_MSG_KEX_ECDH_REPLY: host key blob `K_S`, the server's
/// ephemeral key `f`, and the signature of the exchange hash (an HMAC with a
/// fixed key standing in for a host-key signature).
pub open spec fn ecdh_reply_payload(host_key_blob: Seq<u8>, server_pub: Seq<u8>, exchange_hash: Seq<u8>) -> Seq<u8> {
    ssh_string(host_key_blob) + ssh_string(server_pub) + ssh_string(
        hmac_sha256_tag(host_signature_key(), exchange_hash),
    )
}

/// Build SSH_MSG_KEX_ECDH_REPLY.
pub fn build_ecdh_reply(host_key_blob: &[u8], server_ephemeral_pub: &[u8; 32], exchange_hash: &[u8]) -> (r: SshPacket)
    ensures
        r.msg_type == MessageType::KexEcdhReply.code(),
        r.payload@ == ecdh_reply_payload(host_key_blob@, server_ephemeral_pub@, exchange_hash@),
{
    let mut payload = Vec::new();
    SshBuf::write_string(&mut payload, host_key_blob);
    SshBuf::write_string(&mut payload, server_ephemeral_pub.as_slice());
    let signature = compute_hmac("host-key-secret".as_bytes(), exchange_hash);
    SshBuf::write_string(&mut payload, signature.as_slice());
    assert(payload@ =~= ecdh_reply_payload(host_key_blob@, server_ephemeral_pub@, exchange_hash@));
    SshPacket::new(MessageType::KexEcdhReply, payload)
}

/// Read an SSH_MSG_KEX_ECDH_REPLY payload: the host key blob and the
/// server's ephemeral public key, which must be 32 bytes; the signature must
/// be present and is not checked.
pub fn parse_ecdh_reply(payload: &[u8]) -> (r: SshResult<(Vec<u8>, [u8; 32])>)
    ensures
        ({
            let (k, p1) = read_string_at(payload@, 0);
            let (f, p2) = read_string_at(payload@, p1);
            let (sig, p3) = read_string_at(payload@, p2);
            match (k, f, sig) {
                (Some(k), Some(f), Some(_)) => if f.len() == 32 {
                    r matches Ok((kb, fb)) && kb@ == k && fb@ == f
                } else {
                    r matches Err(SshError::KeyExchange(m)) && m@ == "Invalid server public key length"@
                },
                _ => r matches Err(e) && e is InvalidPacket,
            }
        }),
{
    let mut cursor = Cursor::new(payload);
    let host_key_blob = SshBuf::read_string(&mut cursor)?;
    let f = SshBuf::read_string(&mut cursor)?;
    let _signature = SshBuf::read_string(&mut cursor)?;
    if f.len() != 32 {
        return Err(SshError::KeyExchange("Invalid server public key length".to_string()));
    }
    Ok((host_key_blob, key_array(f.as_slice())))
}

/// What the server sends, the client reads: the host key blob and the
/// server's ephemeral key come back out of an ECDH reply, and the client's
/// key out of an ECDH init.
pub proof fn lemma_ecdh_payloads_roundtrip(host_key_blob: Seq<u8>, client_pub: Seq<u8>, server_pub: Seq<u8>, exchange_hash: Seq<u8>)
    requires
        host_key_blob.len() <= crate::packet::types::MAX_PACKET_SIZE,
        client_pub.len() == 32,
        server_pub.len() == 32,
        hmac_sha256_tag(host_signature_key(), exchange_hash).len() == 32,
    ensures
        read_string_at(ssh_string(client_pub), 0).0 == Some(client_pub),
        ({
            let d = ecdh_reply_payload(host_key_blob, server_pub, exchange_hash);
            let (k, p1) = read_string_at(d, 0);
            let (f, p2) = read_string_at(d, p1);
            let (sig, p3) = read_string_at(d, p2);
            k == Some(host_key_blob) && f == Some(server_pub) && sig is Some
        }),
{
    let sig = hmac_sha256_tag(host_signature_key(), exchange_hash);
    assert(ssh_string(client_pub).subrange(0, ssh_string(client_pub).len() as int) =~= ssh_string(client_pub));
    crate::packet::codec::lemma_read_string_of(ssh_string(client_pub), 0, client_pub);
    let d = ecdh_reply_payload(host_key_blob, server_pub, exchange_hash);
    let a = ssh_string(host_key_blob);
    let b = ssh_string(server_pub);
    let c = ssh_string(sig);
    assert(d.subrange(0, a.len() as int) =~= a);
    assert(d.subrange(a.len() as int, (a.len() + b.len()) as int) =~= b);
    assert(d.subrange((a.len() + b.len()) as int, d.len() as int) =~= c);
    crate::packet::codec::lemma_read_string_of(d, 0, host_key_blob);
    crate::packet::codec::lemma_read_string_of(d, a.len() as int, server_pub);
    crate::packet::codec::lemma_read_string_of(d, (a.len() + b.len()) as int, sig);
}

// ---------------------------------------------------------------------------
// Session keys
// ---------------------------------------------------------------------------

/// Which side of the connection a session's keys belong to.
#[derive(Debug, Clone, Copy, PartialEq, Eq, Structural)]
pub enum Role {
    Client,
    Server,
}

/// Key material with letter `c` (RFC 4253 §7.2), the exchange hash standing
/// as the session id of the first key exchange.
pub open spec fn session_key(secret: Seq<u8>, h: Seq<u8>, c: u8, n: nat) -> Seq<u8> {
    derived_key(secret, h, c, h, n)
}

/// The letters of the keys a side uses: outgoing key and IV, incoming key
/// and IV, outgoing and incoming MAC key. Client to server is A (IV), C
/// (key), E (MAC); server to client is B, D, F.
pub open spec fn key_letters(role: Role) -> (u8, u8, u8, u8, u8, u8) {
    match role {
        Role::Client => (67, 65, 68, 66, 69, 70),
        Role::Server => (68, 66, 67, 65, 70, 69),
    }
}

/// Whether `keys` hold the session keys of `role` after a key exchange with
/// shared secret `secret` and exchange hash `h`, with fresh ciphers.
pub open spec fn installed_keys(role: Role, secret: Seq<u8>, h: Seq<u8>, keys: SessionKeys) -> bool {
    let (sk, si, rk, ri, sm, rm) = key_letters(role);
    &&& key_of(keys.session_id) == Some(h)
    &&& send_cipher(keys) == Some((session_key(secret, h, sk, 32), session_key(secret, h, si, 16), 0u64))
    &&& recv_cipher(keys) == Some((session_key(secret, h, rk, 32), session_key(secret, h, ri, 16), 0u64))
    &&& key_of(keys.send_mac_key) == Some(session_key(secret, h, sm, 32))
    &&& key_of(keys.recv_mac_key) == Some(session_key(secret, h, rm, 32))
}

/// Derive the six session keys from a finished key exchange and switch the
/// session to them: the exchange hash becomes the session id, and each side
/// encrypts and MACs with its own direction's keys. Sequence numbers go on.
pub fn install_session_keys(keys: &mut SessionKeys, result: &KexResult, role: Role)
    requires
        result.shared_secret@.len() < usize::MAX,
    ensures
        installed_keys(role, result.shared_secret@, result.exchange_hash@, *final(keys)),
        final(keys).send_seq == old(keys).send_seq,
        final(keys).recv_seq == old(keys).recv_seq,
{
    let k = result.shared_secret.as_slice();
    let h = result.exchange_hash.as_slice();
    let iv_cs = derive_key(k, h, 65u8, h, 16);
    let iv_sc = derive_key(k, h, 66u8, h, 16);
    let enc_key_cs = derive_key(k, h, 67u8, h, 32);
    let enc_key_sc = derive_key(k, h, 68u8, h, 32);
    let mac_key_cs = derive_key(k, h, 69u8, h, 32);
    let mac_key_sc = derive_key(k, h, 70u8, h, 32);
    let (pair, send_mac, recv_mac) = match role {
        Role::Client => (
            CipherPair::new(enc_key_cs.as_slice(), iv_cs.as_slice(), enc_key_sc.as_slice(), iv_sc.as_slice()),
            mac_key_cs,
            mac_key_sc,
        ),
        Role::Server => (
            CipherPair::new(enc_key_sc.as_slice(), iv_sc.as_slice(), enc_key_cs.as_slice(), iv_cs.as_slice()),
            mac_key_sc,
            mac_key_cs,
        ),
    };
    match pair {
        Ok(p) => {
            keys.session_id = Some(vstd::slice::slice_to_vec(h));
            keys.ciphers = Some(p);
            keys.send_mac_key = Some(send_mac);
            keys.recv_mac_key = Some(recv_mac);
        },
        Err(_) => {},
    }
}

/// The two sides' keys pair up: after both install keys from the same shared
/// secret and exchange hash, what the client encrypts and MACs with, the
/// server decrypts and checks with, and the other way round.
pub proof fn lemma_installed_keys_pair_up(secret: Seq<u8>, h: Seq<u8>, client: SessionKeys, server: SessionKeys)
    requires
        installed_keys(Role::Client, secret, h, client),
        installed_keys(Role::Server, secret, h, server),
    ensures
        send_cipher(client) == recv_cipher(server),
        recv_cipher(client) == send_cipher(server),
        key_of(client.send_mac_key) == key_of(server.recv_mac_key),
        key_of(client.recv_mac_key) == key_of(server.send_mac_key),
        key_of(client.session_id) == key_of(server.session_id),
{
}

/// RFC 4253 §7.2 after installing keys: client to server is encrypted with
/// key 'C' and IV 'A' and MACed with key 'E'; server to client with key 'D',
/// IV 'B' and MAC key 'F'. The client sends with the first set and receives
/// with the second, the server the other way round; both ciphers start at
/// the beginning of their keystream, and the exchange hash is the session id.
pub proof fn lemma_installed_keys_follow_rfc4253(role: Role, secret: Seq<u8>, h: Seq<u8>, keys: SessionKeys)
    requires
        installed_keys(role, secret, h, keys),
    ensures
        key_of(keys.session_id) == Some(h),
        role == Role::Client ==> {
            &&& send_cipher(keys) == Some(
                (derived_key(secret, h, 'C' as u8, h, 32), derived_key(secret, h, 'A' as u8, h, 16), 0u64),
            )
            &&& recv_cipher(keys) == Some(
                (derived_key(secret, h, 'D' as u8, h, 32), derived_key(secret, h, 'B' as u8, h, 16), 0u64),
            )
            &&& key_of(keys.send_mac_key) == Some(derived_key(secret, h, 'E' as u8, h, 32))
            &&& key_of(keys.recv_mac_key) == Some(derived_key(secret, h, 'F' as u8, h, 32))
        },
        role == Role::Server ==> {
            &&& send_cipher(keys) == Some(
                (derived_key(secret, h, 'D' as u8, h, 32), derived_key(secret, h, 'B' as u8, h, 16), 0u64),
            )
            &&& recv_cipher(keys) == Some(
                (derived_key(secret, h, 'C' as u8, h, 32), derived_key(secret, h, 'A' as u8, h, 16), 0u64),
            )
            &&& key_of(keys.send_mac_key) == Some(derived_key(secret, h, 'F' as u8, h, 32))
            &&& key_of(keys.recv_mac_key) == Some(derived_key(secret, h, 'E' as u8, h, 32))
        },
{
}

} // verus!
