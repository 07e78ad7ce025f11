//! AES-256-CTR encryption, HMAC-SHA256 and key derivation for the SSH
//! transport (RFC 4253 sections 6.3, 6.4 and 7.2).
use vstd::prelude::*;

use aes::Aes256;
use ctr::cipher::{KeyIvInit, StreamCipher, StreamCipherSeek};
use hmac::{Hmac, Mac};
use sha2::{Digest, Sha256};

use crate::error::{text_with_number, decimal_text, SshError, SshResult};
use crate::packet::codec::{ssh_mpint, SshBuf, append_bytes};

verus! {

// ---------------------------------------------------------------------------
// AES-256 in counter mode
// ---------------------------------------------------------------------------

/// The keystream byte at position `index` of AES-256-CTR (128-bit big-endian
/// counter) under `key` and initial counter block `iv`.
pub uninterp spec fn aes256_ctr_keystream(key: Seq<u8>, iv: Seq<u8>, index: u64) -> u8;

/// `data` XORed with the keystream from position `pos` on.
pub open spec fn ctr_xor(data: Seq<u8>, key: Seq<u8>, iv: Seq<u8>, pos: u64) -> Seq<u8> {
    Seq::new(data.len(), |i: int| data[i] ^ aes256_ctr_keystream(key, iv, (pos + i) as u64))
}

/// Calls `ctr::Ctr128BE::<aes::Aes256>::new`, `seek` and `apply_keystream`
/// (ctr, aes): XORs `data` in place with the keystream of `key` and `iv`,
/// starting at byte position `pos`. Claims exactly that, with the keystream
/// named by `aes256_ctr_keystream`.
#[verifier::external_body]
fn aes256_ctr_apply(key: &[u8], iv: &[u8], pos: u64, data: &mut [u8])
    requires
        key@.len() == 32,
        iv@.len() == 16,
        pos + old(data)@.len() <= u64::MAX,
    ensures
        final(data)@.len() == old(data)@.len(),
        forall|i: int|
            0 <= i < old(data)@.len() ==> #[trigger] final(data)@[i] == old(data)@[i]
                ^ aes256_ctr_keystream(key@, iv@, (pos + i) as u64),
{
    let mut cipher = ctr::Ctr128BE::<Aes256>::new(key.into(), iv.into());
    cipher.seek(pos);
    cipher.apply_keystream(data);
}

/// An AES-256-CTR cipher for one direction: its key, its initial counter
/// block, and how many keystream bytes it has used.
pub struct AesCipher {
    key: Vec<u8>,
    iv: Vec<u8>,
    pos: u64,
}

impl AesCipher {
    #[verifier::type_invariant]
    spec fn sizes_ok(self) -> bool {
        self.key@.len() == 32 && self.iv@.len() == 16
    }

    pub closed spec fn key(&self) -> Seq<u8> {
        self.key@
    }

    pub closed spec fn iv(&self) -> Seq<u8> {
        self.iv@
    }

    /// The number of keystream bytes used so far.
    pub closed spec fn position(&self) -> u64 {
        self.pos
    }

    /// Create a new AES-256-CTR cipher with key (32 bytes) and IV (16 bytes).
    pub fn new(key: &[u8], iv: &[u8]) -> (r: SshResult<Self>)
        ensures
            (r is Ok) <==> (key@.len() == 32 && iv@.len() == 16),
            r matches Ok(c) ==> c.key() == key@ && c.iv() == iv@ && c.position() == 0,
            key@.len() != 32 ==> (r matches Err(SshError::Encryption(m))
                && m@ == "AES-256 key must be 32 bytes, got "@ + decimal_text(key@.len() as u64)),
            key@.len() == 32 && iv@.len() != 16 ==> (r matches Err(SshError::Encryption(m))
                && m@ == "AES IV must be 16 bytes, got "@ + decimal_text(iv@.len() as u64)),
    {
        if key.len() != 32 {
            let m = text_with_number("AES-256 key must be 32 bytes, got ", key.len() as u64);
            return Err(SshError::Encryption(m));
        }
        if iv.len() != 16 {
            let m = text_with_number("AES IV must be 16 bytes, got ", iv.len() as u64);
            return Err(SshError::Encryption(m));
        }
        Ok(AesCipher {
            key: vstd::slice::slice_to_vec(key),
            iv: vstd::slice::slice_to_vec(iv),
            pos: 0,
        })
    }

    /// The number of keystream bytes used so far.
    pub fn used(&self) -> (r: u64)
        ensures
            r == self.position(),
    {
        self.pos
    }

    /// Encrypt or decrypt data in-place (CTR mode is symmetric).
    pub fn apply(&mut self, data: &mut [u8])
        requires
            old(self).position() + old(data)@.len() <= u64::MAX,
        ensures
            final(data)@ == ctr_xor(old(data)@, old(self).key(), old(self).iv(), old(self).position()),
            final(self).key() == old(self).key(),
            final(self).iv() == old(self).iv(),
            final(self).position() == old(self).position() + old(data)@.len(),
    {
        proof {
            use_type_invariant(&*self);
        }
        aes256_ctr_apply(self.key.as_slice(), self.iv.as_slice(), self.pos, data);
        assert(data@ =~= ctr_xor(old(data)@, self.key@, self.iv@, self.pos));
        self.pos = self.pos + data.len() as u64;
    }
}

/// CTR mode is its own inverse: applying the same keystream twice gives the
/// data back.
pub proof fn lemma_ctr_xor_involution(data: Seq<u8>, key: Seq<u8>, iv: Seq<u8>, pos: u64)
    ensures
        ctr_xor(ctr_xor(data, key, iv, pos), key, iv, pos) == data,
{
    let once = ctr_xor(data, key, iv, pos);
    let twice = ctr_xor(once, key, iv, pos);
    assert forall|i: int| 0 <= i < data.len() implies #[trigger] twice[i] == data[i] by {
        let k = aes256_ctr_keystream(key, iv, (pos + i) as u64);
        let d = data[i];
        assert((d ^ k) ^ k == d) by (bit_vector);
    }
    assert(twice =~= data);
}

/// Processing data in two pieces, the second from where the first ended,
/// gives what processing it whole gives.
pub proof fn lemma_ctr_xor_split(a: Seq<u8>, b: Seq<u8>, key: Seq<u8>, iv: Seq<u8>, pos: u64)
    requires
        pos + a.len() + b.len() <= u64::MAX,
    ensures
        ctr_xor(a + b, key, iv, pos) == ctr_xor(a, key, iv, pos) + ctr_xor(
            b,
            key,
            iv,
            (pos + a.len()) as u64,
        ),
{
    let lhs = ctr_xor(a + b, key, iv, pos);
    let rhs = ctr_xor(a, key, iv, pos) + ctr_xor(b, key, iv, (pos + a.len()) as u64);
    assert forall|i: int| 0 <= i < lhs.len() implies #[trigger] lhs[i] == rhs[i] by {
        if i >= a.len() {
            assert((pos + a.len()) as u64 + (i - a.len()) == pos + i);
        }
    }
    assert(lhs =~= rhs);
}

/// Holds a matched pair of ciphers for bidirectional encrypted communication.
pub struct CipherPair {
    pub encrypt: AesCipher,
    pub decrypt: AesCipher,
}

impl CipherPair {
    pub fn new(enc_key: &[u8], enc_iv: &[u8], dec_key: &[u8], dec_iv: &[u8]) -> (r: SshResult<Self>)
        ensures
            (r is Ok) <==> (enc_key@.len() == 32 && enc_iv@.len() == 16 && dec_key@.len() == 32
                && dec_iv@.len() == 16),
            r matches Ok(p) ==> {
                &&& p.encrypt.key() == enc_key@
                &&& p.encrypt.iv() == enc_iv@
                &&& p.encrypt.position() == 0
                &&& p.decrypt.key() == dec_key@
                &&& p.decrypt.iv() == dec_iv@
                &&& p.decrypt.position() == 0
            },
            r matches Err(e) ==> e is Encryption,
    {
        let encrypt = AesCipher::new(enc_key, enc_iv)?;
        let decrypt = AesCipher::new(dec_key, dec_iv)?;
        Ok(CipherPair { encrypt, decrypt })
    }
}

// ---------------------------------------------------------------------------
// HMAC-SHA256
// ---------------------------------------------------------------------------

/// The HMAC-SHA256 tag of `data` under `key`.
pub uninterp spec fn hmac_sha256_tag(key: Seq<u8>, data: Seq<u8>) -> Seq<u8>;

/// Calls `Hmac::<Sha256>::new_from_slice`, `update` and `finalize` (hmac,
/// sha2): the 32-byte HMAC-SHA256 tag of `data` under `key`. HMAC takes keys
/// of any length, so the construction cannot fail. Claims that the result is
/// the tag named by `hmac_sha256_tag`, 32 bytes long.
#[verifier::external_body]
fn hmac_sha256(key: &[u8], data: &[u8]) -> (r: Vec<u8>)
    ensures
        r@ == hmac_sha256_tag(key@, data@),
        r@.len() == 32,
{
    let mut mac = <Hmac<Sha256> as Mac>::new_from_slice(key).expect("HMAC accepts any key length");
    mac.update(data);
    mac.finalize().into_bytes().to_vec()
}

/// Calls `Hmac::<Sha256>::new_from_slice`, `update` and `verify_slice`
/// (hmac, sha2, digest): whether `expected` is the tag of `data` under `key`
/// (`verify_slice` refuses a tag of another length than 32 bytes, and
/// compares the bytes in constant time). Claims exactly that equality.
#[verifier::external_body]
fn hmac_sha256_verify(key: &[u8], data: &[u8], expected: &[u8]) -> (r: bool)
    ensures
        r == (expected@ == hmac_sha256_tag(key@, data@)),
{
    let mut mac = <Hmac<Sha256> as Mac>::new_from_slice(key).expect("HMAC accepts any key length");
    mac.update(data);
    mac.verify_slice(expected).is_ok()
}

/// Compute HMAC-SHA256 over data with the given key.
pub fn compute_hmac(key: &[u8], data: &[u8]) -> (r: Vec<u8>)
    ensures
        r@ == hmac_sha256_tag(key@, data@),
        r@.len() == 32,
{
    hmac_sha256(key, data)
}

/// Verify HMAC-SHA256. Returns Ok(()) or Err(MacMismatch).
pub fn verify_hmac(key: &[u8], data: &[u8], expected: &[u8]) -> (r: SshResult<()>)
    ensures
        (r is Ok) <==> expected@ == hmac_sha256_tag(key@, data@),
        r matches Err(e) ==> e is MacMismatch,
{
    if hmac_sha256_verify(key, data, expected) {
        Ok(())
    } else {
        Err(SshError::MacMismatch)
    }
}

// ---------------------------------------------------------------------------
// Key derivation
// ---------------------------------------------------------------------------

/// The SHA-256 digest of `data`.
pub uninterp spec fn sha256_digest(data: Seq<u8>) -> Seq<u8>;

/// Calls `sha2::Sha256::digest` (sha2): the 32-byte SHA-256 digest of
/// `data`. Claims that the result is the digest named by `sha256_digest`, 32
/// bytes long.
#[verifier::external_body]
pub(crate) fn sha256(data: &[u8]) -> (r: Vec<u8>)
    ensures
        r@ == sha256_digest(data@),
        r@.len() == 32,
{
    Sha256::digest(data).to_vec()
}

/// `K1 || K2 || ... || Kn` with `K1 = HASH(K || H || X || session_id)` and
/// `Kj = HASH(K || H || K1 || ... || K(j-1))`, where `k` is K already
/// encoded as an mpint.
pub open spec fn derive_rounds(k: Seq<u8>, h: Seq<u8>, key_char: u8, session_id: Seq<u8>, n: nat) -> Seq<u8>
    decreases n,
{
    if n == 0 {
        Seq::empty()
    } else if n == 1 {
        sha256_digest(k + h + seq![key_char] + session_id)
    } else {
        let prev = derive_rounds(k, h, key_char, session_id, (n - 1) as nat);
        prev + sha256_digest(k + h + prev)
    }
}

/// How many hash rounds give at least `needed` bytes (at least one round).
pub open spec fn rounds_for(needed: nat) -> nat {
    if needed <= 32 {
        1
    } else {
        ((needed + 31) / 32) as nat
    }
}

/// The first `needed` bytes of key material derived from the shared secret,
/// the exchange hash, the key letter and the session id.
pub open spec fn derived_key(secret: Seq<u8>, h: Seq<u8>, key_char: u8, session_id: Seq<u8>, needed: nat) -> Seq<u8> {
    derive_rounds(ssh_mpint(secret), h, key_char, session_id, rounds_for(needed)).subrange(0, needed as int)
}

/// Whether the hash rounds behind `derived_key` give at least `needed` bytes
/// (they do whenever each digest has its 32 bytes).
pub open spec fn enough_material(secret: Seq<u8>, h: Seq<u8>, key_char: u8, session_id: Seq<u8>, needed: nat) -> bool {
    derive_rounds(ssh_mpint(secret), h, key_char, session_id, rounds_for(needed)).len() >= needed
}

/// Encode bytes as an SSH mpint for hashing (uint32 length prefix + data with
/// sign handling).
fn encode_mpint_for_hash(data: &[u8]) -> (r: Vec<u8>)
    requires
        data@.len() < usize::MAX,
    ensures
        r@ == ssh_mpint(data@),
{
    let mut buf = Vec::new();
    SshBuf::write_mpint(&mut buf, data);
    assert(buf@ =~= ssh_mpint(data@));
    buf
}

/// Derive session keys from shared secret and exchange hash per RFC 4253 §7.2.
///
/// ```text
///   K1 = HASH(K || H || X || session_id)
///   K2 = HASH(K || H || K1)
///   key = K1 || K2 || ...
/// ```
/// Where X is one of 'A'..'F' identifying the key purpose.
pub fn derive_key(
    shared_secret: &[u8],
    exchange_hash: &[u8],
    key_char: u8,
    session_id: &[u8],
    needed: usize,
) -> (r: Vec<u8>)
    requires
        shared_secret@.len() < usize::MAX,
    ensures
        r@ == derived_key(shared_secret@, exchange_hash@, key_char, session_id@, needed as nat),
        r@.len() == needed,
        enough_material(shared_secret@, exchange_hash@, key_char, session_id@, needed as nat),
        forall|j: nat|
            j <= needed ==> r@.subrange(0, j as int) == #[trigger] derived_key(
                shared_secret@,
                exchange_hash@,
                key_char,
                session_id@,
                j,
            ),
{
    let k_mpint = encode_mpint_for_hash(shared_secret);
    let ghost k = k_mpint@;
    let ghost h = exchange_hash@;
    let ghost sid = session_id@;
    let mut input: Vec<u8> = Vec::new();
    append_bytes(&mut input, k_mpint.as_slice());
    append_bytes(&mut input, exchange_hash);
    input.push(key_char);
    append_bytes(&mut input, session_id);
    assert(input@ =~= k + h + seq![key_char] + sid);
    let mut key = sha256(input.as_slice());
    let mut rounds: usize = 1;
    assert(key@ == derive_rounds(k, h, key_char, sid, 1));
    while key.len() < needed
        invariant
            rounds >= 1,
            key@.len() == 32 * rounds,
            key@ == derive_rounds(k, h, key_char, sid, rounds as nat),
            k == k_mpint@,
            h == exchange_hash@,
            rounds == 1 || 32 * (rounds - 1) < needed,
            forall|i: nat| i <= rounds ==> (#[trigger] derive_rounds(k, h, key_char, sid, i)).len() == 32 * i,
        decreases needed + 32 - key@.len(),
    {
        let mut round_input: Vec<u8> = Vec::new();
        append_bytes(&mut round_input, k_mpint.as_slice());
        append_bytes(&mut round_input, exchange_hash);
        append_bytes(&mut round_input, key.as_slice());
        let k_n = sha256(round_input.as_slice());
        let ghost prev = key@;
        append_bytes(&mut key, k_n.as_slice());
        assert(key@.len() == prev.len() + 32);
        rounds = rounds + 1;
        assert(round_input@ =~= k + h + prev);
        assert(key@ =~= derive_rounds(k, h, key_char, sid, rounds as nat));
        assert forall|i: nat| i <= rounds implies (#[trigger] derive_rounds(k, h, key_char, sid, i)).len()
            == 32 * i by {
            if i == rounds {
            }
        }
    }
    proof {
        assert(rounds as nat == rounds_for(needed as nat)) by (nonlinear_arith)
            requires
                rounds >= 1,
                key@.len() == 32 * rounds,
                key@.len() >= needed,
                rounds == 1 || 32 * (rounds - 1) < needed,
        ;
    }
    key.truncate(needed);
    proof {
        assert forall|j: nat| j <= needed implies key@.subrange(0, j as int) == #[trigger] derived_key(
            shared_secret@,
            exchange_hash@,
            key_char,
            session_id@,
            j,
        ) by {
            let rj = rounds_for(j);
            assert(rj <= rounds && 32 * rj >= j) by (nonlinear_arith)
                requires
                    j <= needed,
                    rounds as nat == rounds_for(needed as nat),
                    rj == (if j <= 32 { 1 } else { (j + 31) / 32 }),
                    rounds == (if needed <= 32 { 1 } else { (needed + 31) / 32 }),
            ;
            assert(enough_material(shared_secret@, exchange_hash@, key_char, session_id@, j));
            lemma_derived_key_prefix(shared_secret@, exchange_hash@, key_char, session_id@, j, needed as nat);
        }
    }
    key
}

/// Key material for a shorter request is a prefix of the material for a
/// longer one (with the same secret, hash, letter and session id).
pub proof fn lemma_derived_key_prefix(
    secret: Seq<u8>,
    h: Seq<u8>,
    key_char: u8,
    session_id: Seq<u8>,
    n: nat,
    m: nat,
)
    requires
        n <= m,
        enough_material(secret, h, key_char, session_id, n),
        enough_material(secret, h, key_char, session_id, m),
    ensures
        derived_key(secret, h, key_char, session_id, n) == derived_key(secret, h, key_char, session_id, m).subrange(
            0,
            n as int,
        ),
{
    let k = ssh_mpint(secret);
    let rn = rounds_for(n);
    let rm = rounds_for(m);
    assert(rn <= rm) by (nonlinear_arith)
        requires
            n <= m,
            rn == (if n <= 32 { 1 } else { (n + 31) / 32 }),
            rm == (if m <= 32 { 1 } else { (m + 31) / 32 }),
    ;
    lemma_derive_rounds_prefix(k, h, key_char, session_id, rn, rm);
    let a = derive_rounds(k, h, key_char, session_id, rn);
    let b = derive_rounds(k, h, key_char, session_id, rm);
    assert(a.subrange(0, n as int) =~= b.subrange(0, m as int).subrange(0, n as int));
}

/// Fewer rounds give a prefix of more rounds.
pub proof fn lemma_derive_rounds_prefix(k: Seq<u8>, h: Seq<u8>, key_char: u8, session_id: Seq<u8>, n: nat, m: nat)
    requires
        n <= m,
    ensures
        derive_rounds(k, h, key_char, session_id, n).len() <= derive_rounds(k, h, key_char, session_id, m).len(),
        derive_rounds(k, h, key_char, session_id, n) == derive_rounds(k, h, key_char, session_id, m).subrange(
            0,
            derive_rounds(k, h, key_char, session_id, n).len() as int,
        ),
    decreases m - n,
{
    let a = derive_rounds(k, h, key_char, session_id, n);
    if n == m {
        assert(a.subrange(0, a.len() as int) =~= a);
    } else {
        lemma_derive_rounds_prefix(k, h, key_char, session_id, n, (m - 1) as nat);
        let b = derive_rounds(k, h, key_char, session_id, (m - 1) as nat);
        let c = derive_rounds(k, h, key_char, session_id, m);
        if m == 1 {
            assert(n == 0);
            assert(a =~= c.subrange(0, 0));
        } else {
            assert(c == b + sha256_digest(k + h + b));
            assert(c.subrange(0, a.len() as int) =~= b.subrange(0, a.len() as int));
        }
    }
}

} // verus!
