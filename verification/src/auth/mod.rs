//! SSH-2 user authentication (RFC 4252): password and public key requests,
//! and the server's user database.
use vstd::prelude::*;
use vstd::utf8::encode_utf8;

use crate::error::{SshError, SshResult};
use crate::packet::codec::{
    bytes_eq, lemma_encode_utf8_len, lemma_read_bool_of, lemma_read_string_of, lemma_read_utf8_of,
    read_bool_at, read_string_at, read_utf8_at, ssh_bool, ssh_name_list, ssh_string, ssh_utf8,
    text_eq, Cursor, SshBuf, SshPacket,
};
use crate::packet::types::{MessageType, MAX_PACKET_SIZE};

verus! {

/// A user credential presented for authentication.
#[derive(Debug, Clone)]
pub enum Credential {
    Password(String),
    PublicKey { algorithm: String, key_blob: Vec<u8>, signature: Option<Vec<u8>> },
}

/// The mathematical value of a credential.
pub enum CredentialView {
    Password(Seq<char>),
    PublicKey { algorithm: Seq<char>, key_blob: Seq<u8>, signature: Option<Seq<u8>> },
}

impl View for Credential {
    type V = CredentialView;

    open spec fn view(&self) -> CredentialView {
        match self {
            Credential::Password(p) => CredentialView::Password(p@),
            Credential::PublicKey { algorithm, key_blob, signature } => CredentialView::PublicKey {
                algorithm: algorithm@,
                key_blob: key_blob@,
                signature: match signature {
                    Some(s) => Some(s@),
                    None => None,
                },
            },
        }
    }
}

struct PasswordEntry {
    user: String,
    password: String,
}

struct KeyEntry {
    user: String,
    keys: Vec<Vec<u8>>,
}

spec fn key_views(keys: Seq<Vec<u8>>) -> Seq<Seq<u8>> {
    keys.map_values(|k: Vec<u8>| k@)
}

spec fn pw_index(s: Seq<PasswordEntry>, u: Seq<char>) -> int {
    choose|i: int| 0 <= i < s.len() && s[i].user@ == u
}

spec fn pw_has(s: Seq<PasswordEntry>, u: Seq<char>) -> bool {
    exists|i: int| 0 <= i < s.len() && s[i].user@ == u
}

spec fn pw_unique(s: Seq<PasswordEntry>) -> bool {
    forall|i: int, j: int| 0 <= i < s.len() && 0 <= j < s.len() && i != j ==> s[i].user@ != s[j].user@
}

spec fn pw_view(s: Seq<PasswordEntry>) -> Map<Seq<char>, Seq<char>> {
    Map::new(|u: Seq<char>| pw_has(s, u), |u: Seq<char>| s[pw_index(s, u)].password@)
}

spec fn key_index(s: Seq<KeyEntry>, u: Seq<char>) -> int {
    choose|i: int| 0 <= i < s.len() && s[i].user@ == u
}

spec fn key_has(s: Seq<KeyEntry>, u: Seq<char>) -> bool {
    exists|i: int| 0 <= i < s.len() && s[i].user@ == u
}

spec fn key_unique(s: Seq<KeyEntry>) -> bool {
    forall|i: int, j: int| 0 <= i < s.len() && 0 <= j < s.len() && i != j ==> s[i].user@ != s[j].user@
}

spec fn key_view(s: Seq<KeyEntry>) -> Map<Seq<char>, Seq<Seq<u8>>> {
    Map::new(|u: Seq<char>| key_has(s, u), |u: Seq<char>| key_views(s[key_index(s, u)].keys@))
}

proof fn lemma_pw_lookup(s: Seq<PasswordEntry>, i: int)
    requires
        pw_unique(s),
        0 <= i < s.len(),
    ensures
        pw_view(s).contains_key(s[i].user@),
        pw_view(s)[s[i].user@] == s[i].password@,
{
    assert(pw_has(s, s[i].user@));
    assert(pw_index(s, s[i].user@) == i);
}

proof fn lemma_key_lookup(s: Seq<KeyEntry>, i: int)
    requires
        key_unique(s),
        0 <= i < s.len(),
    ensures
        key_view(s).contains_key(s[i].user@),
        key_view(s)[s[i].user@] == key_views(s[i].keys@),
{
    assert(key_has(s, s[i].user@));
    assert(key_index(s, s[i].user@) == i);
}

/// The server's user database: passwords and authorized public keys by user.
/// Users are looked up by name; the entries are kept as lists with distinct
/// names, whose map view (`password_map`, `key_map`) is what the contracts
/// speak of, since Verus proves nothing of a `HashMap` keyed by `String`.
pub struct UserDatabase {
    passwords: Vec<PasswordEntry>,
    public_keys: Vec<KeyEntry>,
}

impl UserDatabase {
    /// Each user has at most one password entry and one key entry.
    pub closed spec fn wf(&self) -> bool {
        pw_unique(self.passwords@) && key_unique(self.public_keys@)
    }

    /// The password of each password user.
    pub closed spec fn password_map(&self) -> Map<Seq<char>, Seq<char>> {
        pw_view(self.passwords@)
    }

    /// The authorized key blobs of each user, in the order they were added.
    pub closed spec fn key_map(&self) -> Map<Seq<char>, Seq<Seq<u8>>> {
        key_view(self.public_keys@)
    }

    pub fn new() -> (r: Self)
        ensures
            r.wf(),
            r.password_map() == Map::<Seq<char>, Seq<char>>::empty(),
            r.key_map() == Map::<Seq<char>, Seq<Seq<u8>>>::empty(),
    {
        let r = UserDatabase { passwords: Vec::new(), public_keys: Vec::new() };
        assert(r.password_map() =~= Map::<Seq<char>, Seq<char>>::empty());
        assert(r.key_map() =~= Map::<Seq<char>, Seq<Seq<u8>>>::empty());
        r
    }

    fn password_index(&self, username: &str) -> (r: Option<usize>)
        requires
            self.wf(),
        ensures
            match r {
                Some(i) => i < self.passwords@.len() && self.passwords@[i as int].user@ == username@,
                None => !self.password_map().contains_key(username@),
            },
    {
        let mut i: usize = 0;
        while i < self.passwords.len()
            invariant
                i <= self.passwords@.len(),
                forall|j: int| 0 <= j < i ==> self.passwords@[j].user@ != username@,
            decreases self.passwords@.len() - i,
        {
            if text_eq(self.passwords[i].user.as_str(), username) {
                return Some(i);
            }
            i = i + 1;
        }
        None
    }

    fn key_entry_index(&self, username: &str) -> (r: Option<usize>)
        requires
            self.wf(),
        ensures
            match r {
                Some(i) => i < self.public_keys@.len() && self.public_keys@[i as int].user@ == username@,
                None => !self.key_map().contains_key(username@),
            },
    {
        let mut i: usize = 0;
        while i < self.public_keys.len()
            invariant
                i <= self.public_keys@.len(),
                forall|j: int| 0 <= j < i ==> self.public_keys@[j].user@ != username@,
            decreases self.public_keys@.len() - i,
        {
            if text_eq(self.public_keys[i].user.as_str(), username) {
                return Some(i);
            }
            i = i + 1;
        }
        None
    }

    /// Add a user with password authentication (replacing an earlier password).
    pub fn add_password_user(&mut self, username: &str, password: &str)
        requires
            old(self).wf(),
        ensures
            final(self).wf(),
            final(self).password_map() == old(self).password_map().insert(username@, password@),
            final(self).key_map() == old(self).key_map(),
    {
        let ghost s0 = self.passwords@;
        match self.password_index(username) {
            Some(i) => {
                let user = String::from_str(username);
                let entry = PasswordEntry { user, password: String::from_str(password) };
                self.passwords.set(i, entry);
                proof {
                    let s1 = self.passwords@;
                    assert(s1 == s0.update(i as int, entry));
                    assert forall|a: int, b: int|
                        0 <= a < s1.len() && 0 <= b < s1.len() && a != b implies s1[a].user@
                        != s1[b].user@ by {
                        assert(s1[a].user@ == s0[a].user@);
                        assert(s1[b].user@ == s0[b].user@);
                    }
                    let m = pw_view(s0).insert(username@, password@);
                    assert forall|u: Seq<char>| #[trigger] pw_view(s1).contains_key(u) == m.contains_key(u) by {
                        if pw_has(s1, u) {
                            let j = choose|j: int| 0 <= j < s1.len() && s1[j].user@ == u;
                            assert(s0[j].user@ == u);
                        }
                        if pw_has(s0, u) {
                            let j = choose|j: int| 0 <= j < s0.len() && s0[j].user@ == u;
                            assert(s1[j].user@ == u);
                        }
                    }
                    assert forall|u: Seq<char>| pw_view(s1).contains_key(u) implies #[trigger] pw_view(s1)[u]
                        == m[u] by {
                        let j = choose|j: int| 0 <= j < s1.len() && s1[j].user@ == u;
                        lemma_pw_lookup(s1, j);
                        if j != i {
                            assert(s1[j] == s0[j]);
                            lemma_pw_lookup(s0, j);
                        }
                    }
                    assert(pw_view(s1) =~= m);
                }
            },
            None => {
                let entry = PasswordEntry {
                    user: String::from_str(username),
                    password: String::from_str(password),
                };
                self.passwords.push(entry);
                proof {
                    let s1 = self.passwords@;
                    assert(s1 == s0.push(entry));
                    assert(!pw_has(s0, username@));
                    assert forall|a: int, b: int|
                        0 <= a < s1.len() && 0 <= b < s1.len() && a != b implies s1[a].user@
                        != s1[b].user@ by {
                        if a == s0.len() {
                            assert(!(s0[b].user@ == username@));
                        } else if b == s0.len() {
                            assert(!(s0[a].user@ == username@));
                        }
                    }
                    let m = pw_view(s0).insert(username@, password@);
                    assert forall|u: Seq<char>| #[trigger] pw_view(s1).contains_key(u) == m.contains_key(u) by {
                        if pw_has(s1, u) && u != username@ {
                            let j = choose|j: int| 0 <= j < s1.len() && s1[j].user@ == u;
                            assert(s0[j].user@ == u);
                        }
                        if pw_has(s0, u) {
                            let j = choose|j: int| 0 <= j < s0.len() && s0[j].user@ == u;
                            assert(s1[j].user@ == u);
                        }
                        if u == username@ {
                            assert(s1[s0.len() as int].user@ == u);
                        }
                    }
                    assert forall|u: Seq<char>| pw_view(s1).contains_key(u) implies #[trigger] pw_view(s1)[u]
                        == m[u] by {
                        let j = choose|j: int| 0 <= j < s1.len() && s1[j].user@ == u;
                        lemma_pw_lookup(s1, j);
                        if j < s0.len() {
                            lemma_pw_lookup(s0, j);
                        }
                    }
                    assert(pw_view(s1) =~= m);
                }
            },
        }
    }

    /// Add an authorized public key for a user.
    pub fn add_public_key(&mut self, username: &str, key_blob: Vec<u8>)
        requires
            old(self).wf(),
        ensures
            final(self).wf(),
            final(self).password_map() == old(self).password_map(),
            final(self).key_map() == old(self).key_map().insert(
                username@,
                if old(self).key_map().contains_key(username@) {
                    old(self).key_map()[username@]
                } else {
                    Seq::empty()
                }.push(key_blob@),
            ),
    {
        let ghost s0 = self.public_keys@;
        match self.key_entry_index(username) {
            Some(i) => {
                proof {
                    lemma_key_lookup(s0, i as int);
                }
                let entry = &mut self.public_keys[i];
                let ghost k0 = entry.keys@;
                entry.keys.push(key_blob);
                proof {
                    assert(key_views(entry.keys@) =~= key_views(k0).push(key_blob@));
                }
                proof {
                    let s1 = self.public_keys@;
                    assert forall|a: int, b: int|
                        0 <= a < s1.len() && 0 <= b < s1.len() && a != b implies s1[a].user@
                        != s1[b].user@ by {
                        assert(s1[a].user@ == s0[a].user@);
                        assert(s1[b].user@ == s0[b].user@);
                    }
                    let m = key_view(s0).insert(username@, key_views(k0).push(key_blob@));
                    assert forall|u: Seq<char>| #[trigger] key_view(s1).contains_key(u) == m.contains_key(u) by {
                        if key_has(s1, u) {
                            let j = choose|j: int| 0 <= j < s1.len() && s1[j].user@ == u;
                            assert(s0[j].user@ == u);
                        }
                        if key_has(s0, u) {
                            let j = choose|j: int| 0 <= j < s0.len() && s0[j].user@ == u;
                            assert(s1[j].user@ == u);
                        }
                    }
                    assert forall|u: Seq<char>| key_view(s1).contains_key(u) implies #[trigger] key_view(s1)[u]
                        == m[u] by {
                        let j = choose|j: int| 0 <= j < s1.len() && s1[j].user@ == u;
                        lemma_key_lookup(s1, j);
                        if j != i {
                            assert(s1[j] == s0[j]);
                            lemma_key_lookup(s0, j);
                        }
                    }
                    assert(key_view(s1) =~= m);
                }
            },
            None => {
                let mut keys: Vec<Vec<u8>> = Vec::new();
                keys.push(key_blob);
                let entry = KeyEntry { user: String::from_str(username), keys };
                proof {
                    assert(key_views(entry.keys@) =~= Seq::<Seq<u8>>::empty().push(key_blob@));
                }
                self.public_keys.push(entry);
                proof {
                    let s1 = self.public_keys@;
                    assert(s1 == s0.push(entry));
                    assert forall|a: int, b: int|
                        0 <= a < s1.len() && 0 <= b < s1.len() && a != b implies s1[a].user@
                        != s1[b].user@ by {
                        if a == s0.len() {
                            assert(!(s0[b].user@ == username@));
                        } else if b == s0.len() {
                            assert(!(s0[a].user@ == username@));
                        }
                    }
                    let m = key_view(s0).insert(username@, Seq::<Seq<u8>>::empty().push(key_blob@));
                    assert forall|u: Seq<char>| #[trigger] key_view(s1).contains_key(u) == m.contains_key(u) by {
                        if key_has(s1, u) && u != username@ {
                            let j = choose|j: int| 0 <= j < s1.len() && s1[j].user@ == u;
                            assert(s0[j].user@ == u);
                        }
                        if key_has(s0, u) {
                            let j = choose|j: int| 0 <= j < s0.len() && s0[j].user@ == u;
                            assert(s1[j].user@ == u);
                        }
                        if u == username@ {
                            assert(s1[s0.len() as int].user@ == u);
                        }
                    }
                    assert forall|u: Seq<char>| key_view(s1).contains_key(u) implies #[trigger] key_view(s1)[u]
                        == m[u] by {
                        let j = choose|j: int| 0 <= j < s1.len() && s1[j].user@ == u;
                        lemma_key_lookup(s1, j);
                        if j < s0.len() {
                            lemma_key_lookup(s0, j);
                        }
                    }
                    assert(key_view(s1) =~= m);
                }
            },
        }
    }

    /// Whether `password` is the password of `username`.
    pub fn verify_password(&self, username: &str, password: &str) -> (r: bool)
        requires
            self.wf(),
        ensures
            r == (self.password_map().contains_key(username@) && self.password_map()[username@]
                == password@),
    {
        match self.password_index(username) {
            Some(i) => {
                proof {
                    lemma_pw_lookup(self.passwords@, i as int);
                }
                text_eq(self.passwords[i].password.as_str(), password)
            },
            None => false,
        }
    }

    /// Whether `key_blob` is an authorized public key of `username`.
    pub fn is_key_authorized(&self, username: &str, key_blob: &[u8]) -> (r: bool)
        requires
            self.wf(),
        ensures
            r == (self.key_map().contains_key(username@) && self.key_map()[username@].contains(
                key_blob@,
            )),
    {
        match self.key_entry_index(username) {
            Some(i) => {
                proof {
                    lemma_key_lookup(self.public_keys@, i as int);
                }
                let keys = &self.public_keys[i].keys;
                let mut j: usize = 0;
                while j < keys.len()
                    invariant
                        j <= keys@.len(),
                        forall|k: int| 0 <= k < j ==> keys@[k]@ != key_blob@,
                        self.key_map().contains_key(username@),
                        self.key_map()[username@] == key_views(keys@),
                    decreases keys@.len() - j,
                {
                    if bytes_eq(keys[j].as_slice(), key_blob) {
                        proof {
                            assert(key_views(keys@).len() == keys@.len());
                            assert(key_views(keys@)[j as int] == key_blob@);
                            assert(key_views(keys@).contains(key_blob@));
                        }
                        return true;
                    }
                    j = j + 1;
                }
                proof {
                    if key_views(keys@).contains(key_blob@) {
                        let k = choose|k: int| 0 <= k < key_views(keys@).len() && key_views(keys@)[k] == key_blob@;
                        assert(keys@[k]@ == key_blob@);
                    }
                }
                false
            },
            None => false,
        }
    }
}

impl Default for UserDatabase {
    fn default() -> (r: Self)
        ensures
            r.wf(),
            r.password_map() == Map::<Seq<char>, Seq<char>>::empty(),
            r.key_map() == Map::<Seq<char>, Seq<Seq<u8>>>::empty(),
    {
        Self::new()
    }
}

/// Once a password user is added, that password verifies for the user and no
/// other password does (until the password is replaced).
pub proof fn lemma_added_password_verifies(
    before: Map<Seq<char>, Seq<char>>,
    user: Seq<char>,
    password: Seq<char>,
    attempt: Seq<char>,
)
    ensures
        ({
            let after = before.insert(user, password);
            after.contains_key(user) && (after[user] == attempt <==> attempt == password)
        }),
{
}

/// A key added for a user is authorized for that user, and keys authorized
/// before stay authorized.
pub proof fn lemma_added_key_authorized(
    before: Map<Seq<char>, Seq<Seq<u8>>>,
    user: Seq<char>,
    blob: Seq<u8>,
    other: Seq<u8>,
)
    ensures
        ({
            let old_keys = if before.contains_key(user) {
                before[user]
            } else {
                Seq::<Seq<u8>>::empty()
            };
            let after = before.insert(user, old_keys.push(blob));
            &&& after[user].contains(blob)
            &&& old_keys.contains(other) ==> after[user].contains(other)
        }),
{
    let old_keys = if before.contains_key(user) {
        before[user]
    } else {
        Seq::<Seq<u8>>::empty()
    };
    let nk = old_keys.push(blob);
    assert(nk[old_keys.len() as int] == blob);
    if old_keys.contains(other) {
        let k = choose|k: int| 0 <= k < old_keys.len() && old_keys[k] == other;
        assert(nk[k] == other);
    }
}


// ---------------------------------------------------------------------------
// Authentication packets
// ---------------------------------------------------------------------------

/// SSH_MSG_USERAUTH_REQUEST payload for password authentication.
pub open spec fn password_auth_payload(user: Seq<char>, service: Seq<char>, password: Seq<char>) -> Seq<u8> {
    ssh_utf8(user) + ssh_utf8(service) + ssh_utf8("password"@) + ssh_bool(false) + ssh_utf8(password)
}

/// SSH_MSG_USERAUTH_REQUEST payload for public key authentication.
pub open spec fn pubkey_auth_payload(
    user: Seq<char>,
    service: Seq<char>,
    algorithm: Seq<char>,
    key_blob: Seq<u8>,
    signature: Option<Seq<u8>>,
) -> Seq<u8> {
    ssh_utf8(user) + ssh_utf8(service) + ssh_utf8("publickey"@) + ssh_bool(signature is Some)
        + ssh_utf8(algorithm) + ssh_string(key_blob) + match signature {
        Some(sig) => ssh_string(sig),
        None => Seq::empty(),
    }
}

/// Build an SSH_MSG_USERAUTH_REQUEST for password authentication.
pub fn build_password_auth_request(username: &str, service: &str, password: &str) -> (r: SshPacket)
    ensures
        r.msg_type == MessageType::UserAuthRequest.code(),
        r.payload@ == password_auth_payload(username@, service@, password@),
{
    let mut payload = Vec::new();
    SshBuf::write_utf8(&mut payload, username);
    SshBuf::write_utf8(&mut payload, service);
    SshBuf::write_utf8(&mut payload, "password");
    SshBuf::write_bool(&mut payload, false);
    SshBuf::write_utf8(&mut payload, password);
    assert(payload@ =~= password_auth_payload(username@, service@, password@));
    SshPacket::new(MessageType::UserAuthRequest, payload)
}

/// Build an SSH_MSG_USERAUTH_REQUEST for public key authentication.
pub fn build_pubkey_auth_request(
    username: &str,
    service: &str,
    algorithm: &str,
    key_blob: &[u8],
    signature: Option<&[u8]>,
) -> (r: SshPacket)
    ensures
        r.msg_type == MessageType::UserAuthRequest.code(),
        r.payload@ == pubkey_auth_payload(
            username@,
            service@,
            algorithm@,
            key_blob@,
            match signature {
                Some(s) => Some(s@),
                None => None,
            },
        ),
{
    let mut payload = Vec::new();
    SshBuf::write_utf8(&mut payload, username);
    SshBuf::write_utf8(&mut payload, service);
    SshBuf::write_utf8(&mut payload, "publickey");
    SshBuf::write_bool(&mut payload, signature.is_some());
    SshBuf::write_utf8(&mut payload, algorithm);
    SshBuf::write_string(&mut payload, key_blob);
    match signature {
        Some(sig) => {
            SshBuf::write_string(&mut payload, sig);
        },
        None => {},
    }
    assert(payload@ =~= pubkey_auth_payload(
        username@,
        service@,
        algorithm@,
        key_blob@,
        match signature {
            Some(s) => Some(s@),
            None => None,
        },
    ));
    SshPacket::new(MessageType::UserAuthRequest, payload)
}

/// Build an SSH_MSG_USERAUTH_FAILURE response.
pub fn build_auth_failure(methods: &[&str], partial_success: bool) -> (r: SshPacket)
    ensures
        r.msg_type == MessageType::UserAuthFailure.code(),
        r.payload@ == ssh_name_list(methods@.map_values(|m: &str| m@)) + ssh_bool(partial_success),
{
    let mut payload = Vec::new();
    SshBuf::write_name_list(&mut payload, methods);
    SshBuf::write_bool(&mut payload, partial_success);
    assert(payload@ =~= ssh_name_list(methods@.map_values(|m: &str| m@)) + ssh_bool(partial_success));
    SshPacket::new(MessageType::UserAuthFailure, payload)
}

/// Build an SSH_MSG_USERAUTH_SUCCESS response.
pub fn build_auth_success() -> (r: SshPacket)
    ensures
        r.msg_type == MessageType::UserAuthSuccess.code(),
        r.payload@ == Seq::<u8>::empty(),
{
    SshPacket::new(MessageType::UserAuthSuccess, Vec::new())
}

/// Build an SSH_MSG_SERVICE_REQUEST.
pub fn build_service_request(service_name: &str) -> (r: SshPacket)
    ensures
        r.msg_type == MessageType::ServiceRequest.code(),
        r.payload@ == ssh_utf8(service_name@),
{
    let mut payload = Vec::new();
    SshBuf::write_utf8(&mut payload, service_name);
    assert(payload@ =~= ssh_utf8(service_name@));
    SshPacket::new(MessageType::ServiceRequest, payload)
}

/// Build an SSH_MSG_SERVICE_ACCEPT.
pub fn build_service_accept(service_name: &str) -> (r: SshPacket)
    ensures
        r.msg_type == MessageType::ServiceAccept.code(),
        r.payload@ == ssh_utf8(service_name@),
{
    let mut payload = Vec::new();
    SshBuf::write_utf8(&mut payload, service_name);
    assert(payload@ =~= ssh_utf8(service_name@));
    SshPacket::new(MessageType::ServiceAccept, payload)
}

/// The mathematical value of a parsed authentication request.
pub struct AuthRequestView {
    pub username: Seq<char>,
    pub service: Seq<char>,
    pub method: Seq<char>,
    pub credential: CredentialView,
}

/// What parsing a USERAUTH_REQUEST payload gives.
pub enum AuthParse {
    Parsed(AuthRequestView),
    /// The payload ends early or holds a malformed field.
    Malformed,
    /// The method, neither "password" nor "publickey".
    UnsupportedMethod(Seq<char>),
}

/// The credential fields of a password request, read at `p`: a
/// change-password flag (ignored) and the password.
pub open spec fn parse_password_credential(d: Seq<u8>, p: int) -> Option<CredentialView> {
    let (change, p4) = read_bool_at(d, p);
    let (pw, p5) = read_utf8_at(d, p4);
    match (change, pw) {
        (Some(_), Some(pw)) => Some(CredentialView::Password(pw)),
        _ => None,
    }
}

/// The credential fields of a public key request, read at `p`: the
/// has-signature flag, algorithm, key blob, and the signature when flagged.
pub open spec fn parse_pubkey_credential(d: Seq<u8>, p: int) -> Option<CredentialView> {
    let (has_sig, p4) = read_bool_at(d, p);
    let (alg, p5) = read_utf8_at(d, p4);
    let (kb, p6) = read_string_at(d, p5);
    match (has_sig, alg, kb) {
        (Some(has_sig), Some(alg), Some(kb)) => if has_sig {
            match read_string_at(d, p6).0 {
                Some(sig) => Some(
                    CredentialView::PublicKey { algorithm: alg, key_blob: kb, signature: Some(sig) },
                ),
                None => None,
            }
        } else {
            Some(CredentialView::PublicKey { algorithm: alg, key_blob: kb, signature: None })
        },
        _ => None,
    }
}

/// The reading of a USERAUTH_REQUEST payload (RFC 4252 §5, §7, §8).
pub open spec fn parse_auth_request(d: Seq<u8>) -> AuthParse {
    let (u, p1) = read_utf8_at(d, 0);
    let (svc, p2) = read_utf8_at(d, p1);
    let (m, p3) = read_utf8_at(d, p2);
    match (u, svc, m) {
        (Some(u), Some(svc), Some(m)) => {
            let cred = if m == "password"@ {
                parse_password_credential(d, p3)
            } else {
                parse_pubkey_credential(d, p3)
            };
            if m != "password"@ && m != "publickey"@ {
                AuthParse::UnsupportedMethod(m)
            } else {
                match cred {
                    Some(c) => AuthParse::Parsed(
                        AuthRequestView { username: u, service: svc, method: m, credential: c },
                    ),
                    None => AuthParse::Malformed,
                }
            }
        },
        _ => AuthParse::Malformed,
    }
}

/// A parsed SSH_MSG_USERAUTH_REQUEST.
pub struct AuthRequest {
    pub username: String,
    pub service: String,
    pub method: String,
    pub credential: Credential,
}

impl View for AuthRequest {
    type V = AuthRequestView;

    open spec fn view(&self) -> AuthRequestView {
        AuthRequestView {
            username: self.username@,
            service: self.service@,
            method: self.method@,
            credential: self.credential@,
        }
    }
}

impl AuthRequest {
    pub fn parse(payload: &[u8]) -> (r: SshResult<Self>)
        ensures
            match parse_auth_request(payload@) {
                AuthParse::Parsed(v) => r matches Ok(req) && req@ == v,
                AuthParse::Malformed => r matches Err(e) && e is InvalidPacket,
                AuthParse::UnsupportedMethod(m) => r matches Err(SshError::AuthFailed(msg)) && msg@
                    == "Unsupported auth method: "@ + m,
            },
    {
        let mut cursor = Cursor::new(payload);
        let username = SshBuf::read_utf8(&mut cursor)?;
        let service = SshBuf::read_utf8(&mut cursor)?;
        let method = SshBuf::read_utf8(&mut cursor)?;
        let credential = if text_eq(method.as_str(), "password") {
            let _change = SshBuf::read_bool(&mut cursor)?;
            let password = SshBuf::read_utf8(&mut cursor)?;
            Credential::Password(password)
        } else if text_eq(method.as_str(), "publickey") {
            let has_sig = SshBuf::read_bool(&mut cursor)?;
            let algorithm = SshBuf::read_utf8(&mut cursor)?;
            let key_blob = SshBuf::read_string(&mut cursor)?;
            let signature = if has_sig {
                Some(SshBuf::read_string(&mut cursor)?)
            } else {
                None
            };
            Credential::PublicKey { algorithm, key_blob, signature }
        } else {
            let mut msg = String::from_str("Unsupported auth method: ");
            msg.append(method.as_str());
            proof {
                reveal_strlit("password");
                reveal_strlit("publickey");
            }
            return Err(SshError::AuthFailed(msg));
        };
        Ok(AuthRequest { username, service, method, credential })
    }
}

/// Parsing a built password request gives back the user, service, method
/// "password" and the password.
#[verifier::rlimit(60)]
#[verifier::spinoff_prover]
pub proof fn lemma_password_auth_roundtrip(user: Seq<char>, service: Seq<char>, password: Seq<char>)
    requires
        encode_utf8(user).len() <= MAX_PACKET_SIZE,
        encode_utf8(service).len() <= MAX_PACKET_SIZE,
        encode_utf8(password).len() <= MAX_PACKET_SIZE,
    ensures
        parse_auth_request(password_auth_payload(user, service, password)) == AuthParse::Parsed(
            AuthRequestView {
                username: user,
                service,
                method: "password"@,
                credential: CredentialView::Password(password),
            },
        ),
{
    reveal_strlit("password");
    lemma_encode_utf8_len("password"@);
    let d = password_auth_payload(user, service, password);
    let a = ssh_utf8(user);
    let b = ssh_utf8(service);
    let c = ssh_utf8("password"@);
    let la = a.len() as int;
    let lb = b.len() as int;
    let lc = c.len() as int;
    assert(d.subrange(0, la) =~= a);
    lemma_read_utf8_of(d, 0, user);
    assert(d.subrange(la, la + lb) =~= b);
    lemma_read_utf8_of(d, la, service);
    assert(d.subrange(la + lb, la + lb + lc) =~= c);
    lemma_read_utf8_of(d, la + lb, "password"@);
    assert(d.subrange(la + lb + lc, la + lb + lc + 1) =~= ssh_bool(false));
    lemma_read_bool_of(d, la + lb + lc, false);
    assert(d.subrange(la + lb + lc + 1, d.len() as int) =~= ssh_utf8(password));
    lemma_read_utf8_of(d, la + lb + lc + 1, password);
}

/// Parsing a built public key request gives back the user, service, method
/// "publickey", algorithm, key blob and signature.
/// The first three fields of a request (user, service, method) read back.
proof fn lemma_auth_head(d: Seq<u8>, user: Seq<char>, service: Seq<char>, method: Seq<char>)
    requires
        encode_utf8(user).len() <= MAX_PACKET_SIZE,
        encode_utf8(service).len() <= MAX_PACKET_SIZE,
        encode_utf8(method).len() <= MAX_PACKET_SIZE,
        ssh_utf8(user).len() + ssh_utf8(service).len() + ssh_utf8(method).len() <= d.len(),
        d.subrange(0, (ssh_utf8(user).len() + ssh_utf8(service).len() + ssh_utf8(method).len()) as int)
            == ssh_utf8(user) + ssh_utf8(service) + ssh_utf8(method),
    ensures
        ({
            let la = ssh_utf8(user).len() as int;
            let lb = ssh_utf8(service).len() as int;
            let lc = ssh_utf8(method).len() as int;
            &&& read_utf8_at(d, 0) == (Some(user), la)
            &&& read_utf8_at(d, la) == (Some(service), la + lb)
            &&& read_utf8_at(d, la + lb) == (Some(method), la + lb + lc)
        }),
{
    let a = ssh_utf8(user);
    let b = ssh_utf8(service);
    let c = ssh_utf8(method);
    let la = a.len() as int;
    let lb = b.len() as int;
    let lc = c.len() as int;
    let h = d.subrange(0, la + lb + lc);
    assert(d.subrange(0, la) =~= h.subrange(0, la));
    assert(h.subrange(0, la) =~= a);
    lemma_read_utf8_of(d, 0, user);
    assert(d.subrange(la, la + lb) =~= h.subrange(la, la + lb));
    assert(h.subrange(la, la + lb) =~= b);
    lemma_read_utf8_of(d, la, service);
    assert(d.subrange(la + lb, la + lb + lc) =~= h.subrange(la + lb, la + lb + lc));
    assert(h.subrange(la + lb, la + lb + lc) =~= c);
    lemma_read_utf8_of(d, la + lb, method);
}

/// The fields after the method of a public key request read back.
#[verifier::rlimit(60)]
proof fn lemma_pubkey_tail(
    d: Seq<u8>,
    p: int,
    algorithm: Seq<char>,
    key_blob: Seq<u8>,
    signature: Option<Seq<u8>>,
)
    requires
        0 <= p,
        encode_utf8(algorithm).len() <= MAX_PACKET_SIZE,
        key_blob.len() <= MAX_PACKET_SIZE,
        signature matches Some(s) ==> s.len() <= MAX_PACKET_SIZE,
        d.subrange(p, d.len() as int) == ssh_bool(signature is Some) + ssh_utf8(algorithm)
            + ssh_string(key_blob) + match signature {
            Some(sig) => ssh_string(sig),
            None => Seq::empty(),
        },
        p <= d.len(),
    ensures
        ({
            let le = ssh_utf8(algorithm).len() as int;
            let lk = ssh_string(key_blob).len() as int;
            &&& read_bool_at(d, p) == (Some(signature is Some), p + 1)
            &&& read_utf8_at(d, p + 1) == (Some(algorithm), p + 1 + le)
            &&& read_string_at(d, p + 1 + le).0 == Some(key_blob)
            &&& read_string_at(d, p + 1 + le).1 == p + 1 + le + lk
            &&& signature matches Some(sig) ==> read_string_at(d, p + 1 + le + lk).0 == Some(sig)
            &&& parse_pubkey_credential(d, p) == Some(
                CredentialView::PublicKey { algorithm, key_blob, signature },
            )
        }),
{
    let t = d.subrange(p, d.len() as int);
    let e = ssh_utf8(algorithm);
    let k = ssh_string(key_blob);
    let le = e.len() as int;
    let lk = k.len() as int;
    let sp: Seq<u8> = match signature {
        Some(sig) => ssh_string(sig),
        None => Seq::empty(),
    };
    assert(t.len() == 1 + le + lk + sp.len());
    assert(d.subrange(p, p + 1) =~= t.subrange(0, 1));
    assert(t.subrange(0, 1) =~= ssh_bool(signature is Some));
    lemma_read_bool_of(d, p, signature is Some);
    assert(d.subrange(p + 1, p + 1 + le) =~= t.subrange(1, 1 + le));
    assert(t.subrange(1, 1 + le) =~= e);
    lemma_read_utf8_of(d, p + 1, algorithm);
    assert(d.subrange(p + 1 + le, p + 1 + le + lk) =~= t.subrange(1 + le, 1 + le + lk));
    assert(t.subrange(1 + le, 1 + le + lk) =~= k);
    lemma_read_string_of(d, p + 1 + le, key_blob);
    match signature {
        Some(sig) => {
            assert(d.subrange(p + 1 + le + lk, p + 1 + le + lk + 4 + sig.len()) =~= t.subrange(
                1 + le + lk,
                t.len() as int,
            ));
            assert(t.subrange(1 + le + lk, t.len() as int) =~= ssh_string(sig));
            lemma_read_string_of(d, p + 1 + le + lk, sig);
        },
        None => {},
    }
}

/// Parsing a built public key request gives back the user, service, method
/// "publickey", algorithm, key blob and signature.
#[verifier::rlimit(60)]
#[verifier::spinoff_prover]
pub proof fn lemma_pubkey_auth_roundtrip(
    user: Seq<char>,
    service: Seq<char>,
    algorithm: Seq<char>,
    key_blob: Seq<u8>,
    signature: Option<Seq<u8>>,
)
    requires
        encode_utf8(user).len() <= MAX_PACKET_SIZE,
        encode_utf8(service).len() <= MAX_PACKET_SIZE,
        encode_utf8(algorithm).len() <= MAX_PACKET_SIZE,
        key_blob.len() <= MAX_PACKET_SIZE,
        signature matches Some(s) ==> s.len() <= MAX_PACKET_SIZE,
    ensures
        parse_auth_request(pubkey_auth_payload(user, service, algorithm, key_blob, signature))
            == AuthParse::Parsed(
            AuthRequestView {
                username: user,
                service,
                method: "publickey"@,
                credential: CredentialView::PublicKey { algorithm, key_blob, signature },
            },
        ),
{
    reveal_strlit("publickey");
    reveal_strlit("password");
    lemma_encode_utf8_len("publickey"@);
    assert("publickey"@ != "password"@) by {
        assert("publickey"@.len() != "password"@.len());
    }
    let d = pubkey_auth_payload(user, service, algorithm, key_blob, signature);
    let head = ssh_utf8(user) + ssh_utf8(service) + ssh_utf8("publickey"@);
    let tail = ssh_bool(signature is Some) + ssh_utf8(algorithm) + ssh_string(key_blob)
        + match signature {
        Some(sig) => ssh_string(sig),
        None => Seq::empty(),
    };
    assert(d =~= head + tail);
    assert(d.subrange(0, head.len() as int) =~= head);
    assert(d.subrange(head.len() as int, d.len() as int) =~= tail);
    lemma_auth_head(d, user, service, "publickey"@);
    lemma_pubkey_tail(d, head.len() as int, algorithm, key_blob, signature);
}

} // verus!
