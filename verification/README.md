# SwiftSSH

An SSH-2 server and client whose protocol logic is a Verus-verified library.

- `src/` is the library. Every function carries a `requires`/`ensures`
  contract over mathematical models (`Seq`, `Map`, spec functions), and
  public proof functions state the laws that relate several operations:
  wire formats read back what they write, sealed packets open on the peer,
  both sides of a key exchange derive matching keys, and SFTP requests stay
  under the configured root.
- Key agreement rests on what x25519-dalek's `x25519` function documents:
  each side's public value is its secret times the base point, and a
  secret applied to the other side's public value gives what the other
  secret applied to this side's public value gives. From that, the library
  proves that client and server reach the same shared secret, the same
  exchange hash and matching keys.
- SFTP confinement is proved relative to the canonical forms that the file
  system reports: `app/` resolves the requested path, or failing that its
  deepest existing ancestor, with all symbolic links followed, and the
  library checks that result joined with the components that do not exist
  yet. Lexically, `..` never climbs above `/`.
- Public-key authentication would need a signature check over the session
  data; no signature scheme is implemented, so a public key never logs a
  user in, and the server answers such requests with USERAUTH_FAILURE.
- The order of the handshake (key exchange, NEWKEYS, service request,
  authentication) is a verified phase machine in `session`; `app/` performs
  the I/O of each phase and asks the library what comes next.
- Calls into the cryptography crates (aes, ctr, hmac, sha2, x25519-dalek)
  and into rand go through small trusted wrappers, each documented with
  what it claims of the outside function.
- `app/` is the program around the library: `swiftssh server` and
  `swiftssh client` (or the same program under the names
  `swiftssh-server` and `swiftssh-client`), the TCP and file-system I/O, command execution and
  logging. It performs the I/O the library asks for and hands back the
  results.
- `tests/` exercises the library from outside.
