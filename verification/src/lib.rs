//! # SwiftSSH
//!
//! A modular SSH-2 implementation with verified contracts.
//!
//! - [`packet`]: binary packet framing and wire types (RFC 4253 §6)
//! - [`transport`]: key exchange (Curve25519), packet protection, version lines
//! - [`crypto`]: AES-256-CTR, HMAC-SHA256, session key derivation (RFC 4253 §7.2)
//! - [`auth`]: password and public key authentication (RFC 4252)
//! - [`connection`]: multiplexed channels (RFC 4254)
//! - [`sftp`]: the SFTP subsystem, confined to a root directory
//! - [`session`]: per-connection keys and sequence numbers
//! - [`server`], [`client`]: what each side does with the messages it receives
//! - [`error`]: the error type
pub mod error;
pub mod packet;
pub mod connection;
pub mod auth;
pub mod sftp;
pub mod crypto;
pub mod session;
pub mod transport;
pub mod server;
pub mod client;
