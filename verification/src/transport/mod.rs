//! The SSH transport layer: key exchange, and the packet protection that
//! sending and receiving apply.
pub mod io;
pub mod kex;

pub use kex::{build_kexinit_payload, KexClient, KexResult, KexServer};
