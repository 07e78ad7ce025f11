pub mod codec;
pub mod types;

pub use codec::{Cursor, SshBuf, SshPacket};
pub use types::{DisconnectReason, MessageType};
