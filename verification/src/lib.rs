//! Protocol logic of a small Minecraft server: VarInt coding, packet
//! framing, handshake and login parsing, and the bodies of the status and
//! join-game responses, the status response written through a BSON document.

pub mod bytes;
pub mod varint;
pub mod packet;
pub mod player;
pub mod handshake;
pub mod login;
pub mod play;
pub mod status;
pub mod document;
