//! A verified client-side core for the Minecraft Java Edition wire protocol,
//! restricted to the Handshake and Status flows: variable-length integer
//! codecs, length-prefixed framing with optional zlib compression, and typed
//! packet (de)serialization.

pub mod codec;
pub mod de;
pub mod handshake;
pub mod props;
pub mod protocol;
pub mod ser;
pub mod session;
pub mod status;
pub mod varint;
