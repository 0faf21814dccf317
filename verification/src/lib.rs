//! Binary wire-format codec for the Conclave room signaling protocol.
//!
//! Two command families share one byte discipline: every multi-byte integer
//! is big-endian, every command buffer opens with a one-byte type
//! discriminator, and decoding is total: a buffer either yields a command
//! value or a `DecodeError` that says why.

pub mod commands;
pub mod dispatch;
pub mod stream;

pub use commands::{ClientInfo, PingCommand, RoomInfoCommand};
pub use dispatch::{
    ClientReceiveCommand, ServerReceiveCommand, PING_COMMAND_TYPE_ID, ROOM_INFO_COMMAND_TYPE_ID,
};
pub use stream::{DecodeError, InOctetStream, OutOctetStream};
