//! Verified core of a Deskflow (Barrier protocol) client: message decoding and
//! framing, the clipboard transfer protocol, and the input-device state machine.

pub mod wire;
pub mod text;
pub mod helper;
pub mod protocol;
pub mod clipboard;
pub mod keyset;
pub mod device;
pub mod handler;
pub mod config;
