//! The WebSocket protocol core: frame codec, message assembler, and the
//! per-connection state machine.

pub mod frame;
pub mod message;
pub mod websocket;
