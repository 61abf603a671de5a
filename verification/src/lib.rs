//! Room bookkeeping, message relaying and handshake decisions of a small
//! multiplayer websocket server, with their contracts proved by Verus.
pub mod constants;
pub mod wire;
pub mod rooms;
pub mod message;
pub mod session;
pub mod laws;
pub mod handshake;
