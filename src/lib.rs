//! Wire protocol and shared level registry of a multiplayer game server.
pub mod broadcast;
pub mod codec;
pub mod packet;
pub mod registry;
pub mod room;
pub mod wire;
