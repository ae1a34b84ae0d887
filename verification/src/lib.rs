//! Verified core of a small authoritative-server multiplayer sandbox:
//! the wire codec, the server's per-tick simulation and broadcast rules,
//! and the client's transmitter and snapshot reconciler.

pub mod app;
pub mod decimal;
pub mod engine;
pub mod gameplay;
pub mod json;
pub mod networking;
pub mod table;
pub mod wire;
