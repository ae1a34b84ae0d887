//! The server's side of the datagram protocol.

pub mod server;
