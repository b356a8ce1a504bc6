//! A SOCKS5-capable TCP relay: the SOCKS5 handshake state machine, the
//! codec for destination addresses, the bookkeeping of a bidirectional
//! relay, and the endpoints of a relay's configuration.

pub mod codec;
pub mod config;
pub mod handshake;
pub mod relay;
