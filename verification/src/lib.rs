//! A verified core for a single-threaded, readiness-driven HTTP/1.1 server:
//! a token table that hands out unique connection handles, a streaming
//! request parser that tolerates arbitrary fragmentation of its input, and
//! the per-connection decision logic of the reactor loop. All I/O stays with
//! the embedding program; this crate works on plain values and proves its
//! contracts.

pub mod bytes;
pub mod connection_manager;
pub mod http;
pub mod reactor;
