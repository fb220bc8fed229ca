//! A minimal Redis-protocol (RESP) server core: a partial-read-aware decoder
//! and byte-exact encoder for a subset of the RESP wire format, an in-memory
//! key/value store, and a command dispatcher that maps decoded requests to
//! store operations and encoded replies.

pub mod codec;
pub mod data;
pub mod deserializer;
pub mod dispatch;
pub mod laws;
pub mod parser;
pub mod serializer;
pub mod store;
