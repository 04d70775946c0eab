//! An in-memory key-value engine speaking a RESP-style wire protocol:
//! codec, keyspace store with expiry and eviction, command evaluator and
//! the decisions of the connection reactor.

mod clock;
pub mod common;
pub mod config;
pub mod data;
pub mod error;
pub mod protocol;
pub mod server;
