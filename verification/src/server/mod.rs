//! What a server does with the bytes of a connection, and when.

pub mod async_tcp;
pub mod sync_tcp;
