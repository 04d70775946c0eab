//! What the server keeps.

pub mod store;
