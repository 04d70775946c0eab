//! Protocol layer: decimal text, the wire codec, commands and their
//! evaluation.

pub mod decimal;
pub mod text;
pub mod cmd;
pub mod resp;
pub mod eval;
pub mod guarantees;
pub mod roundtrip;
