//! A verified core for a server speaking the MongoDB wire protocol: the
//! binary codec for message headers, requests and replies, a structured
//! document codec, the command table, and the per-connection session state
//! machine.

pub mod ints;
pub mod text;
pub mod doc;
pub mod bson;
pub mod header;
pub mod wire;
pub mod reply;
pub mod error;
pub mod command;
pub mod session;
