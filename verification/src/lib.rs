//! The logic of a chat: messages and the pakets that carry them, the extraction of pakets from a
//! stream of bytes, and what clients and server decide about what they read.
pub mod constant;
pub mod dispatch;
pub mod error;
pub mod extractor;
pub mod json;
pub mod laws;
pub mod message;
pub mod prelude;
pub mod prompt;
pub mod random;
pub mod server;
pub mod small_error;
pub mod text;
pub mod unit_laws;
pub mod username;
