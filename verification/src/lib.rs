//! A minimal key-value store speaking a length-prefixed textual wire
//! protocol: a verified wire codec, a storage engine with per-key lazy
//! expiration, and a command dispatcher.

pub mod bytes;
pub mod messages;
pub mod codec;
pub mod store;
pub mod dispatch;
