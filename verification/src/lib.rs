//! Low-level data structures for request handling: an arena for short-lived
//! byte frames and a string that stays inline while it is short.

pub mod alone;
pub mod arena;
pub mod atomic;
mod bytes;
pub mod chunk;
pub mod ephemeral;
pub mod interleaving;
pub mod protocol;
pub mod receive;
pub mod report;
pub mod smol;
pub mod text;
pub mod words;

pub use ephemeral::EphemeralBytes;
pub use ephemeral::EphemeralBytesArena;
pub use ephemeral::EphemeralBytesMut;
pub use ephemeral::EPHEMERAL_BYTES_INLINE_CAPACITY;
pub use smol::SmolStr;
