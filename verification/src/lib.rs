//! Route selection and packet dispatch core of a mixnet client.
//!
//! The crate turns a snapshot of advertised mix nodes into layers, picks one
//! node per layer to form a route, packs addresses and keys into the fixed
//! 32-byte fields of the packet format, and decides, event by event, what the
//! periodic dispatch loop does next.

pub mod address;
pub mod key;
pub mod topology;
pub mod route;
pub mod dispatch;
pub mod text;
