//! Session and transport bridging layer for a multiparty-computation engine.
//!
//! The engine performs its network communication through a caller-supplied
//! transport.  This crate provides the pieces any such bridge must get right:
//! the boundary-safe buffer representation, the handle registry that lets
//! fixed-signature callbacks reach a caller-chosen transport, the 2-party and
//! N-party job sessions that bind a role to a transport, and the quorum
//! secret-sharing tree that gates recovery of a shared secret.

pub mod buffer;
pub mod callback;
pub mod errors;
pub mod quorum;
pub mod registry;
pub mod session;
pub mod transport;

pub use errors::BridgeError;
pub use errors::NativeOp;
