//! Verified core of a system that streams camera frames to a pose
//! estimation server and the annotated pictures back.
//!
//! - `capture`: the lifecycle of the memory-mapped capture buffers.
//! - `wire`, `result`: the length-prefixed protocol and the result message.
//! - `channel`, `pipeline`, `infer`, `supervisor`: the three stages that
//!   serve a connection, the queues between them, and the listener's book.
//! - `client`: the client's end of the protocol and its loop.
//! - `color`, `letterbox`, `overlay`: pixel conversion and picture geometry.
//!
//! The library decides and computes; reading, writing, mapping, inferring
//! and drawing are left to its caller.

pub mod capture;
pub mod channel;
pub mod client;
pub mod color;
pub mod infer;
pub mod letterbox;
pub mod overlay;
pub mod pipeline;
pub mod result;
pub mod supervisor;
pub mod wire;
