//! Verified core of a minimal length-delimited message server.
//!
//! A server accepts framed requests (echo a payload, or add two 32-bit
//! integers), answers each with exactly one response frame, and drops a
//! connection on the first malformed or unsupported frame.  This crate holds
//! everything that can be stated and proved about that protocol: the wire
//! codec, the per-frame request/response cycle, and the decision logic of the
//! accept loop and its cooperative shutdown.  The sockets and threads that
//! drive these functions live outside the verified crate.

pub mod codec;
pub mod handler;
pub mod lifecycle;
pub mod messages;
