//! Real-time fan-out and ephemeral-state subsystem of a chat backend.
//!
//! The crate models and verifies the volatile, in-memory part of the
//! backend: per-topic broadcast groups with connection admission control
//! and idle-topic reaping, presence derivation with a staleness rule and
//! an optional cache, and short-lived typing / voice-session tables that
//! are purged opportunistically.  Durable entity storage, authentication
//! and HTTP plumbing are outside collaborators: callers hand the library
//! plain values (rows, cache replies, timestamps) and carry its results
//! back out.

pub mod clock;
pub mod ephemeral;
pub mod event;
pub mod hub;
pub mod presence;
pub mod session;
pub mod status;
pub mod storage;
pub mod uploads;
pub mod voice;
pub mod wire;
