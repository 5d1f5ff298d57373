//! Invalidation and negotiation core of a manifest-driven build pipeline.
//!
//! Given the declarative metadata of a package or a system variant, this
//! library decides which capability flags the build sees, which files and
//! environment variables must invalidate the cached result when they change,
//! and what the merged default-settings document looks like.  All I/O and
//! every call into a collaborator (manifest parsing, artifact fetching,
//! container builds) stays outside; the library computes plans and signal
//! streams from plain values.

pub mod arch;
pub mod defaults;
pub mod dispatch;
pub mod doc;
pub mod errors;
pub mod features;
pub mod manifest;
pub mod order;
pub mod sensitivity;
pub mod signals;
