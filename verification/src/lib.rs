//! Selective file-content shadowing for an interposed I/O layer.
//!
//! The library holds the decision logic of an interposer that sits between a
//! process and its file I/O primitives: which freshly opened descriptors to
//! shadow, what bytes a read on a shadowed descriptor is served, and when a
//! descriptor leaves the shadow table again. The surrounding layer forwards
//! the real calls and hands their plain results to these functions.

pub mod config;
pub mod laws;
pub mod paths;
pub mod stream;
pub mod table;
