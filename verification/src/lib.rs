//! Decision logic of a walker that finds Rust project directories and has
//! their build output cleaned.
//!
//! The library decides; it performs no I/O. A caller probes the file system
//! and runs the clean command, reports what happened as a [`visit::Event`],
//! and receives the next [`visit::Command`] together with the notices to log.
//! [`tree`] makes the same decisions over a directory tree held in memory,
//! and [`laws`] states what holds of every such walk.

pub mod names;
pub mod notice;
pub mod visit;
pub mod tree;
pub mod laws;
