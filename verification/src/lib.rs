//! A verified core for a concurrency-bounded directory-tree accounting walk.
//!
//! The library models a filesystem tree, defines the exact value of a
//! best-effort traversal over it (entry count and byte total, with failed
//! subtrees contributing zero), and provides the verified per-directory
//! steps that a runtime walker composes: tallying one directory's entries,
//! folding child results in discovery order, and bounding how many
//! directory reads are in flight at once.

pub mod engine;
pub mod laws;
pub mod limiter;
pub mod result;
pub mod tree;
