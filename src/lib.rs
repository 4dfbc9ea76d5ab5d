//! A thread-safe, atomically reference-counted shared-ownership handle.
//!
//! `AtomRc` wraps one heap value behind an atomic count of live handles.
//! The count, and the destruction of the value when it falls to zero, are
//! those of `std::sync::Arc`. `protocol` models how clones and releases move
//! that count and proves, of the model, that the value is destroyed exactly
//! once, by the last release.
pub mod protocol;

pub mod handle;

pub use handle::{AtomRc, AtomRcInner};
