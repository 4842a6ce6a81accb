//! Storing entities in a conflict-free replicated document.

pub mod codec;
