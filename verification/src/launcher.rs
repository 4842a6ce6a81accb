//! The launcher: matching items against a query, and the keys that drive it.

pub mod item;
pub mod matching;
pub mod palette;
