//! Comparing what two renderers make of the same stories.

pub mod diff;
pub mod runner;
