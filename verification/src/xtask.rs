//! Repo tooling: the release tags that other repos pin, the manifests they pin
//! them in, a copy of a running server's data, and new feature crates.

pub mod fleet;
pub mod git;
pub mod mirror;
pub mod scaffold;
pub mod tags;
