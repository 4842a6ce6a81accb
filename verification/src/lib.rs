use vstd::prelude::*;

pub mod auth;
pub mod auth_ui;
pub mod crdt;
pub mod ids;
pub mod launcher;
pub mod story_parity;
pub mod telemetry;
pub mod text;
pub mod xtask;

verus! {

} // verus!
