//! What an auth server needs below its handlers.

pub mod expiry;
pub mod percent;
