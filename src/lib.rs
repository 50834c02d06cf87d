//! Upgrade-safe wallet state: owner-gated access to a single state cell,
//! and a snapshot format that carries that state across a code upgrade.

pub mod principal;
pub mod state;
pub mod codec;
pub mod guard;
pub mod lifecycle;
