//! A verified core for a peer-to-peer messenger.
pub mod clock;
pub mod peers;
pub mod random;
pub mod sync;
pub mod types;
pub mod ui;
