//! Doorbell relay: a per-sender cooldown and asset selection for bell
//! notifications, and hash-based reconciliation of a shared pool of sound
//! assets between a relay and its clients.

pub mod assets;
pub mod reconcile;
pub mod protocol;
pub mod relay;
pub mod client;
