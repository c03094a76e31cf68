//! Per-account state-synchronization engine for a multi-service chat
//! platform.
//!
//! The library consumes an ordered batch of domain events (profile edits,
//! verification, group and community membership changes, subscription
//! payments, point-currency earnings) and applies them to one account's
//! authoritative local state.  Every handler is a total, always-succeeding
//! transition over the in-memory aggregate; outbound side effects (balance
//! notifications, bot messages) are returned as explicit intents for a thin
//! boundary layer to execute.


pub mod account;
pub mod achievements;
pub mod engine;
pub mod events;
pub mod kv;
pub mod memberships;
pub mod siwe;
pub mod siws;
pub mod streak;
