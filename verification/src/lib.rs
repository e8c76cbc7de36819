//! A roster synchronization and tiered-progression engine.
//!
//! The library reconciles a persisted member roster with a live membership
//! snapshot, keeps a per-member experience counter consistent between durable
//! storage and an in-memory cache, and drives a rank ladder that grants and
//! revokes an external role as a member's score crosses ordered thresholds.
//!
//! Durable storage is modelled by [`store::Store`]; calls to the external
//! role service are returned as [`sync::RoleAction`] values for the caller
//! to perform.

pub mod app_state;
pub mod dao;
pub mod errors;
pub mod exp;
pub mod membership;
pub mod prompts;
pub mod removal;
pub mod sort;
pub mod store;
pub mod sync;
pub mod util;
