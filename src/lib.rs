//! Structure lifecycle and curation engine for a game-world sharing service.
//!
//! Players submit placed structures for a scene, draw a diversified random
//! sample of other players' structures, and like structures owned by others.
//! Every request resolves an identity, passes a per-operation cooldown gate
//! and then runs a store or ledger operation.
pub mod config;
pub mod shared_map;
pub mod identity;
pub mod rate_limit;
pub mod store;
pub mod sample;
pub mod ledger;
pub mod service;
pub mod schema;
