//! A certificate registry: a deterministic transaction processor over a
//! content-addressed state store, and a fork-aware temporal read model that
//! mirrors the committed chain.
//!
//! - `entities`, `addressing`, `order`, `store`, `codec`, `state`: the
//!   records, their state addresses, and the container buckets that hold
//!   them, in memory and as bytes.
//! - `payload`, `rules`, `handler`, `laws`: the shape checks of a payload,
//!   what each action does to state, the handlers that do it, and what holds
//!   of every accepted transaction.
//! - `models`, `chain`, `indexer`, `paging`: the read model's rows, the log
//!   of versioned rows with its block and fork semantics, the indexer that
//!   applies blocks, and the paging of list queries.

pub mod addressing;
pub mod chain;
pub mod codec;
pub mod entities;
pub mod handler;
pub mod indexer;
pub mod laws;
pub mod models;
pub mod order;
pub mod paging;
pub mod payload;
pub mod rules;
pub mod state;
pub mod store;
