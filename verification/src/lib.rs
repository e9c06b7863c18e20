//! Core logic of a terminal tool for hunting domain names: search a name
//! across a set of top-level-domain extensions, browse the results in a
//! scrollable table, toggle which extensions are active, and keep a persisted
//! wishlist of interesting domains.
//!
//! This crate holds the verified heart of the tool: the entity model, the
//! row-selection state machine, the key-to-action dispatcher, the mutation
//! coordinator that pairs each toggle with exactly one persistence call, the
//! in-memory store that models the persistence collaborator, and the
//! reconciler that cross-references freshly fetched domains against the
//! wishlist. Terminal rendering, the network fetch and durable storage are
//! collaborators outside this crate: they exchange plain values with it.

pub mod input;
pub mod laws;
pub mod models;
pub mod reconcile;
pub mod search;
pub mod session;
pub mod store;
pub mod table;
pub mod text;
pub mod views;
