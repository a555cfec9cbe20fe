//! A store for the hits of a fuzzy memory scan.
//!
//! Records are fixed-width `(address, value bytes, type tag)` tuples. The store
//! keeps a bounded prefix of them in RAM and the rest in a memory-mapped spill
//! region, and offers indexed reads, updates, order-preserving deletions and
//! refinement passes over the whole logical sequence.

pub mod types;
pub mod item;
pub mod item_order;
pub mod codec;
pub mod spill;
pub mod compact;
pub mod store;
pub mod exact;
pub mod manager;
