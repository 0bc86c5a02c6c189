//! An in-memory index from tokens to embedding vectors, with the bookkeeping
//! that keeps the label table aligned with the handles of the spatial index,
//! the ranking of nearest-neighbour candidates, and the batched insertion of
//! newline-separated text.
pub mod error;
pub mod ranking;
pub mod store;
pub mod batching;
pub mod collection;
pub mod provider;
