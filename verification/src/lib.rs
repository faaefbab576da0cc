//! A bounded-capacity key/value cache with least-recently-used eviction.
//!
//! [`CacheLru`] stores string keys mapped to integer values, up to a fixed
//! maximum number of entries chosen at construction. Reading or writing a key
//! marks it most recently used; when an insertion would exceed the capacity,
//! the entry that has gone longest without a touch is evicted.
//!
//! The resident entries are modelled as a sequence ordered from least to most
//! recently used; the `model` module defines that sequence model, and the
//! `laws` module proves the cache's headline properties over it.

pub mod cache;
pub mod laws;
pub mod model;

pub use cache::CacheLru;
