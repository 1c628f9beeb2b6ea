//! Cached reference-data helpers for two read-only game APIs.
//!
//! The heart of the crate is a TTL-memoized lookup cache with a
//! singleflight discipline; around it stand the pure projection
//! functions that turn fetched reference tables (world id/name maps,
//! datacenter tables, item metadata) into typed results.

pub mod cache;
pub mod strorder;
pub mod universalis;
pub mod xiv;
