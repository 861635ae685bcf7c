//! Cache-aside resolution layer for multi-chain token analytics queries.
//!
//! The crate decides, for a given (query kind, chain, address) request,
//! whether to serve a cached value or invoke a chain-specific fetch, how to
//! serialize and deserialize the cached entities, and how to invalidate
//! entries on demand. Chain-specific data fetchers and the backing key/value
//! store are external capabilities supplied by the host program.

pub mod models;
pub mod hex;
pub mod codec;
pub mod entities;
pub mod keys;
pub mod store;
pub mod resolve;

pub use models::Chain;
pub use resolve::{MutationRoot, QueryRoot, SubscriptionRoot};
