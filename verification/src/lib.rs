//! A key/value cache with expiry, parent links and sampled cleanup,
//! verified with Verus.
//!
//! The cache is a state machine that one caller at a time drives: every
//! operation says, over the mathematical model in [`model`], what it
//! returns and how it changes the state. Time is a number of nanoseconds
//! on a monotonic clock; each operation that depends on time exists once
//! with the instant as an argument (`get_at`, `set_at`, ...) and once
//! reading the cache's own clock (`get`, `set`, ...).

pub mod cache;
pub mod cache_errors;
pub mod clock;
pub mod entry;
pub mod executor;
pub mod http_api;
pub mod laws;
pub mod listing;
pub mod model;
pub mod stats;
pub mod store;
pub mod text;
pub mod ttl;
pub mod validity;
pub mod value;
