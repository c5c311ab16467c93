//! An encrypted, size-bounded key/value cache with least-frequently-used
//! eviction, time-to-live expiry, integrity-checked persistence helpers,
//! access-pattern prefetching and service-management planning.
pub mod assoc;
pub mod cache;
pub mod clock;
pub mod codec;
pub mod config;
pub mod crypto;
pub mod errors;
pub mod optimizer;
pub mod prefetch;
pub mod service;
pub mod simple_cache;
pub mod stored_entry;
pub mod text;
pub mod text_map;
pub mod unit_file;

