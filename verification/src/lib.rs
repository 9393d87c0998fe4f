//! A fixed-capacity key-value cache that evicts entries with the CLOCK
//! (second-chance) algorithm: a hand cycles over a ring of slots and a usage
//! bit per slot gives each recently-read entry one reprieve before eviction.
//!
//! The abstract state of a cache is the [`model::CacheView`] behind its
//! view, every operation's contract pins the successor state down through
//! the transition functions of [`model`], and the algorithm's general
//! properties are proved in [`laws`].

mod bitvec;
pub mod cache;
pub mod laws;
pub mod model;

pub use cache::ClockCache;
pub use cache::ClockEntry;
pub use model::CacheView;
