//! Memory hierarchy modelling: a message-based memory fabric, a set-associative
//! write-through cache and its eviction policy.
pub mod mem_fabric;
pub mod simple_cache;
pub mod tree_lru;
