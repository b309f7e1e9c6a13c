//! A buffer pool manager: a fixed-size in-memory cache that mediates access
//! to disk pages, with clock-sweep eviction, pin tracking, and a
//! write-back-on-evict policy for dirty pages.

pub mod buffer;
pub mod disk;
