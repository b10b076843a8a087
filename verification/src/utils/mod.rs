//! Building blocks of the storage layer.

pub mod cached;
pub mod in_memory;
pub mod key_value;
pub mod loaded;
pub mod persisted;
pub mod recency;
pub mod slab;
