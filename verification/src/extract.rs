//! Extraction of resources from package files.

pub mod chunks;
pub mod freshness;
pub mod hash_list_sync;
pub mod partition_cache;
pub mod rpkg_extraction;
pub mod summary;
pub mod worker;
