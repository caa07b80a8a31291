//! Finding resources in mounted partitions.

pub mod package_scan;
