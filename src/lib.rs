//! A versioned, append-only store of health records.
//!
//! Records are immutable and addressed by hash. A logical record keeps the
//! hash of its first version as its identity; updates append new versions and
//! link them from that identity, deletions attach tombstones, and a registry
//! anchor links every live record for enumeration.
pub mod types;
pub mod resolve;
pub mod decide;
pub mod store;
pub mod validation;
pub mod health_record;
pub mod all_health_records;
pub mod laws;
