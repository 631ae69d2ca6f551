//! Plugin registry, lifecycle permission engine and compression commitments
//! for extensible digital assets stored as packed byte records.

pub mod adapters;
pub mod asset;
pub mod compression;
pub mod error;
pub mod lifecycle;
pub mod registry;
pub mod types;
pub mod update_authority;
