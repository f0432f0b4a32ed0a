//! The Rapid data model and its on-disk formats.

pub mod parsing;
pub mod rapid_store;
pub mod types;
