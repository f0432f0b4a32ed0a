//! Client-side logic of the Rapid content-distribution protocol: the package
//! descriptor format, the content-addressed store layout, the framed blob
//! stream, integrity validation and the bounded repair loop.
//!
//! Everything here works on plain values. Reading and writing files, and
//! talking to a server, is left to the caller.

pub mod api;
pub mod event;
pub mod file_download;
pub mod gz;
pub mod hex;
pub mod metadata;
pub mod pool_downloader;
pub mod rapid;
pub mod rapid_download;
pub mod repair;
pub mod text;
pub mod validation;
