//! Verified core of a manga chapter downloader.
//!
//! The library contains the deterministic heart of the application: the
//! decryption of image-URL payloads embedded in chapter pages, the on-disk
//! layout of downloaded chapters, and the download scheduler's state machine
//! with its admission-control invariants. All I/O (HTTP, file system, timers)
//! lives outside the library and drives it through plain values.

pub mod comic;
pub mod comic_info;
pub mod config;
pub mod decrypt;
pub mod download_manager;
pub mod errors;
pub mod events;
pub mod export;
pub mod json;
pub mod layout;
pub mod strutil;
