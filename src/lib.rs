//! Acquisition and download-lifecycle engine for a personal media library.
//!
//! The library decides what to fetch and what to do with running downloads;
//! talking to index providers, download backends and the database is left to
//! the caller, which hands results in as plain values.

pub mod text;
pub mod number;
pub mod quality;
pub mod episode;
pub mod candidate;
pub mod search;
pub mod reconcile;
pub mod client;
pub mod qbittorrent;
pub mod transmission;
pub mod monitor;
pub mod watchlist;
pub mod magnet;
pub mod providers;
