//! Sweeper: a verified disk-cleanup inventory library.
//!
//! The library locates disk-space-reclaimable files and directories (build
//! artifacts, package/IDE/browser/system caches, temp and log files, stale
//! downloads) and produces a confidence-scored inventory for a caller to
//! review.  Filesystem enumeration, clock reads and platform directory
//! lookups happen behind a small set of trusted wrappers; every decision made
//! on the values they return — classification, confidence scoring, dominance
//! pruning, aggregation — is verified.

pub mod categories;
pub mod classify;
pub mod config;
pub mod dominance;
pub mod inventory;
pub mod platform;
pub mod scanner;
pub mod store;
pub mod text;
