//! Verified core of a command-line client for IC-OSS buckets.
//!
//! Everything that decides or computes lives here: request validation, the
//! planning of directory synchronisation in both directions, the recovery
//! journal, resumable uploads, downloads, and the transcode worker.  Network,
//! disk and process access belong to the application around this crate.
use vstd::prelude::*;

pub mod text;
pub mod ordered;
pub mod sync;
pub mod outside;
pub mod framing;
pub mod principal;
pub mod entry;
pub mod file;
pub mod folder;
pub mod storage;
pub mod gc;
pub mod batch;
pub mod upload;
pub mod reader;
pub mod bucket;
pub mod content;
pub mod retry;
pub mod client;
pub mod upload_file;
pub mod transcode;
pub mod token;
pub mod commands;
pub mod get_file;
