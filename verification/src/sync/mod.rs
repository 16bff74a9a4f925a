//! Directory synchronisation between a local tree and a bucket folder.
use vstd::prelude::*;

pub mod arrange;
pub mod types;
pub mod planner;
pub mod excludes;
pub mod pull;
pub mod journal;
pub mod remote;
pub mod batches;
pub mod execute;
pub mod run;
pub mod atomic;
pub mod local;
pub mod tree;
pub mod download;
