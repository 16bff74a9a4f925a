//! Making, checking and removing transcoded media.
pub mod types;
pub mod labels;
pub mod ffmpeg;
pub mod probe;
pub mod journal;
pub mod worker;
pub mod approve;
pub mod cleanup;
