//! Verified core of a parallel video-segmentation pipeline.
//!
//! A source video is split into fixed-length segments, the segments are
//! grouped into a bounded number of parallel work groups, each segment is
//! transcoded independently, and the transcoded artifacts are reassembled
//! into an ordered streaming manifest.

pub mod errors;
pub mod planner;
pub mod assemble;
pub mod duration;
pub mod probe;
pub mod transcode;
pub mod trigger;
