//! The rules of a service that extracts frames from videos.
//!
//! A video comes with the request or from Google Drive; FFmpeg takes frames out of it;
//! one frame is answered with a JPEG, many with a ZIP archive and a report. Each use of
//! an API key is counted against its quota. What waits for the network, the disk, the
//! database or FFmpeg is left to the program around this library: it tells what happened
//! and is told what to do.
pub mod agreement;
pub mod archive;
pub mod batch;
pub mod config;
pub mod drive;
pub mod ffmpeg;
pub mod headers;
pub mod json;
pub mod ledger;
pub mod number;
pub mod reply;
pub mod report;
pub mod text;
pub mod timestamp;
pub mod upload;
pub mod usage;
