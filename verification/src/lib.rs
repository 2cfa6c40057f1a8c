//! A multi-block HTTP file downloader: a file is split into byte ranges,
//! each range is fetched into its own part file, and the parts are joined
//! in order once every block is complete.

pub mod downloader;
