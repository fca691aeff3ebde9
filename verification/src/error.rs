//! The library's top-level error.
use vstd::prelude::*;
use crate::compressed_image;

verus! {

/// What can make summarising or processing a recording fail.
pub enum Error {
    NoSummary(String),
    NoStatistics(String),
    InvalidTopic(String),
    McapError(mcap::McapError),
    IOError(std::io::Error),
    Interrupted,
    H264Error(compressed_image::Error),
    ParserError(String),
    Unknown,
}

} // verus!
