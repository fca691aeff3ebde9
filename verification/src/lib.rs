//! Extraction of ROS 2 recordings stored in MCAP files: topic summaries,
//! payload framing, message decoding, point-cloud field decoding and the
//! per-message decisions of the extraction loop.
pub mod args;
pub mod compressed_image;
pub mod error;
pub mod extraction;
pub mod image;
pub mod laws;
pub mod messages;
pub mod outside;
pub mod path;
pub mod payload;
pub mod pointcloud;
pub mod recording;
pub mod summary;
pub mod text;
pub mod timestamp;
pub mod topic;

pub use error::Error;
pub use path::extension;
pub use summary::summary;
pub use topic::Topic;
