//! ROS 2 message contents that the extractors read, and their CDR decoding.
//!
//! A message is decoded with `cdr::deserialize_from` into the message types of
//! `ros2_interfaces_humble` and handed on as the plain values below.
use vstd::prelude::*;
use cdr::Error as CdrError;
use ros2_interfaces_humble::builtin_interfaces::msg::Time;
use ros2_interfaces_humble::sensor_msgs::msg::{CompressedImage, Image, PointCloud2};
use crate::pointcloud::{le32, PointCloud, PointCloudView, PointField};

verus! {

/// A `builtin_interfaces/Time` stamp.
#[derive(Clone, Copy, Debug, PartialEq, Eq, Structural)]
pub struct Stamp {
    pub sec: i32,
    pub nanosec: u32,
}

/// The parts of a `sensor_msgs/Image` message that the extractor reads.
pub struct ImageMsg {
    pub stamp: Stamp,
    pub height: u32,
    pub width: u32,
    pub encoding: String,
    pub data: Vec<u8>,
}

pub struct ImageView {
    pub stamp: Stamp,
    pub height: u32,
    pub width: u32,
    pub encoding: Seq<char>,
    pub data: Seq<u8>,
}

impl View for ImageMsg {
    type V = ImageView;

    open spec fn view(&self) -> ImageView {
        ImageView {
            stamp: self.stamp,
            height: self.height,
            width: self.width,
            encoding: self.encoding@,
            data: self.data@,
        }
    }
}

/// The parts of a `sensor_msgs/CompressedImage` message that the extractor
/// reads.
pub struct CompressedImageMsg {
    pub stamp: Stamp,
    pub format: String,
    pub data: Vec<u8>,
}

pub struct CompressedImageView {
    pub stamp: Stamp,
    pub format: Seq<char>,
    pub data: Seq<u8>,
}

impl View for CompressedImageMsg {
    type V = CompressedImageView;

    open spec fn view(&self) -> CompressedImageView {
        CompressedImageView { stamp: self.stamp, format: self.format@, data: self.data@ }
    }
}

/// The big-endian 32-bit value whose bytes start at position `s` of `d`.
pub open spec fn be32(d: Seq<u8>, s: int) -> int {
    d[s] * 16777216 + d[s + 1] * 65536 + d[s + 2] * 256 + d[s + 3]
}

/// A `Time` in CDR: a four-byte encapsulation header whose second byte is 0
/// or 2 (big-endian) or 1 or 3 (little-endian), then `sec` as an `i32` at
/// bytes 4 to 8 and `nanosec` as a `u32` at bytes 8 to 12; bytes after those
/// are not read. `None` where the header is unknown or the bytes end early.
pub open spec fn cdr_time(bytes: Seq<u8>) -> Option<Stamp> {
    if bytes.len() < 12 || bytes[1] > 3 {
        None
    } else {
        let little = bytes[1] == 1 || bytes[1] == 3;
        let sec = if little { le32(bytes, 4) } else { be32(bytes, 4) };
        let nanosec = if little { le32(bytes, 8) } else { be32(bytes, 8) };
        Some(Stamp { sec: sec as i32, nanosec: nanosec as u32 })
    }
}

/// What `cdr::deserialize_from` makes of the bytes as an `Image`.
pub uninterp spec fn cdr_image(bytes: Seq<u8>) -> Option<ImageView>;

/// What `cdr::deserialize_from` makes of the bytes as a `CompressedImage`.
pub uninterp spec fn cdr_compressed_image(bytes: Seq<u8>) -> Option<CompressedImageView>;

/// What `cdr::deserialize_from` makes of the bytes as a `PointCloud2`.
pub uninterp spec fn cdr_point_cloud(bytes: Seq<u8>) -> Option<PointCloudView>;

/// Deserializes a `builtin_interfaces/Time` (`cdr::deserialize_from` with no
/// size limit). The contract claims the layout that `cdr_time` spells out: the
/// header selects the byte order, the two fields follow it, aligned to four
/// bytes, and reading fails where the header is unknown or the bytes run out.
#[verifier::external_body]
pub(crate) fn decode_time(bytes: &[u8]) -> (res: Result<Stamp, CdrError>)
    ensures
        res is Err <==> cdr_time(bytes@) is None,
        res matches Ok(t) ==> cdr_time(bytes@) == Some(t),
{
    match cdr::deserialize_from::<_, Time, _>(bytes, cdr::size::Infinite) {
        Ok(t) => Ok(Stamp { sec: t.sec, nanosec: t.nanosec }),
        Err(e) => Err(e),
    }
}

/// Deserializes a `sensor_msgs/Image` (`cdr::deserialize_from` with no size
/// limit). The contract claims only that the outcome is a function of the
/// bytes.
#[verifier::external_body]
pub(crate) fn decode_image(bytes: &[u8]) -> (res: Result<ImageMsg, CdrError>)
    ensures
        res is Err <==> cdr_image(bytes@) is None,
        res matches Ok(m) ==> cdr_image(bytes@) == Some(m@),
{
    match cdr::deserialize_from::<_, Image, _>(bytes, cdr::size::Infinite) {
        Ok(m) => Ok(ImageMsg {
            stamp: Stamp { sec: m.header.stamp.sec, nanosec: m.header.stamp.nanosec },
            height: m.height,
            width: m.width,
            encoding: m.encoding,
            data: m.data,
        }),
        Err(e) => Err(e),
    }
}

/// Deserializes a `sensor_msgs/CompressedImage` (`cdr::deserialize_from` with
/// no size limit). The contract claims only that the outcome is a function of
/// the bytes.
#[verifier::external_body]
pub(crate) fn decode_compressed_image(bytes: &[u8]) -> (res: Result<CompressedImageMsg, CdrError>)
    ensures
        res is Err <==> cdr_compressed_image(bytes@) is None,
        res matches Ok(m) ==> cdr_compressed_image(bytes@) == Some(m@),
{
    match cdr::deserialize_from::<_, CompressedImage, _>(bytes, cdr::size::Infinite) {
        Ok(m) => Ok(CompressedImageMsg {
            stamp: Stamp { sec: m.header.stamp.sec, nanosec: m.header.stamp.nanosec },
            format: m.format,
            data: m.data,
        }),
        Err(e) => Err(e),
    }
}

/// Deserializes a `sensor_msgs/PointCloud2` (`cdr::deserialize_from` with no
/// size limit). The contract claims only that the outcome is a function of the
/// bytes.
#[verifier::external_body]
pub(crate) fn decode_point_cloud(bytes: &[u8]) -> (res: Result<PointCloud, CdrError>)
    ensures
        res is Err <==> cdr_point_cloud(bytes@) is None,
        res matches Ok(c) ==> cdr_point_cloud(bytes@) == Some(c@),
{
    let m = match cdr::deserialize_from::<_, PointCloud2, _>(bytes, cdr::size::Infinite) {
        Ok(m) => m,
        Err(e) => return Err(e),
    };
    let fields = m.fields.into_iter().map(|f| PointField {
        name: f.name, offset: f.offset, datatype: f.datatype, count: f.count,
    }).collect();
    Ok(PointCloud {
        stamp: Stamp { sec: m.header.stamp.sec, nanosec: m.header.stamp.nanosec },
        height: m.height, width: m.width, fields,
        point_step: m.point_step, row_step: m.row_step, data: m.data,
    })
}

} // verus!
