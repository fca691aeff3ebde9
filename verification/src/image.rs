//! `sensor_msgs/Image` messages in NV12 layout, converted to packed RGB.
//!
//! An NV12 image of `height` rows holds a full-resolution luma plane of
//! `2 * height / 3` rows followed by the interleaved chroma plane; the RGB
//! image has the luma plane's size, three bytes per pixel.
use vstd::prelude::*;
use cdr::Error as CdrError;
use crate::messages::{cdr_image, decode_image, ImageMsg};
use crate::payload::{serialized, spec_serialized};
use crate::text::str_eq;

verus! {

/// What can make an image message fail to decode.
pub enum Error {
    Zstd(std::io::Error),
    Cdr(CdrError),
}

/// Decodes the image that a message's payload holds; `None` where its
/// encoding is not `nv12`, the only one that is converted.
pub fn decode_message(data: &[u8]) -> (res: Result<Option<ImageMsg>, Error>)
    requires
        data.len() >= 4,
    ensures
        match spec_serialized(data@) {
            None => res matches Err(Error::Zstd(_)),
            Some(p) => match cdr_image(p) {
                None => res matches Err(Error::Cdr(_)),
                Some(m) => if m.encoding == "nv12"@ {
                    res matches Ok(Some(v)) && v@ == m
                } else {
                    res matches Ok(None)
                },
            },
        },
{
    let bytes = match serialized(data) {
        Ok(b) => b,
        Err(e) => {
            return Err(Error::Zstd(e));
        },
    };
    match decode_image(bytes.as_slice()) {
        Ok(m) => {
            if str_eq(m.encoding.as_str(), "nv12") {
                Ok(Some(m))
            } else {
                Ok(None)
            }
        },
        Err(e) => Err(Error::Cdr(e)),
    }
}

/// Where the planes of an NV12 image lie and how large its RGB rendering is.
#[derive(Clone, Copy, Debug, PartialEq, Eq, Structural)]
pub struct Nv12Layout {
    /// Rows of the luma plane, and of the RGB image.
    pub rgb_height: u32,
    /// Offset of the chroma plane in the image data.
    pub uv_offset: usize,
    /// Bytes of the RGB image.
    pub rgb_len: usize,
    /// Row stride of both source planes (the width).
    pub src_stride: i32,
    /// Row stride of the RGB image (three bytes per pixel).
    pub dst_stride: i32,
    /// Rows to convert.
    pub rows: i32,
    /// Bytes of the image data that the conversion reads: the luma plane and,
    /// for every second row, one chroma row of `width` rounded up to even.
    pub src_len: u64,
}

/// Bytes that converting `rows` rows of an NV12 image of the given width
/// reads from its data.
pub open spec fn spec_src_len(width: u32, rows: int) -> int {
    let uv_rows = (rows + 1) / 2;
    width * rows + if uv_rows == 0 {
        0
    } else {
        width * (uv_rows - 1) + 2 * ((width + 1) / 2)
    }
}

/// Rows of the luma plane of an NV12 image of `height` rows.
pub open spec fn spec_rgb_height(height: u32) -> int {
    (2 * height) / 3
}

/// The layout can be computed without overflow.
pub open spec fn layout_fits(width: u32, height: u32) -> bool {
    &&& spec_rgb_height(height) * width * 3 <= usize::MAX
    &&& i32::MIN <= (width as i32) * 3 <= i32::MAX
}

/// Tests `layout_fits`.
pub fn nv12_layout_fits(width: u32, height: u32) -> (b: bool)
    ensures
        b == layout_fits(width, height),
{
    let h: u128 = ((2 * (height as u64)) / 3) as u128;
    let w: u128 = width as u128;
    assert(h * w <= 0x1_0000_0000 * 0x1_0000_0000) by (nonlinear_arith)
        requires
            h <= 0x1_0000_0000,
            w <= 0x1_0000_0000,
    ;
    let total: u128 = h * w * 3;
    let stride: i64 = (#[verifier::truncate] (width as i32)) as i64 * 3;
    total <= usize::MAX as u128 && i32::MIN as i64 <= stride && stride <= i32::MAX as i64
}

/// The layout of an NV12 image of the given size.
pub fn nv12_layout(width: u32, height: u32) -> (l: Nv12Layout)
    requires
        layout_fits(width, height),
    ensures
        l.rgb_height == spec_rgb_height(height),
        l.uv_offset == width * spec_rgb_height(height),
        l.rgb_len == spec_rgb_height(height) * width * 3,
        l.src_stride == width as i32,
        l.dst_stride == (width as i32) * 3,
        l.rows == l.rgb_height as i32,
        l.src_len == spec_src_len(width, spec_rgb_height(height)),
{
    let rgb_height: u32 = ((2 * (height as u64)) / 3) as u32;
    let h: usize = rgb_height as usize;
    let w: usize = width as usize;
    assert(h * w <= h * w * 3) by (nonlinear_arith);
    assert(w * h == h * w) by (nonlinear_arith);
    let uv_offset: usize = w * h;
    let rgb_len: usize = h * w * 3;
    let r: u128 = rgb_height as u128;
    let wl: u128 = width as u128;
    let uv_rows: u128 = (r + 1) / 2;
    assert(wl * r <= 0x1_0000_0000 * 0x1_0000_0000) by (nonlinear_arith)
        requires
            r <= 0x1_0000_0000,
            wl <= 0x1_0000_0000,
    ;
    let luma: u128 = wl * r;
    let chroma: u128 = if uv_rows == 0 {
        0
    } else {
        assert(wl * (uv_rows - 1) <= wl * r) by (nonlinear_arith)
            requires
                uv_rows - 1 <= r,
        ;
        wl * (uv_rows - 1) + 2 * ((wl + 1) / 2)
    };
    assert(luma * 3 <= u64::MAX) by {
        assert(luma == h * w) by (nonlinear_arith)
            requires
                luma == wl * r,
                wl == w,
                r == h,
        ;
    }
    let src_len: u64 = (luma + chroma) as u64;
    Nv12Layout {
        rgb_height,
        uv_offset,
        rgb_len,
        src_stride: #[verifier::truncate] (width as i32),
        dst_stride: (#[verifier::truncate] (width as i32)) * 3,
        rows: rgb_height as i32,
        src_len,
    }
}

} // verus!
