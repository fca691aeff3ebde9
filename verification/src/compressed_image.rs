//! `sensor_msgs/CompressedImage` messages.
use vstd::prelude::*;
use cdr::Error as CdrError;
use crate::messages::{cdr_compressed_image, decode_compressed_image, CompressedImageMsg};
use crate::payload::{serialized, spec_serialized};

verus! {

/// What can make a compressed-image message fail to decode.
pub enum Error {
    Interrupted,
    ImageBuf,
    Zstd(std::io::Error),
    Cdr(CdrError),
}

/// Decodes the compressed image that a message's payload holds.
pub fn decode_message(data: &[u8]) -> (res: Result<CompressedImageMsg, Error>)
    requires
        data.len() >= 4,
    ensures
        match spec_serialized(data@) {
            None => res matches Err(Error::Zstd(_)),
            Some(p) => match cdr_compressed_image(p) {
                None => res matches Err(Error::Cdr(_)),
                Some(m) => res matches Ok(v) && v@ == m,
            },
        },
{
    let bytes = match serialized(data) {
        Ok(b) => b,
        Err(e) => {
            return Err(Error::Zstd(e));
        },
    };
    match decode_compressed_image(bytes.as_slice()) {
        Ok(m) => Ok(m),
        Err(e) => Err(Error::Cdr(e)),
    }
}

} // verus!
