//! `builtin_interfaces/Time` messages.
use vstd::prelude::*;
use cdr::Error as CdrError;
use crate::messages::{cdr_time, decode_time, Stamp};
use crate::payload::{serialized, spec_serialized};

verus! {

/// What can make a time message fail to decode.
pub enum Error {
    Zstd(std::io::Error),
    Cdr(CdrError),
}

/// Decodes the stamp that a time message's payload holds.
pub fn decode_message(data: &[u8]) -> (res: Result<Stamp, Error>)
    requires
        data.len() >= 4,
    ensures
        match spec_serialized(data@) {
            None => res matches Err(Error::Zstd(_)),
            Some(p) => match cdr_time(p) {
                None => res matches Err(Error::Cdr(_)),
                Some(t) => res matches Ok(s) && s == t,
            },
        },
{
    let bytes = match serialized(data) {
        Ok(b) => b,
        Err(e) => {
            return Err(Error::Zstd(e));
        },
    };
    match decode_time(bytes.as_slice()) {
        Ok(t) => Ok(t),
        Err(e) => Err(Error::Cdr(e)),
    }
}

} // verus!
