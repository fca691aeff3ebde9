//! Error types of the outside crates that the library carries through.
use vstd::prelude::*;
use cdr::Error as CdrError;

verus! {

/// `mcap::McapError`, the error of reading an MCAP container.
#[verifier::external_type_specification]
#[verifier::external_body]
pub struct ExMcapError(mcap::McapError);

/// `std::io::Error`, the error that `zstd` decompression reports.
#[verifier::external_type_specification]
#[verifier::external_body]
pub struct ExIoError(std::io::Error);

/// `cdr::Error`, the error of CDR deserialization.
#[verifier::external_type_specification]
#[verifier::external_body]
pub struct ExCdrError(CdrError);

} // verus!
