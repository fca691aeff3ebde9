//! Message payloads: stored as they are, or as a zstd frame.
use vstd::prelude::*;

verus! {

/// The four bytes that open a zstd frame.
pub const ZSTD_MAGIC_NUMBER: [u8; 4] = [0x28, 0xb5, 0x2f, 0xfd];

pub open spec fn zstd_magic() -> Seq<u8> {
    seq![0x28u8, 0xb5u8, 0x2fu8, 0xfdu8]
}

/// Whether a payload (of at least four bytes) starts with the zstd magic
/// number.
pub open spec fn starts_with_zstd_magic(data: Seq<u8>) -> bool {
    data.take(4) == zstd_magic()
}

/// What `zstd::stream::decode_all` makes of the bytes: `None` when it fails.
pub uninterp spec fn zstd_decoded(frame: Seq<u8>) -> Option<Seq<u8>>;

/// Decompresses a zstd stream (`zstd::stream::decode_all`). The contract
/// claims only that the outcome is a function of the bytes.
#[verifier::external_body]
fn zstd_decode_all(frame: &[u8]) -> (res: Result<Vec<u8>, std::io::Error>)
    ensures
        res is Err <==> zstd_decoded(frame@) is None,
        res matches Ok(v) ==> zstd_decoded(frame@) == Some(v@),
{
    zstd::stream::decode_all(frame)
}

/// The serialized message inside a payload: the decompressed bytes of a zstd
/// frame, or the payload itself; `None` where decompression fails.
pub open spec fn spec_serialized(data: Seq<u8>) -> Option<Seq<u8>> {
    if starts_with_zstd_magic(data) {
        zstd_decoded(data)
    } else {
        Some(data)
    }
}

/// Whether the payload starts with the zstd magic number.
pub fn has_zstd_magic(data: &[u8]) -> (b: bool)
    requires
        data.len() >= 4,
    ensures
        b == starts_with_zstd_magic(data@),
{
    let b = data[0] == ZSTD_MAGIC_NUMBER[0] && data[1] == ZSTD_MAGIC_NUMBER[1]
        && data[2] == ZSTD_MAGIC_NUMBER[2] && data[3] == ZSTD_MAGIC_NUMBER[3];
    proof {
        if b {
            assert(data@.take(4) =~= zstd_magic());
        } else {
            if data@.take(4) == zstd_magic() {
                assert(data@.take(4)[0] == data@[0]);
                assert(data@.take(4)[1] == data@[1]);
                assert(data@.take(4)[2] == data@[2]);
                assert(data@.take(4)[3] == data@[3]);
            }
        }
    }
    b
}

/// The serialized message inside a payload of at least four bytes.
pub fn serialized(data: &[u8]) -> (res: Result<Vec<u8>, std::io::Error>)
    requires
        data.len() >= 4,
    ensures
        res is Err <==> spec_serialized(data@) is None,
        res matches Ok(v) ==> spec_serialized(data@) == Some(v@),
{
    if has_zstd_magic(data) {
        zstd_decode_all(data)
    } else {
        Ok(vstd::slice::slice_to_vec(data))
    }
}

} // verus!
