//! Compression of packet payloads, done by `miniz_oxide`.

use vstd::prelude::*;

verus! {

/// `miniz_oxide::inflate::DecompressError`, the error of a stream that
/// cannot be read. It is only carried; nothing is said of what it holds.
#[verifier::external_type_specification]
#[verifier::external_body]
pub struct ExDecompressError(miniz_oxide::inflate::DecompressError);

/// What `miniz_oxide` makes of `data` when it compresses it with a zlib
/// wrapper at the given level.
pub uninterp spec fn zlib_deflated(data: Seq<u8>, level: u8) -> Seq<u8>;

/// What `miniz_oxide` reads out of the zlib stream `data`, or `None` where it
/// rejects the stream.
pub uninterp spec fn zlib_inflated(data: Seq<u8>) -> Option<Seq<u8>>;

/// Calls `miniz_oxide::deflate::compress_to_vec_zlib`. Nothing is proved of
/// the compressed bytes; the contract only gives them their name.
#[verifier::external_body]
pub(crate) fn compress_zlib(data: &Vec<u8>, level: u8) -> (out: Vec<u8>)
    ensures
        out@ == zlib_deflated(data@, level),
{
    miniz_oxide::deflate::compress_to_vec_zlib(data, level)
}

/// Calls `miniz_oxide::inflate::decompress_to_vec_zlib`. Nothing is proved of
/// what comes out; the contract only gives it its name, and says that an
/// error is returned exactly where the stream is rejected.
#[verifier::external_body]
pub(crate) fn decompress_zlib(data: &Vec<u8>) -> (r: Result<
    Vec<u8>,
    miniz_oxide::inflate::DecompressError,
>)
    ensures
        r.is_ok() == zlib_inflated(data@).is_some(),
        r matches Ok(v) ==> v@ == zlib_inflated(data@).unwrap(),
{
    miniz_oxide::inflate::decompress_to_vec_zlib(data)
}

} // verus!
