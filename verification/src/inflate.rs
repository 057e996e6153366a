//! Inflating the zlib stream of a compressed envelope.

use flate2::Decompress;
use flate2::DecompressError;
use flate2::FlushDecompress;
use vstd::prelude::*;

verus! {

/// `flate2::DecompressError`, which is only ever turned into
/// `CompressionFailure`.
#[verifier::external_type_specification]
#[verifier::external_body]
pub struct ExDecompressError(flate2::DecompressError);

/// What a fresh zlib decompressor writes when it is handed `stream` and room
/// for `limit` bytes in one call: the bytes written, or `None` where it
/// reports the stream as corrupt. A stream that inflates to more than `limit`
/// bytes, or that ends early, is no error: the decompressor writes what it
/// can and stops.
pub uninterp spec fn zlib_inflated(stream: Seq<u8>, limit: nat) -> Option<Seq<u8>>;

/// Makes a decompressor with `Decompress::new(true)`, calls its `decompress`
/// once, with `FlushDecompress::None`, on `stream` and a zeroed buffer of
/// `limit` bytes, and keeps the first `total_out()` bytes of that buffer.
/// Trusted: the outcome depends on `stream` and `limit` alone, so it has a
/// name. The buffer has exactly `limit` bytes, so that the outcome does not
/// depend on how much room an allocator chose to give.
#[verifier::external_body]
pub(crate) fn zlib_inflate(stream: &[u8], limit: usize) -> (r: Result<Vec<u8>, DecompressError>)
    ensures
        match r {
            Ok(data) => zlib_inflated(stream@, limit as nat) == Some(data@),
            Err(_) => zlib_inflated(stream@, limit as nat) is None,
        },
{
    let mut data = vec![0u8; limit];
    let mut inflater = Decompress::new(true);
    inflater.decompress(stream, &mut data, FlushDecompress::None)?;
    data.truncate(inflater.total_out() as usize);
    Ok(data)
}

} // verus!
