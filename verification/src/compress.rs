//! The entropy-coding step, delegated to the zstd crate.
use vstd::prelude::*;

verus! {

use crate::Ktx2Error;

/// The zstd frame that `zstd::bulk::compress` produces for `data` at
/// compression level `level`.  One-shot zstd compression at a fixed level
/// is a deterministic function of the input bytes alone.
pub uninterp spec fn zstd_compressed(data: Seq<u8>, level: int) -> Seq<u8>;

/// Relies on `zstd::bulk::compress`: compresses a single block of data at
/// the given level (0 selects zstd's default level) and returns the
/// compressed frame, or an error when the coder refuses, for instance on an
/// invalid level.
#[verifier::external_body]
pub(crate) fn zstd_compress(data: &[u8], level: i32) -> (r: Result<Vec<u8>, Ktx2Error>)
    ensures
        r matches Ok(v) ==> v@ == zstd_compressed(data@, level as int),
        r matches Err(e) ==> e == Ktx2Error::Compression,
{
    match zstd::bulk::compress(data, level) {
        Ok(v) => Ok(v),
        Err(_) => Err(Ktx2Error::Compression),
    }
}

} // verus!
