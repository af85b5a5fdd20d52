//! Verified PNG decoding and Gaussian blurring.
//!
//! The library decodes a PNG byte stream into an explicit pixel grid and
//! applies a separable Gaussian blur to pixel buffers.  All arithmetic is
//! integer fixed-point, so every step of both pipelines carries a proved
//! contract; only zlib decompression and CRC-32 are delegated to outside
//! crates behind trusted wrappers.

pub mod blur;
pub mod decode;
pub mod err;
pub mod kernel;
pub mod laws;
pub mod pixel;

use vstd::prelude::*;

use crate::blur::blur;
use crate::blur::blur_bytes_spec;
use crate::decode::decode;
use crate::decode::decode_spec;
use crate::err::ImageError;

verus! {

/// The sigma, in thousandths, that `blur_from_bytes` applies.
pub const DEFAULT_SIGMA_MILLI: u32 = 2000;

/// What `blur_from_bytes` returns: the decoded grid's pixels blurred with
/// the default sigma, or the decode error.
pub open spec fn blur_from_bytes_spec(s: Seq<u8>) -> Result<Seq<u8>, ImageError> {
    match decode_spec(s) {
        Err(e) => Err(e),
        Ok(t) => Ok(blur_bytes_spec(t.3, t.0, t.1, t.2.channels_spec(), DEFAULT_SIGMA_MILLI as int)),
    }
}

/// Decodes a PNG byte stream and blurs the decoded pixels with the default
/// sigma, returning the final pixel bytes.
pub fn blur_from_bytes(bytes: &[u8]) -> (r: Result<Vec<u8>, ImageError>)
    ensures
        match r {
            Ok(v) => blur_from_bytes_spec(bytes@) == Ok::<_, ImageError>(v@),
            Err(e) => blur_from_bytes_spec(bytes@) == Err::<Seq<u8>, _>(e),
        },
{
    let grid = match decode(bytes) {
        Ok(g) => g,
        Err(e) => {
            return Err(e);
        },
    };
    match blur(&grid, DEFAULT_SIGMA_MILLI) {
        Ok(out) => Ok(out.pixels),
        Err(e) => Err(e),
    }
}

} // verus!
