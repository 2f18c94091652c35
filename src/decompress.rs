use vstd::prelude::*;

use crate::error::DecompressionError;
use crate::header::PMTilesCompression;

verus! {

/// The bytes that inflating the gzip stream `b` gives, or `None` where the
/// stream is corrupt.
pub uninterp spec fn gunzip_of(b: Seq<u8>) -> Option<Seq<u8>>;

/// Relies on `flate2::read::GzDecoder` read to the end: it inflates the gzip
/// stream held in `b`, and fails on a corrupt one. The outcome depends on the
/// bytes alone.
#[verifier::external_body]
fn gunzip(b: &[u8]) -> (r: Option<Vec<u8>>)
    ensures
        match r {
            Some(v) => gunzip_of(b@) == Some(v@),
            None => gunzip_of(b@) is None,
        },
{
    let mut out: Vec<u8> = Vec::new();
    match std::io::Read::read_to_end(&mut flate2::read::GzDecoder::new(b), &mut out) {
        Ok(_) => Some(out),
        Err(_) => None,
    }
}

/// Whether this library decodes blocks compressed with `kind`.
pub open spec fn is_supported(kind: PMTilesCompression) -> bool {
    kind == PMTilesCompression::Uncompressed || kind == PMTilesCompression::Gzip
}

/// What decompressing the block `raw`, compressed with `kind`, gives. An
/// empty block is an absent region and decompresses to nothing, whatever the
/// kind.
pub open spec fn decompress_spec(raw: Seq<u8>, kind: PMTilesCompression) -> Result<
    Seq<u8>,
    DecompressionError,
> {
    if raw.len() == 0 {
        Ok(Seq::empty())
    } else {
        match kind {
            PMTilesCompression::Uncompressed => Ok(raw),
            PMTilesCompression::Gzip => match gunzip_of(raw) {
                Some(v) => Ok(v),
                None => Err(DecompressionError::CorruptStream),
            },
            _ => Err(DecompressionError::NotImplemented(kind)),
        }
    }
}

/// Decompresses the block `raw`, compressed with `kind`. Gzip is inflated and
/// uncompressed blocks are handed back as they are; the other kinds fail
/// with `NotImplemented`.
pub fn decompress(raw: &[u8], kind: PMTilesCompression) -> (r: Result<Vec<u8>, DecompressionError>)
    ensures
        match decompress_spec(raw@, kind) {
            Ok(v) => r matches Ok(out) && out@ == v,
            Err(e) => r == Err::<Vec<u8>, DecompressionError>(e),
        },
{
    if raw.len() == 0 {
        return Ok(Vec::new());
    }
    match kind {
        PMTilesCompression::Uncompressed => Ok(vstd::slice::slice_to_vec(raw)),
        PMTilesCompression::Gzip => match gunzip(raw) {
            Some(v) => Ok(v),
            None => Err(DecompressionError::CorruptStream),
        },
        PMTilesCompression::Unknown => Err(DecompressionError::NotImplemented(kind)),
        PMTilesCompression::Brotli => Err(DecompressionError::NotImplemented(kind)),
        PMTilesCompression::Zstd => Err(DecompressionError::NotImplemented(kind)),
    }
}

} // verus!
