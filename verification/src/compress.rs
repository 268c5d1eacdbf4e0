//! Content encoding: the gzip form of a body.

use crate::error::ServerError;
use vstd::prelude::*;
use vstd::string::*;

verus! {

/// `std::io::Error`, the error of the encoder. Nothing is said of what it
/// holds.
#[verifier::external_type_specification]
#[verifier::external_body]
pub struct ExIoError(std::io::Error);

/// What the encoder gives for `data` at its default level: the gzip stream,
/// or nothing where the encoder reports a failure.
pub uninterp spec fn gzip_outcome(data: Seq<u8>) -> Option<Seq<u8>>;

/// Runs `flate2::write::GzEncoder` over `data`: a new encoder at
/// `Compression::default()` that writes into an empty vector, `write_all`
/// with the data, then `finish`. The encoder writes into memory, and its
/// header holds no time and no file name, so whether a stream comes out,
/// and which, depends on the data alone. The outcome is named, not spelled
/// out: no input is promised a stream here.
#[verifier::external_body]
fn gzip_encode(data: &[u8]) -> (out: Result<Vec<u8>, std::io::Error>)
    ensures
        match out {
            Ok(stream) => gzip_outcome(data@) == Some(stream@),
            Err(_) => gzip_outcome(data@) is None,
        },
{
    let mut encoder = flate2::write::GzEncoder::new(Vec::new(), flate2::Compression::default());
    std::io::Write::write_all(&mut encoder, data)?;
    encoder.finish()
}

/// The gzip form of the bytes of `compression_target`: the stream where
/// the encoder gives one, and `CompressionError` where it reports a
/// failure.
pub fn handle_compression(compression_target: &str) -> (out: Result<Vec<u8>, ServerError>)
    ensures
        match gzip_outcome(compression_target.spec_bytes()) {
            Some(stream) => out matches Ok(v) && v@ == stream,
            None => out matches Err(e) && e == ServerError::CompressionError,
        },
{
    match gzip_encode(compression_target.as_bytes()) {
        Ok(stream) => Ok(stream),
        Err(_) => Err(ServerError::CompressionError),
    }
}

} // verus!
