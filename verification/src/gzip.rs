//! Gzip compression for region files, through `flate2`.
//!
//! Compression output is a function of the input bytes alone (fixed header
//! fields, deterministic algorithm), so it is named rather than described:
//! [`gzip_of`] is what the encoder emits, [`gunzip_of`] what decoding
//! yields. The one fact callers rely on is the documented round trip:
//! decoding what the encoder produced gives the original bytes back.

use std::io::Read;
use std::io::Write;
use vstd::prelude::*;

verus! {

/// The gzip stream `flate2`'s encoder produces for the given bytes, at the
/// default compression level.
pub uninterp spec fn gzip_of(data: Seq<u8>) -> Seq<u8>;

/// What gzip decoding yields for the given bytes: the decompressed bytes,
/// or nothing when the input is not a valid gzip stream.
pub uninterp spec fn gunzip_of(data: Seq<u8>) -> Option<Seq<u8>>;

/// Relies on `flate2::write::GzEncoder`: compresses the input bytes in
/// memory; decoding the result gives the input back.
#[verifier::external_body]
pub fn gzip_compress(data: &Vec<u8>) -> (r: Vec<u8>)
    ensures
        r@ == gzip_of(data@),
        gunzip_of(r@) == Some(data@),
{
    let mut encoder = flate2::write::GzEncoder::new(Vec::new(), flate2::Compression::default());
    encoder.write_all(&data[..]).unwrap();
    encoder.finish().unwrap()
}

/// Relies on `flate2::read::GzDecoder`: decompresses the input bytes in
/// memory, failing exactly on invalid gzip streams.
#[verifier::external_body]
pub fn gzip_decompress(data: &Vec<u8>) -> (r: Option<Vec<u8>>)
    ensures
        match gunzip_of(data@) {
            Some(d) => r matches Some(v) && v@ == d,
            None => r is None,
        },
{
    let mut out = Vec::new();
    let mut decoder = flate2::read::GzDecoder::new(&data[..]);
    match decoder.read_to_end(&mut out) {
        Ok(_) => Some(out),
        Err(_) => None,
    }
}

} // verus!
