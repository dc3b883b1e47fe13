//! Gzip compression and decompression, delegated to flate2.
//!
//! Both directions are pure functions of the input bytes: the encoder is
//! configured for reproducible output (header timestamp zero and a fixed
//! operating-system byte), and decoding is deterministic.  The two byte
//! transformations are named rather than specified in full, since their
//! exact output is the DEFLATE algorithm's.

use vstd::prelude::*;

verus! {

/// The gzip stream flate2's encoder emits for `data` at the default
/// compression level.
pub uninterp spec fn gzip_of(data: Seq<u8>) -> Seq<u8>;

/// The bytes flate2's decoder recovers from the gzip stream `data`, or
/// `None` when `data` is not one it can decode.
pub uninterp spec fn gunzip_of(data: Seq<u8>) -> Option<Seq<u8>>;

/// Relies on flate2's `write::GzEncoder` at the default compression
/// level: the emitted stream depends on the input bytes alone (the
/// header carries mtime 0 and a fixed operating-system byte), the
/// call returns on every input, since the encoder's only error source
/// is its sink's `Write` and writing into a `Vec` never fails, and
/// flate2's decoder recovers exactly the input from the emitted
/// stream, so decompression inverts this compression.
#[verifier::external_body]
pub(crate) fn gzip_bytes(data: &[u8]) -> (r: Vec<u8>)
    ensures
        r@ == gzip_of(data@),
        gunzip_of(r@) == Some(data@),
{
    let mut encoder = flate2::write::GzEncoder::new(Vec::new(), flate2::Compression::default());
    std::io::Write::write_all(&mut encoder, data).expect("a Vec sink accepts every write");
    encoder.finish().expect("a Vec sink accepts every write")
}

/// Relies on flate2's `read::GzDecoder`: recovers the decompressed bytes
/// of a gzip stream, and fails exactly on input it cannot decode.
#[verifier::external_body]
pub(crate) fn gunzip_bytes(data: &[u8]) -> (r: Result<Vec<u8>, ()>)
    ensures
        r matches Ok(v) ==> gunzip_of(data@) == Some(v@),
        r is Err ==> gunzip_of(data@) is None,
{
    let mut decoder = flate2::read::GzDecoder::new(data);
    let mut buf = Vec::new();
    match std::io::Read::read_to_end(&mut decoder, &mut buf) {
        Ok(_) => Ok(buf),
        Err(_) => Err(()),
    }
}

} // verus!
