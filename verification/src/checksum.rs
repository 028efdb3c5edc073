//! CRC-32 and raw DEFLATE decoding, provided by `crc32fast` and `flate2`.

use vstd::prelude::*;

verus! {

/// The CRC-32 (IEEE 802.3) checksum of a byte sequence.
pub uninterp spec fn crc32_of(data: Seq<u8>) -> u32;

/// Computes the CRC-32 of `data` with `crc32fast::hash`; the result is the
/// checksum of exactly these bytes.
#[verifier::external_body]
pub(crate) fn crc32(data: &[u8]) -> (r: u32)
    ensures
        r == crc32_of(data@),
{
    crc32fast::hash(data)
}

/// What a raw DEFLATE decoder makes of a complete input stream:
/// the decompressed bytes, or `None` when decoding fails.
pub uninterp spec fn inflate_result(data: Seq<u8>) -> Option<Seq<u8>>;

/// Decompresses a raw DEFLATE stream by reading a `flate2::read::DeflateDecoder`
/// over `data` to its end; `None` when the decoder reports an error.
#[verifier::external_body]
pub(crate) fn inflate(data: &[u8]) -> (r: Option<Vec<u8>>)
    ensures
        match r {
            Some(v) => inflate_result(data@) == Some(v@),
            None => inflate_result(data@) is None,
        },
{
    let mut decoder = flate2::read::DeflateDecoder::new(data);
    let mut out: Vec<u8> = Vec::new();
    match std::io::Read::read_to_end(&mut decoder, &mut out) {
        Ok(_) => Some(out),
        Err(_) => None,
    }
}

} // verus!
