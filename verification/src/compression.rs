//! Gzip for message bodies: guarded decompression and compression that is
//! kept only when it pays.  The codec itself is `flate2`'s.
use crate::grpc::MAX_DECOMPRESSED_SIZE_BYTES;
use std::io::Read as _;
use std::io::Write as _;
use vstd::prelude::*;

verus! {

/// What `flate2`'s gzip decoder reads from `data`, `None` where it fails.
pub uninterp spec fn gzip_decompress(data: Seq<u8>) -> Option<Seq<u8>>;

/// What `flate2`'s gzip encoder at level 6 writes for `data`.
pub uninterp spec fn gzip_compress(data: Seq<u8>) -> Seq<u8>;

/// The little-endian 32-bit number at `s[i..i + 4]`.
pub open spec fn le_u32_at(s: Seq<u8>, i: int) -> nat {
    (s[i] as nat) + (s[i + 1] as nat) * 0x100 + (s[i + 2] as nat) * 0x1_0000 + (s[i + 3] as nat)
        * 0x100_0000
}

/// What is known of a gzip stream `c` written for `data`: a 10-byte header
/// that starts `1f 8b 08`, a deflate stream of at least 2 bytes, and a footer
/// whose last 4 bytes are the input's length modulo `2^32`, little-endian;
/// decoding it gives `data` back.
pub open spec fn gzip_stream_facts(c: Seq<u8>, data: Seq<u8>) -> bool {
    &&& c.len() >= 20
    &&& c[0] == 0x1f
    &&& c[1] == 0x8b
    &&& c[2] == 0x08
    &&& le_u32_at(c, c.len() - 4) == data.len() % 0x1_0000_0000
    &&& gzip_decompress(c) == Some(data)
}

/// What is known of the gzip stream written for `data`.
pub open spec fn gzip_facts(data: Seq<u8>) -> bool {
    gzip_stream_facts(gzip_compress(data), data)
}

/// Gzip-decodes `data`, through `flate2::read::GzDecoder` and `read_to_end`.
///
/// Trusted: the result depends on the bytes alone; any error of the decoder
/// comes back as `None`.  `capacity` only sizes the first allocation.
#[verifier::external_body]
fn gunzip(data: &[u8], capacity: usize) -> (r: Option<Vec<u8>>)
    ensures
        match r {
            Some(v) => gzip_decompress(data@) == Some(v@),
            None => gzip_decompress(data@) is None,
        },
{
    let mut decoder = flate2::read::GzDecoder::new(data);
    let mut out = Vec::with_capacity(capacity);
    match decoder.read_to_end(&mut out) {
        Ok(_) => Some(out),
        Err(_) => None,
    }
}

/// Gzip-encodes `data` at level 6, through `flate2::write::GzEncoder` over a
/// `Vec` (`write_all`, then `finish`).
///
/// Trusted: writing into a `Vec` does not fail; the stream has the gzip
/// header with no name, time 0 and system 255, the deflate data, and the
/// CRC-32 and length footer (RFC 1952); the decoder reads it back.
/// `capacity` only sizes the first allocation.
#[verifier::external_body]
fn gzip(data: &[u8], capacity: usize) -> (r: Vec<u8>)
    ensures
        r@ == gzip_compress(data@),
        gzip_stream_facts(r@, data@),
{
    let mut encoder = flate2::write::GzEncoder::new(
        Vec::with_capacity(capacity),
        flate2::Compression::new(6),
    );
    match encoder.write_all(data) {
        Ok(()) => {},
        Err(_) => {},
    }
    match encoder.finish() {
        Ok(v) => v,
        Err(_) => Vec::new(),
    }
}

/// What `decompress_gzip` gives: inputs shorter than the smallest gzip
/// stream (20 bytes), without the gzip magic and deflate method, or whose
/// footer announces more than `MAX_DECOMPRESSED_SIZE_BYTES`, are refused
/// before decoding.
pub open spec fn spec_decompress_gzip(data: Seq<u8>) -> Option<Seq<u8>> {
    if data.len() < 20 || data[0] != 0x1f || data[1] != 0x8b || data[2] != 0x08 {
        None
    } else if le_u32_at(data, data.len() - 4) > MAX_DECOMPRESSED_SIZE_BYTES {
        None
    } else {
        gzip_decompress(data)
    }
}

/// Decompresses a gzip body, refusing what cannot be gzip and what would
/// grow past the size limit.
pub fn decompress_gzip(data: &[u8]) -> (r: Option<Vec<u8>>)
    ensures
        match r {
            Some(v) => spec_decompress_gzip(data@) == Some(v@),
            None => spec_decompress_gzip(data@) is None,
        },
{
    let n = data.len();
    if n < 20 {
        return None;
    }
    if data[0] != 0x1f || data[1] != 0x8b || data[2] != 0x08 {
        return None;
    }
    let b0 = data[n - 4] as u32;
    let b1 = data[n - 3] as u32;
    let b2 = data[n - 2] as u32;
    let b3 = data[n - 1] as u32;
    assert(b0 + b1 * 0x100 + b2 * 0x1_0000 + b3 * 0x100_0000 <= 0xffff_ffff) by (nonlinear_arith)
        requires
            b0 < 256,
            b1 < 256,
            b2 < 256,
            b3 < 256,
    ;
    let capacity = (b0 + b1 * 0x100 + b2 * 0x1_0000 + b3 * 0x100_0000) as usize;
    if capacity > MAX_DECOMPRESSED_SIZE_BYTES {
        return None;
    }
    gunzip(data, capacity)
}

/// Gzip-compresses `data` at level 6.
pub fn compress_gzip(data: &[u8]) -> (r: Vec<u8>)
    ensures
        r@ == gzip_compress(data@),
        gzip_facts(data@),
{
    let capacity = data.len() / 2 + 18;
    gzip(data, capacity)
}

/// The smallest body that is worth compressing is larger than this.
pub const COMPRESSION_THRESHOLD: usize = 1024;

/// What `try_compress_if_beneficial` gives: the compressed body when the
/// input is larger than the threshold and compression makes it shorter.
pub open spec fn spec_try_compress(data: Seq<u8>) -> Option<Seq<u8>> {
    if data.len() <= COMPRESSION_THRESHOLD {
        None
    } else if gzip_compress(data).len() < data.len() {
        Some(gzip_compress(data))
    } else {
        None
    }
}

/// Compresses `data` when it is larger than 1 KiB and the result is shorter.
pub fn try_compress_if_beneficial(data: &[u8]) -> (r: Option<Vec<u8>>)
    ensures
        match r {
            Some(c) => spec_try_compress(data@) == Some(c@),
            None => spec_try_compress(data@) is None,
        },
        data@.len() > COMPRESSION_THRESHOLD ==> gzip_facts(data@),
{
    if data.len() <= COMPRESSION_THRESHOLD {
        return None;
    }
    let compressed = compress_gzip(data);
    if compressed.len() < data.len() {
        Some(compressed)
    } else {
        None
    }
}

/// A gzip stream written here passes the checks of `decompress_gzip` and
/// decodes to what was compressed, for inputs within the size limit.
pub proof fn lemma_gzip_roundtrip(data: Seq<u8>)
    requires
        gzip_facts(data),
        data.len() <= MAX_DECOMPRESSED_SIZE_BYTES,
    ensures
        spec_decompress_gzip(gzip_compress(data)) == Some(data),
{
    vstd::arithmetic::div_mod::lemma_small_mod(data.len(), 0x1_0000_0000);
}

} // verus!
