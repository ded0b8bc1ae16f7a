//! Encoded protobuf messages made ready to send: refused past the size
//! limit, compressed when that pays, and framed for a gRPC stream.  The
//! message's protobuf encoding is made by the caller.
use crate::compression::{
    gzip_compress, gzip_facts, lemma_gzip_roundtrip, spec_decompress_gzip, spec_try_compress,
    try_compress_if_beneficial,
};
use crate::grpc::{be_u32_at, frames_end, frames_from, MAX_DECOMPRESSED_SIZE_BYTES};
use vstd::prelude::*;

verus! {

/// A message too large to be sent.
#[derive(Debug, Clone, Copy, PartialEq, Eq, Structural)]
pub struct ExceedSizeLimit;

impl ExceedSizeLimit {
    pub fn message() -> (s: &'static str)
        ensures
            s@ == "Message exceeds 4 MiB size limit"@,
    {
        "Message exceeds 4 MiB size limit"
    }
}

/// What `encode_message` gives for an encoded message: the body to send and
/// whether it is compressed.
pub open spec fn spec_encode_message(encoded: Seq<u8>) -> Result<(Seq<u8>, bool), ExceedSizeLimit> {
    if encoded.len() > MAX_DECOMPRESSED_SIZE_BYTES {
        Err(ExceedSizeLimit)
    } else {
        match spec_try_compress(encoded) {
            Some(c) => Ok((c, true)),
            None => Ok((encoded, false)),
        }
    }
}

/// The body to send for an encoded message, and whether it is gzip-compressed.
pub fn encode_message(encoded: Vec<u8>) -> (r: Result<(Vec<u8>, bool), ExceedSizeLimit>)
    ensures
        match r {
            Ok((body, compressed)) => spec_encode_message(encoded@) == Ok::<
                (Seq<u8>, bool),
                ExceedSizeLimit,
            >((body@, compressed)),
            Err(e) => spec_encode_message(encoded@) == Err::<(Seq<u8>, bool), ExceedSizeLimit>(e),
        },
        r matches Ok((body, compressed)) ==> (if compressed {
            spec_decompress_gzip(body@) == Some(encoded@)
        } else {
            body@ == encoded@
        }),
{
    if encoded.len() > MAX_DECOMPRESSED_SIZE_BYTES {
        return Err(ExceedSizeLimit);
    }
    match try_compress_if_beneficial(encoded.as_slice()) {
        Some(compressed) => {
            proof {
                lemma_gzip_roundtrip(encoded@);
            }
            Ok((compressed, true))
        },
        None => Ok((encoded, false)),
    }
}

/// The four big-endian bytes of `n`.
pub open spec fn be_u32_bytes(n: nat) -> Seq<u8> {
    seq![
        ((n / 0x100_0000) % 256) as u8,
        ((n / 0x1_0000) % 256) as u8,
        ((n / 0x100) % 256) as u8,
        (n % 256) as u8,
    ]
}

/// One frame: its type, the body's length (big-endian) and the body.
pub open spec fn spec_frame(message_type: u8, body: Seq<u8>) -> Seq<u8> {
    seq![message_type] + be_u32_bytes(body.len()) + body
}

/// What `encode_message_framed` gives for an encoded message.
pub open spec fn spec_encode_message_framed(encoded: Seq<u8>) -> Result<Seq<u8>, ExceedSizeLimit> {
    if encoded.len() > MAX_DECOMPRESSED_SIZE_BYTES {
        Err(ExceedSizeLimit)
    } else {
        match spec_try_compress(encoded) {
            Some(c) => Ok(spec_frame(1, c)),
            None => Ok(spec_frame(0, encoded)),
        }
    }
}

fn push_frame(message_type: u8, body: &[u8]) -> (r: Vec<u8>)
    requires
        body@.len() <= 0xffff_ffff,
    ensures
        r@ == spec_frame(message_type, body@),
{
    let n = body.len() as u32;
    let mut out: Vec<u8> = Vec::new();
    out.push(message_type);
    out.push((n / 0x100_0000) as u8);
    out.push(((n / 0x1_0000) % 256) as u8);
    out.push(((n / 0x100) % 256) as u8);
    out.push((n % 256) as u8);
    out.extend_from_slice(body);
    proof {
        assert((n / 0x100_0000) < 256);
        assert(out@ =~= spec_frame(message_type, body@));
    }
    out
}

/// The framed message: `[type][length, 4 bytes big-endian][body]`, with type
/// `1` and a gzip body when compression pays, type `0` and the encoded
/// message otherwise.
pub fn encode_message_framed(encoded: Vec<u8>) -> (r: Result<Vec<u8>, ExceedSizeLimit>)
    ensures
        match r {
            Ok(frame) => spec_encode_message_framed(encoded@) == Ok::<Seq<u8>, ExceedSizeLimit>(
                frame@,
            ),
            Err(e) => spec_encode_message_framed(encoded@) == Err::<Seq<u8>, ExceedSizeLimit>(e),
        },
        r matches Ok(f) ==> {
            &&& frames_from(f@, 0).len() == 1
            &&& frames_end(f@, 0) == f@.len()
            &&& frame_payload(frames_from(f@, 0)[0].0, frames_from(f@, 0)[0].1) == Some(encoded@)
        },
{
    if encoded.len() > MAX_DECOMPRESSED_SIZE_BYTES {
        return Err(ExceedSizeLimit);
    }
    let c = try_compress_if_beneficial(encoded.as_slice());
    proof {
        lemma_framed_message_roundtrip(encoded@);
    }
    match c {
        Some(compressed) => Ok(push_frame(1, compressed.as_slice())),
        None => Ok(push_frame(0, encoded.as_slice())),
    }
}

/// A frame written here reads back, whole, as its type and body.
pub proof fn lemma_frame_reads_back(message_type: u8, body: Seq<u8>)
    requires
        body.len() <= 0xffff_ffff,
    ensures
        frames_from(spec_frame(message_type, body), 0) == seq![(message_type, body)],
        frames_end(spec_frame(message_type, body), 0) == spec_frame(message_type, body).len(),
{
    let f = spec_frame(message_type, body);
    let n = body.len();
    assert(be_u32_at(f, 1) == n) by {
        assert(f[1] == ((n / 0x100_0000) % 256) as u8);
        assert(f[2] == ((n / 0x1_0000) % 256) as u8);
        assert(f[3] == ((n / 0x100) % 256) as u8);
        assert(f[4] == (n % 256) as u8);
        assert(((n / 0x100_0000) % 256) * 0x100_0000 + ((n / 0x1_0000) % 256) * 0x1_0000 + ((n
            / 0x100) % 256) * 0x100 + n % 256 == n) by (nonlinear_arith)
            requires
                n <= 0xffff_ffff,
        ;
    }
    assert(f.subrange(5, 5 + n as int) =~= body);
    assert(frames_from(f, (5 + n) as nat) =~= Seq::<(u8, Seq<u8>)>::empty());
    assert(frames_from(f, 0) =~= seq![(message_type, body)]);
    assert(frames_end(f, (5 + n) as nat) == 5 + n);
}

/// The message a frame carries: the body itself for type `0`, its gzip
/// decompression for type `1`.
pub open spec fn frame_payload(message_type: u8, body: Seq<u8>) -> Option<Seq<u8>> {
    if message_type == 0 {
        Some(body)
    } else if message_type == 1 {
        spec_decompress_gzip(body)
    } else {
        None
    }
}

/// A framed message is one whole frame, and what it carries is the encoded
/// message that went in.
pub proof fn lemma_framed_message_roundtrip(encoded: Seq<u8>)
    requires
        encoded.len() <= MAX_DECOMPRESSED_SIZE_BYTES,
        encoded.len() > 1024 ==> gzip_facts(encoded),
    ensures
        ({
            let f = spec_encode_message_framed(encoded).unwrap();
            &&& spec_encode_message_framed(encoded) is Ok
            &&& frames_from(f, 0).len() == 1
            &&& frames_end(f, 0) == f.len()
            &&& frame_payload(frames_from(f, 0)[0].0, frames_from(f, 0)[0].1) == Some(encoded)
        }),
{
    match spec_try_compress(encoded) {
        Some(c) => {
            lemma_frame_reads_back(1, c);
            lemma_gzip_roundtrip(encoded);
        },
        None => {
            lemma_frame_reads_back(0, encoded);
        },
    }
}

} // verus!
