use cursor_api::compression::{decompress_gzip, try_compress_if_beneficial};
use cursor_api::grpc::{Buffer, MessageIter, RawMessage, StreamDecoder};
use cursor_api::proto_encode::{encode_message, encode_message_framed, ExceedSizeLimit};
use flate2::write::GzEncoder;
use flate2::Compression;
use std::io::Write;

#[test]
fn test_exact_size_iterator() {
    let mut buffer = Buffer::new();

    buffer.extend_from_slice(&[0, 0, 0, 0, 3, b'a', b'b', b'c']);
    buffer.extend_from_slice(&[0, 0, 0, 0, 2, b'x', b'y']);

    let mut iter = buffer.iter();

    assert_eq!(iter.len(), 2);
    assert_eq!(iter.size_hint(), (2, Some(2)));

    let mut messages = Vec::new();
    while let Some(m) = iter.next() {
        messages.push(m);
    }
    assert_eq!(messages.len(), 2);
}

#[test]
fn test_fused_iterator() {
    let buffer = Buffer::new();

    let mut iter = buffer.iter();

    assert!(iter.next().is_none());
    assert!(iter.next().is_none());
    assert!(iter.next().is_none());
}

fn count(mut iter: MessageIter<'_>) -> usize {
    let mut n = 0;
    while iter.next().is_some() {
        n += 1;
    }
    n
}

#[test]
fn test_clone_iterator() {
    let mut buffer = Buffer::new();
    buffer.extend_from_slice(&[0, 0, 0, 0, 3, b'a', b'b', b'c']);

    let iter = buffer.iter();
    let iter_clone = iter.clone();

    assert_eq!(count(iter), 1);
    assert_eq!(count(iter_clone), 1);
}

#[test]
fn frames_read_in_order_and_stop_at_partial() {
    let bytes = [0u8, 0, 0, 0, 2, b'h', b'i', 1, 0, 0, 0, 1, b'z', 0, 0, 0];
    let mut iter = MessageIter::new(&bytes);
    let first = iter.next().unwrap();
    assert_eq!(first.message_type, 0);
    assert_eq!(first.data, b"hi");
    assert_eq!(first.total_size(), 7);
    assert_eq!(iter.offset(), 7);
    let second = iter.next().unwrap();
    assert_eq!(second.message_type, 1);
    assert_eq!(second.data, b"z");
    assert!(iter.next().is_none());
    assert_eq!(iter.offset(), 13);
}

#[test]
fn raw_message_total_size() {
    let msg = RawMessage { message_type: 0, data: &[1, 2, 3] };
    assert_eq!(msg.total_size(), 8);
}

#[test]
fn stream_decoder_keeps_partial_frames() {
    let mut decoder = StreamDecoder::new();
    let got: Vec<Vec<u8>> = decoder.decode(&[0, 0, 0, 0, 3, b'a'], |m: RawMessage<'_>| Some(m.data.to_vec()));
    assert!(got.is_empty());
    let got: Vec<Vec<u8>> =
        decoder.decode(&[b'b', b'c', 1, 0, 0, 0, 1, b'q', 0], |m: RawMessage<'_>| {
            if m.message_type == 0 { Some(m.data.to_vec()) } else { None }
        });
    assert_eq!(got, vec![b"abc".to_vec()]);
    let got: Vec<u8> = decoder.decode(&[0, 0, 0, 1, b'r'], |m: RawMessage<'_>| Some(m.message_type));
    assert_eq!(got, vec![0]);
}

#[test]
fn test_too_short() {
    assert!(decompress_gzip(&[]).is_none());
    assert!(decompress_gzip(&[0x1f, 0x8b, 0x08]).is_none());
    assert!(decompress_gzip(&[0u8; 19]).is_none());
}

#[test]
fn test_invalid_magic() {
    let mut data = vec![0u8; 20];
    data[0] = 0x00;
    data[1] = 0x8b;
    data[2] = 0x08;
    assert!(decompress_gzip(&data).is_none());

    data[0] = 0x1f;
    data[1] = 0x00;
    assert!(decompress_gzip(&data).is_none());

    data[1] = 0x8b;
    data[2] = 0x09;
    assert!(decompress_gzip(&data).is_none());
}

#[test]
fn test_gzip_bomb_protection() {
    let mut fake_gzip = vec![0x1f, 0x8b, 0x08];
    fake_gzip.extend_from_slice(&[0u8; 14]);

    let size_2mb = 2 * 1024 * 1024u32;
    fake_gzip.extend_from_slice(&size_2mb.to_le_bytes());

    assert_eq!(fake_gzip.len(), 21);
    assert!(decompress_gzip(&fake_gzip).is_none());
}

#[test]
fn test_valid_gzip() {
    let original = b"Hello, GZIP!";
    let mut encoder = GzEncoder::new(Vec::new(), Compression::default());
    encoder.write_all(original).unwrap();
    let compressed = encoder.finish().unwrap();

    assert!(compressed.len() >= 20);

    let decompressed = decompress_gzip(&compressed).unwrap();
    assert_eq!(&decompressed, original);
}

#[test]
fn test_empty_gzip() {
    let mut encoder = GzEncoder::new(Vec::new(), Compression::default());
    encoder.write_all(&[]).unwrap();
    let compressed = encoder.finish().unwrap();

    assert!(compressed.len() >= 20);

    let decompressed = decompress_gzip(&compressed).unwrap();
    assert_eq!(decompressed.len(), 0);
}

#[test]
fn gzip_size_limit_refuses_large_announced_size() {
    let mut data = vec![0x1f, 0x8b, 0x08];
    data.extend_from_slice(&[0u8; 13]);
    data.extend_from_slice(&(4 * 1024 * 1024u32 + 1).to_le_bytes());
    assert!(decompress_gzip(&data).is_none());
}

#[test]
fn small_bodies_are_not_compressed() {
    assert!(try_compress_if_beneficial(&[7u8; 1024]).is_none());
    let big = vec![b'a'; 4096];
    let c = try_compress_if_beneficial(&big).unwrap();
    assert!(c.len() < big.len());
    assert_eq!(decompress_gzip(&c).unwrap(), big);
    let (body, compressed) = encode_message(vec![1, 2, 3]).unwrap();
    assert_eq!(body, vec![1, 2, 3]);
    assert!(!compressed);
}

#[test]
fn framed_message_reads_back() {
    let frame = encode_message_framed(vec![9, 8, 7]).unwrap();
    assert_eq!(frame, vec![0, 0, 0, 0, 3, 9, 8, 7]);

    let big = vec![b'x'; 5000];
    let frame = encode_message_framed(big.clone()).unwrap();
    assert_eq!(frame[0], 1);
    let mut iter = MessageIter::new(&frame);
    let m = iter.next().unwrap();
    assert_eq!(m.message_type, 1);
    assert_eq!(decompress_gzip(m.data).unwrap(), big);
    assert!(iter.next().is_none());
    assert_eq!(iter.offset(), frame.len());
}

#[test]
fn oversized_message_is_refused() {
    let too_big = vec![0u8; 4 * 1024 * 1024 + 1];
    assert_eq!(encode_message(too_big.clone()).err(), Some(ExceedSizeLimit));
    assert_eq!(encode_message_framed(too_big).err(), Some(ExceedSizeLimit));
    assert_eq!(ExceedSizeLimit::message(), "Message exceeds 4 MiB size limit");
}

#[test]
fn stream_decoder_chunking_gives_same_frames() {
    let stream: Vec<u8> = vec![0, 0, 0, 0, 2, b'h', b'i', 0, 0, 0, 0, 1, b'!', 1, 0, 0, 0, 0];
    let mut whole = StreamDecoder::new();
    let all: Vec<(u8, Vec<u8>)> = whole.decode(&stream, |m: RawMessage<'_>| Some((m.message_type, m.data.to_vec())));
    for cut in 0..=stream.len() {
        let mut d = StreamDecoder::new();
        let mut got: Vec<(u8, Vec<u8>)> =
            d.decode(&stream[..cut], |m: RawMessage<'_>| Some((m.message_type, m.data.to_vec())));
        got.extend(d.decode(&stream[cut..], |m: RawMessage<'_>| Some((m.message_type, m.data.to_vec()))));
        assert_eq!(got, all);
        assert_eq!(d.pending_len(), 0);
    }
    assert_eq!(all.len(), 3);
}

#[test]
fn offset_is_the_size_of_the_frames_read() {
    let bytes = [0u8, 0, 0, 0, 3, b'a', b'b', b'c', 0, 0, 0, 0, 2, b'x', b'y'];
    let mut iter = MessageIter::new(&bytes);
    let mut sizes = 0;
    while let Some(m) = iter.next() {
        sizes += m.total_size();
        assert_eq!(iter.offset(), sizes);
    }
    assert_eq!(iter.offset(), 15);
    assert!(iter.next().is_none());
    assert_eq!(iter.offset(), 15);
}

#[test]
fn stream_decoder_three_chunks_give_the_whole_stream_frames() {
    let stream = [0u8, 0, 0, 0, 3, b'a', b'b', b'c', 1, 0, 0, 0, 2, b'x', b'y', 0, 0, 0, 0];
    let mut whole = StreamDecoder::new();
    let all: Vec<Vec<u8>> = whole.decode(&stream, |m: RawMessage<'_>| Some(m.data.to_vec()));
    let mut d = StreamDecoder::new();
    let mut got: Vec<Vec<u8>> = Vec::new();
    for chunk in [&stream[..2], &stream[2..10], &stream[10..]] {
        got.extend(d.decode(chunk, |m: RawMessage<'_>| Some(m.data.to_vec())));
    }
    assert_eq!(got, all);
    assert_eq!(all, vec![b"abc".to_vec(), b"xy".to_vec()]);
}
