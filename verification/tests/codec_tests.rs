use std::io::Read;
use std::io::Write;

use compression_tool::codec::CodecSink;
use compression_tool::config::CompressionLevel;
use compression_tool::error::TransferError;

fn level(n: u32) -> CompressionLevel {
    CompressionLevel::new(n).expect("level in range")
}

fn sample(len: usize) -> Vec<u8> {
    let mut state: u32 = 0x1234_5678;
    let mut out = Vec::with_capacity(len);
    for i in 0..len {
        state = state.wrapping_mul(1_664_525).wrapping_add(1_013_904_223);
        if i % 3 == 0 {
            out.push((state >> 24) as u8);
        } else {
            out.push(b'a' + (i % 7) as u8);
        }
    }
    out
}

fn reference_gzip(data: &[u8]) -> Vec<u8> {
    let mut encoder = flate2::write::GzEncoder::new(Vec::new(), flate2::Compression::new(6));
    encoder.write_all(data).expect("write");
    encoder.finish().expect("finish")
}

fn reference_gunzip(stream: &[u8]) -> Vec<u8> {
    let mut out = Vec::new();
    flate2::read::GzDecoder::new(stream).read_to_end(&mut out).expect("valid gzip");
    out
}

#[test]
fn encoder_output_is_gzip_that_the_codec_reads_back() {
    let data = sample(50_000);
    let mut sink = CodecSink::encoder(level(6));
    let mut stream = Vec::new();
    for chunk in data.chunks(8192) {
        stream.extend(sink.write(chunk).expect("write"));
    }
    stream.extend(sink.finish().expect("finish"));
    assert_ne!(stream, data);
    assert_eq!(&stream[..3], &[0x1f, 0x8b, 0x08]);
    assert_eq!(reference_gunzip(&stream), data);
}

#[test]
fn encoder_hands_out_each_byte_once() {
    let data = sample(200_000);
    let mut sink = CodecSink::encoder(level(1));
    let mut pieces: Vec<Vec<u8>> = Vec::new();
    for chunk in data.chunks(1000) {
        pieces.push(sink.write(chunk).expect("write"));
    }
    pieces.push(sink.finish().expect("finish"));
    assert!(pieces.iter().filter(|p| !p.is_empty()).count() > 1);
    let stream: Vec<u8> = pieces.concat();
    assert_eq!(reference_gunzip(&stream), data);
}

#[test]
fn encoder_level_shows_in_the_header() {
    let mut found = Vec::new();
    for n in [1u32, 6, 9] {
        let mut sink = CodecSink::encoder(level(n));
        let mut stream = sink.write(b"hello hello hello").expect("write");
        stream.extend(sink.finish().expect("finish"));
        found.push(stream[8]);
    }
    assert_eq!(found, vec![4, 0, 2]);
}

#[test]
fn decoder_restores_what_the_codec_compressed() {
    let data = sample(70_000);
    let stream = reference_gzip(&data);
    let mut sink = CodecSink::decoder();
    let mut out = Vec::new();
    for chunk in stream.chunks(512) {
        out.extend(sink.write(chunk).expect("write"));
    }
    out.extend(sink.finish().expect("finish"));
    assert_eq!(out, data);
    assert_ne!(out, stream);
}

#[test]
fn decoder_takes_the_stream_one_byte_at_a_time() {
    let data = b"one byte at a time, header and trailer included".to_vec();
    let stream = reference_gzip(&data);
    let mut sink = CodecSink::decoder();
    let mut out = Vec::new();
    for byte in stream.iter() {
        out.extend(sink.write(&[*byte]).expect("write"));
    }
    out.extend(sink.finish().expect("finish"));
    assert_eq!(out, data);
}

#[test]
fn decoder_ignores_what_follows_the_gzip_member() {
    let data = sample(3000);
    let mut stream = reference_gzip(&data);
    stream.extend_from_slice(b"trailing bytes that are not gzip");
    let mut sink = CodecSink::decoder();
    assert!(!sink.member_ended());
    let mut out = sink.write(&stream).expect("write");
    assert!(sink.member_ended());
    out.extend(sink.write(b"and some more").expect("write after the end"));
    assert!(sink.member_ended());
    out.extend(sink.finish().expect("finish"));
    assert_eq!(out, data);
}

#[test]
fn the_member_has_not_ended_while_nothing_follows_it() {
    let data = sample(3000);
    let stream = reference_gzip(&data);
    let mut sink = CodecSink::decoder();
    let mut out = sink.write(&stream).expect("write");
    assert!(!sink.member_ended());
    out.extend(sink.finish().expect("finish"));
    assert_eq!(out, data);

    let mut sink = CodecSink::encoder(level(6));
    sink.write(&data).expect("write");
    assert!(!sink.member_ended());

    let mut sink = CodecSink::decoder();
    assert_eq!(sink.write(b"not gzip at all"), Err(TransferError::CodecError));
    assert!(!sink.member_ended());
}

#[test]
fn decoder_rejects_bytes_that_are_not_gzip() {
    let mut sink = CodecSink::decoder();
    let garbage = sample(64);
    assert_eq!(sink.write(&garbage), Err(TransferError::CodecError));
    assert_eq!(sink.write(&garbage), Err(TransferError::CodecError));
    assert_eq!(sink.write(&reference_gzip(b"fine")), Err(TransferError::CodecError));
    assert_eq!(sink.finish(), Err(TransferError::CodecError));
}

#[test]
fn decoder_rejects_a_stream_that_is_cut_short() {
    let stream = reference_gzip(&sample(10_000));
    let mut sink = CodecSink::decoder();
    sink.write(&stream[..stream.len() - 4]).expect("the data itself is fine");
    assert_eq!(sink.finish(), Err(TransferError::CodecError));
}

#[test]
fn decoder_rejects_a_wrong_checksum() {
    let mut stream = reference_gzip(&sample(10_000));
    let at = stream.len() - 8;
    stream[at] ^= 0xff;
    let mut sink = CodecSink::decoder();
    sink.write(&stream).expect("the checksum is only compared at the end");
    assert_eq!(sink.finish(), Err(TransferError::CodecError));
}

#[test]
fn decoder_rejects_an_empty_stream() {
    let sink = CodecSink::decoder();
    assert_eq!(sink.finish(), Err(TransferError::CodecError));
}

#[test]
fn encoder_of_nothing_gives_a_valid_empty_stream() {
    let sink = CodecSink::encoder(level(6));
    let stream = sink.finish().expect("finish");
    assert_eq!(&stream[..2], &[0x1f, 0x8b]);
    assert_eq!(reference_gunzip(&stream), Vec::<u8>::new());
}

#[test]
fn an_empty_chunk_changes_nothing_in_the_result() {
    let data = sample(5000);
    let mut sink = CodecSink::encoder(level(6));
    let mut stream = sink.write(&[]).expect("empty write");
    stream.extend(sink.write(&data).expect("write"));
    stream.extend(sink.write(&[]).expect("empty write"));
    stream.extend(sink.finish().expect("finish"));
    assert_eq!(reference_gunzip(&stream), data);

    let mut sink = CodecSink::decoder();
    let mut out = sink.write(&[]).expect("empty write");
    out.extend(sink.write(&stream).expect("write"));
    out.extend(sink.finish().expect("finish"));
    assert_eq!(out, data);
}

#[test]
fn every_beginning_of_a_gzip_member_is_accepted() {
    let data = sample(2000);
    let stream = reference_gzip(&data);
    for cut in 0..=stream.len() {
        let mut sink = CodecSink::decoder();
        let mut out = sink.write(&stream[..cut]).expect("a beginning of a member");
        assert!(!sink.member_ended(), "cut at {}", cut);
        out.extend(sink.write(&stream[cut..]).expect("the rest of the member"));
        assert!(!sink.member_ended(), "cut at {}", cut);
        out.extend(sink.finish().expect("finish"));
        assert_eq!(out, data, "cut at {}", cut);
    }
}

#[test]
fn the_decoder_stops_at_the_end_of_the_member_wherever_the_cut_falls() {
    let data = sample(2000);
    let stream = reference_gzip(&data);
    let mut longer = stream.clone();
    longer.extend_from_slice(&stream);
    for cut in 0..=longer.len() {
        let mut sink = CodecSink::decoder();
        let mut out = sink.write(&longer[..cut]).expect("write");
        assert_eq!(sink.member_ended(), cut > stream.len(), "cut at {}", cut);
        out.extend(sink.write(&longer[cut..]).expect("write"));
        assert!(sink.member_ended(), "cut at {}", cut);
        out.extend(sink.finish().expect("finish"));
        assert_eq!(out, data, "cut at {}", cut);
    }
}

#[test]
fn the_member_does_not_end_early_byte_by_byte() {
    let data = sample(500);
    let stream = reference_gzip(&data);
    let mut sink = CodecSink::decoder();
    let mut out = Vec::new();
    for byte in stream.iter() {
        out.extend(sink.write(&[*byte]).expect("write"));
        assert!(!sink.member_ended());
    }
    out.extend(sink.write(&[0]).expect("a byte after the member"));
    assert!(sink.member_ended());
    out.extend(sink.finish().expect("finish"));
    assert_eq!(out, data);
}
