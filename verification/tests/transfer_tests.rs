use std::io::Read;
use std::io::Write;

use compression_tool::codec::CodecSink;
use compression_tool::config::CompressionLevel;
use compression_tool::config::TransferConfig;
use compression_tool::copier::compress_bytes;
use compression_tool::copier::decompress_bytes;
use compression_tool::copier::transfer;
use compression_tool::error::exit_code;
use compression_tool::error::TransferError;

fn level(n: u32) -> CompressionLevel {
    CompressionLevel::new(n).expect("level in range")
}

fn config(chunk: usize, report: bool) -> TransferConfig {
    TransferConfig::new(chunk, report).expect("chunk size")
}

fn sample(len: usize, seed: u32) -> Vec<u8> {
    let mut state: u32 = seed;
    let mut out = Vec::with_capacity(len);
    for i in 0..len {
        state = state.wrapping_mul(1_664_525).wrapping_add(1_013_904_223);
        if (state >> 16) % 4 == 0 {
            out.push((state >> 24) as u8);
        } else {
            out.push(b'a' + (i % 11) as u8);
        }
    }
    out
}

fn reference_gunzip(stream: &[u8]) -> Vec<u8> {
    let mut out = Vec::new();
    flate2::read::GzDecoder::new(stream).read_to_end(&mut out).expect("valid gzip");
    out
}

fn reference_gzip(data: &[u8], level: u32) -> Vec<u8> {
    let mut encoder = flate2::write::GzEncoder::new(Vec::new(), flate2::Compression::new(level));
    encoder.write_all(data).expect("write");
    encoder.finish().expect("finish")
}

#[test]
fn round_trip_at_every_level() {
    let inputs = [
        Vec::new(),
        vec![0u8],
        b"hello, world".to_vec(),
        vec![7u8; 100_000],
        sample(8192, 1),
        sample(8193, 2),
        sample(123_457, 3),
    ];
    for n in 0..=9u32 {
        for input in inputs.iter() {
            let packed = compress_bytes(input, level(n), TransferConfig::default())
                .expect("compress");
            let unpacked = decompress_bytes(&packed.output, TransferConfig::default())
                .expect("decompress");
            assert_eq!(&unpacked.output, input, "level {}", n);
            assert!(!packed.input_left);
            assert!(!unpacked.input_left);
        }
    }
}

#[test]
fn round_trip_with_unequal_chunk_sizes() {
    let input = sample(40_000, 9);
    let packed = compress_bytes(&input, level(6), config(777, false)).expect("compress");
    let unpacked = decompress_bytes(&packed.output, config(13, false)).expect("decompress");
    assert_eq!(unpacked.output, input);
}

#[test]
fn compressed_output_is_what_other_gzip_readers_expect() {
    let input = sample(65_536, 4);
    let packed = compress_bytes(&input, level(6), TransferConfig::default()).expect("compress");
    assert_ne!(packed.output, input);
    assert_eq!(&packed.output[..3], &[0x1f, 0x8b, 0x08]);
    assert_eq!(reference_gunzip(&packed.output), input);
}

#[test]
fn decompress_reads_what_other_gzip_writers_made() {
    let input = sample(65_536, 5);
    for n in [0u32, 1, 6, 9] {
        let stream = reference_gzip(&input, n);
        let unpacked = decompress_bytes(&stream, TransferConfig::default()).expect("decompress");
        assert_eq!(unpacked.output, input);
        assert_eq!(unpacked.bytes_transferred, stream.len() as u64);
    }
}

#[test]
fn chunk_size_does_not_change_the_compressed_output() {
    let input = sample(100_000, 6);
    for n in [0u32, 1, 6, 9] {
        let whole = compress_bytes(&input, level(n), config(4 * 1024 * 1024, false))
            .expect("compress")
            .output;
        for chunk in [1usize, 2, 7, 100, 8191, 8192, 8193, 99_999, 100_000, 100_001] {
            let packed = compress_bytes(&input, level(n), config(chunk, false))
                .expect("compress");
            assert_eq!(packed.output, whole, "level {} chunk size {}", n, chunk);
        }
    }
}

#[test]
fn chunk_size_does_not_change_the_decompressed_output() {
    let input = sample(100_000, 7);
    let stream = reference_gzip(&input, 6);
    for chunk in [1usize, 2, 7, 100, 8192, stream.len() - 1, stream.len(), 4 * 1024 * 1024] {
        let unpacked = decompress_bytes(&stream, config(chunk, false)).expect("decompress");
        assert_eq!(unpacked.output, input, "chunk size {}", chunk);
    }
}

#[test]
fn progress_counts_the_bytes_written_chunk_by_chunk() {
    let input = sample(20_000, 8);
    let packed = compress_bytes(&input, level(6), config(8192, true)).expect("compress");
    assert_eq!(packed.reports, vec![8192, 16_384, 20_000]);
    assert_eq!(packed.bytes_transferred, 20_000);

    let packed = compress_bytes(&input, level(6), config(5000, true)).expect("compress");
    assert_eq!(packed.reports, vec![5000, 10_000, 15_000, 20_000]);

    let packed = compress_bytes(&input, level(6), config(20_000, true)).expect("compress");
    assert_eq!(packed.reports, vec![20_000]);

    let packed = compress_bytes(&input, level(6), config(30_000, true)).expect("compress");
    assert_eq!(packed.reports, vec![20_000]);
}

#[test]
fn progress_never_decreases_and_ends_at_the_input_length() {
    let input = sample(12_345, 10);
    for chunk in [1usize, 3, 1000, 8192] {
        let packed = compress_bytes(&input, level(3), config(chunk, true)).expect("compress");
        assert_eq!(packed.reports.len(), (input.len() + chunk - 1) / chunk);
        for pair in packed.reports.windows(2) {
            assert!(pair[0] <= pair[1]);
        }
        assert_eq!(*packed.reports.last().expect("a report"), input.len() as u64);
        assert_eq!(packed.bytes_transferred, input.len() as u64);
    }
}

#[test]
fn progress_of_decompression_counts_the_compressed_bytes() {
    let input = sample(50_000, 11);
    let stream = reference_gzip(&input, 6);
    let unpacked = decompress_bytes(&stream, config(1024, true)).expect("decompress");
    assert_eq!(unpacked.reports.len(), (stream.len() + 1023) / 1024);
    assert_eq!(*unpacked.reports.last().expect("a report"), stream.len() as u64);
    assert_eq!(unpacked.reports[0], 1024);
}

#[test]
fn no_reports_where_progress_is_switched_off() {
    let input = sample(20_000, 12);
    let packed = compress_bytes(&input, level(6), config(100, false)).expect("compress");
    assert!(packed.reports.is_empty());
    assert_eq!(packed.bytes_transferred, 20_000);
}

#[test]
fn empty_input_compresses_to_a_valid_empty_stream() {
    let packed = compress_bytes(&[], level(6), TransferConfig::default()).expect("compress");
    assert!(!packed.output.is_empty());
    assert_eq!(&packed.output[..2], &[0x1f, 0x8b]);
    assert!(packed.reports.is_empty());
    assert_eq!(packed.bytes_transferred, 0);
    assert_eq!(reference_gunzip(&packed.output), Vec::<u8>::new());
    let unpacked = decompress_bytes(&packed.output, TransferConfig::default())
        .expect("decompress");
    assert!(unpacked.output.is_empty());
}

#[test]
fn corrupted_input_fails_with_a_codec_error() {
    let garbage = sample(4096, 13);
    let result = decompress_bytes(&garbage, TransferConfig::default());
    let error = result.expect_err("not gzip");
    assert_eq!(error, TransferError::CodecError);
    assert!(error.is_write_class());
    assert_eq!(exit_code(&Err(error)), 1);
}

#[test]
fn decompressing_nothing_fails_with_a_codec_error() {
    let result = decompress_bytes(&[], TransferConfig::default());
    assert_eq!(result.expect_err("no gzip member"), TransferError::CodecError);
}

#[test]
fn a_stream_cut_short_fails_with_a_codec_error() {
    let stream = reference_gzip(&sample(30_000, 14), 6);
    for keep in [1usize, 9, 10, 11, stream.len() / 2, stream.len() - 8, stream.len() - 1] {
        let result = decompress_bytes(&stream[..keep], config(100, false));
        assert_eq!(result.expect_err("cut short"), TransferError::CodecError, "kept {}", keep);
    }
}

#[test]
fn a_flipped_byte_in_the_data_fails_with_a_codec_error() {
    let input = sample(30_000, 15);
    let mut stream = reference_gzip(&input, 6);
    let at = stream.len() - 6;
    stream[at] ^= 0x55;
    let result = decompress_bytes(&stream, TransferConfig::default());
    assert_eq!(result.expect_err("checksum"), TransferError::CodecError);
}

#[test]
fn bytes_after_the_gzip_member_are_ignored() {
    let input = sample(10_000, 16);
    let mut stream = reference_gzip(&input, 6);
    stream.extend_from_slice(&sample(5000, 17));
    let unpacked = decompress_bytes(&stream, config(512, true)).expect("decompress");
    assert_eq!(unpacked.output, input);
    assert_eq!(unpacked.bytes_transferred, stream.len() as u64);
    assert!(unpacked.input_left);
}

#[test]
fn no_input_is_left_where_the_stream_ends_with_the_gzip_member() {
    let input = sample(10_000, 19);
    let stream = reference_gzip(&input, 6);
    for chunk in [1usize, 7, 512, stream.len(), stream.len() + 1] {
        let unpacked = decompress_bytes(&stream, config(chunk, false)).expect("decompress");
        assert_eq!(unpacked.output, input);
        assert!(!unpacked.input_left, "chunk size {}", chunk);
    }
    let mut longer = stream.clone();
    longer.push(0);
    for chunk in [1usize, 7, 512, longer.len()] {
        let unpacked = decompress_bytes(&longer, config(chunk, false)).expect("decompress");
        assert_eq!(unpacked.output, input);
        assert!(unpacked.input_left, "chunk size {}", chunk);
    }
}

#[test]
fn transfer_through_a_poisoned_sink_fails_with_its_error() {
    let mut sink = CodecSink::decoder();
    assert_eq!(sink.write(b"not gzip at all"), Err(TransferError::CodecError));
    let result = transfer(b"anything", sink, TransferConfig::default());
    assert_eq!(result.expect_err("poisoned"), TransferError::CodecError);

    let mut sink = CodecSink::decoder();
    assert_eq!(sink.write(b"not gzip at all"), Err(TransferError::CodecError));
    let result = transfer(&[], sink, TransferConfig::default());
    assert_eq!(result.expect_err("poisoned"), TransferError::CodecError);
}

#[test]
fn transfer_continues_a_sink_that_was_written_before() {
    let input = sample(9000, 18);
    let mut sink = CodecSink::encoder(level(6));
    let mut stream = sink.write(&input[..4000]).expect("write");
    let rest = transfer(&input[4000..], sink, config(1000, true)).expect("transfer");
    stream.extend(rest.output);
    assert_eq!(rest.reports, vec![1000, 2000, 3000, 4000, 5000]);
    assert_eq!(reference_gunzip(&stream), input);
}

#[test]
fn a_whole_member_decompresses_alike_for_every_chunk_size() {
    for len in [0usize, 1, 8191, 8192, 8193, 300_000] {
        let input = sample(len, 20);
        let stream = reference_gzip(&input, 6);
        for chunk in [1usize, 3, 8192, 4 * 1024 * 1024] {
            if chunk == 1 && len > 10_000 {
                continue;
            }
            let unpacked = decompress_bytes(&stream, config(chunk, true)).expect("decompress");
            assert_eq!(unpacked.output.len(), len);
            assert_eq!(unpacked.output, input);
            assert!(!unpacked.input_left);
        }
    }
}

#[test]
fn default_path_of_a_file_in_a_directory() {
    assert_eq!(
        compression_tool::paths::decompress_output_path("dir/sub/notes.txt.gz", None),
        Some("notes_decompressed.gz".to_string())
    );
    assert_eq!(
        compression_tool::paths::decompress_output_path("/notes.txt.gz", None),
        Some("notes_decompressed.gz".to_string())
    );
}
