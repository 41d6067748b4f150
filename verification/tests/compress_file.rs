use std::io::Write;

use wasm_zip::compress_file::{chunk_output, finish_summary, CompressError, FileCompressor};

fn inflate(data: &[u8]) -> Vec<u8> {
    let mut decoder = flate2::write::DeflateDecoder::new(Vec::new());
    decoder.write_all(data).unwrap();
    decoder.finish().unwrap()
}

#[test]
fn one_chunk_round_trips() {
    let data = b"The quick brown fox jumps over the lazy dog".to_vec();
    let mut c = FileCompressor::new();
    let mut out = match c.compress_chunk(&data) {
        Ok(out) => out,
        Err(_) => panic!("compression failed"),
    };
    let (last, summary) = match c.finish() {
        Ok(r) => r,
        Err(_) => panic!("finish failed"),
    };
    out.extend(last);
    assert_eq!(summary.crc32, 0x414FA339);
    assert_eq!(summary.uncompressed_size, data.len() as u64);
    assert_eq!(summary.compressed_size, out.len() as u64);
    assert_eq!(inflate(&out), data);
}

#[test]
fn many_chunks_round_trip() {
    let data: Vec<u8> = (0..200_000u32).map(|i| (i % 251) as u8).collect();
    let mut c = FileCompressor::new();
    let mut out = Vec::new();
    for chunk in data.chunks(65536) {
        match c.compress_chunk(chunk) {
            Ok(o) => out.extend(o),
            Err(_) => panic!("compression failed"),
        }
    }
    let (last, summary) = match c.finish() {
        Ok(r) => r,
        Err(_) => panic!("finish failed"),
    };
    out.extend(last);
    assert_eq!(summary.crc32, crc32fast::hash(&data));
    assert_eq!(summary.uncompressed_size, 200_000);
    assert_eq!(summary.compressed_size, out.len() as u64);
    assert_eq!(inflate(&out), data);
}

#[test]
fn empty_chunk_gives_nothing() {
    let mut c = FileCompressor::new();
    match c.compress_chunk(&[]) {
        Ok(o) => assert!(o.is_empty()),
        Err(_) => panic!("an empty chunk cannot fail"),
    }
    let (last, summary) = match c.finish() {
        Ok(r) => r,
        Err(_) => panic!("finish failed"),
    };
    assert_eq!(summary.crc32, 0);
    assert_eq!(summary.uncompressed_size, 0);
    assert_eq!(summary.compressed_size, last.len() as u64);
    assert_eq!(inflate(&last), Vec::<u8>::new());
}

#[test]
fn finish_summary_for_each_outcome() {
    match finish_summary(7, 100, 40, Ok(vec![1, 2, 3])) {
        Ok((out, s)) => {
            assert_eq!(out, vec![1, 2, 3]);
            assert_eq!(s.crc32, 7);
            assert_eq!(s.compressed_size, 43);
            assert_eq!(s.uncompressed_size, 100);
        }
        Err(_) => panic!("should succeed"),
    }
    assert!(matches!(finish_summary(7, 100, u64::MAX - 1, Ok(vec![1, 2])), Err(CompressError::SizeOverflow)));
    let e = std::io::Error::from(std::io::ErrorKind::Other);
    assert!(matches!(finish_summary(7, 100, 0, Err(e)), Err(CompressError::Io(_))));
}

#[test]
fn crc32_check_value() {
    let mut c = FileCompressor::new();
    assert!(c.compress_chunk(b"12345").is_ok());
    assert!(c.compress_chunk(b"6789").is_ok());
    let (_, summary) = match c.finish() {
        Ok(r) => r,
        Err(_) => panic!("finish failed"),
    };
    assert_eq!(summary.crc32, 0xCBF43926);
    assert_eq!(summary.uncompressed_size, 9);
}

#[test]
fn chunks_give_what_the_encoder_gives() {
    let data: Vec<u8> = (0..300_000u32).map(|i| ((i * 7) % 253) as u8).collect();
    let mut reference =
        flate2::write::DeflateEncoder::new(Vec::new(), flate2::Compression::new(5));
    let mut c = FileCompressor::new();
    let mut total_out = 0u64;
    for chunk in data.chunks(100_000) {
        reference.get_mut().clear();
        reference.write_all(chunk).unwrap();
        let expected = reference.get_ref().clone();
        let out = match c.compress_chunk(chunk) {
            Ok(o) => o,
            Err(_) => panic!("compression failed"),
        };
        assert_eq!(out, expected);
        total_out += out.len() as u64;
    }
    reference.get_mut().clear();
    let expected_tail = reference.finish().unwrap();
    let (tail, summary) = match c.finish() {
        Ok(r) => r,
        Err(_) => panic!("finish failed"),
    };
    assert_eq!(tail, expected_tail);
    assert_eq!(summary.compressed_size, total_out + tail.len() as u64);
}

#[test]
fn chunk_output_for_each_outcome() {
    match chunk_output(10, Ok(vec![9, 8])) {
        Ok((out, total)) => {
            assert_eq!(out, vec![9, 8]);
            assert_eq!(total, 12);
        }
        Err(_) => panic!("should succeed"),
    }
    assert!(matches!(chunk_output(u64::MAX, Ok(vec![1])), Err(CompressError::SizeOverflow)));
    match chunk_output(u64::MAX, Ok(Vec::new())) {
        Ok((out, total)) => {
            assert!(out.is_empty());
            assert_eq!(total, u64::MAX);
        }
        Err(_) => panic!("should succeed"),
    }
    let e = std::io::Error::from(std::io::ErrorKind::InvalidInput);
    assert!(matches!(chunk_output(0, Err(e)), Err(CompressError::Io(_))));
}
