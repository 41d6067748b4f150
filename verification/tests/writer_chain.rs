use std::io::Write;

use wasm_zip::writer_chain::{ChainWrite, CompressWriter, CrcWriter, GetLastBuffer, TransformWriter};

fn inflate(data: &[u8]) -> Vec<u8> {
    let mut decoder = flate2::write::DeflateDecoder::new(Vec::new());
    decoder.write_all(data).unwrap();
    decoder.flush().unwrap();
    decoder.get_ref().clone()
}

#[test]
fn transform_writer_xors_each_byte() {
    let mut w = TransformWriter::new();
    assert_eq!(ChainWrite::write(&mut w, &[0x00, 0xFF, 0x0F]).unwrap(), 3);
    assert_eq!(ChainWrite::write(&mut w, &[0xA5]).unwrap(), 1);
    assert_eq!(w.last_buffer(), &[0xFF, 0x00, 0xF0, 0x5A]);
}

#[test]
fn transform_writer_clear_then_write() {
    let mut w = TransformWriter::new();
    ChainWrite::write(&mut w, b"abc").unwrap();
    w.clear_buffer();
    assert_eq!(w.last_buffer(), &[] as &[u8]);
    ChainWrite::write(&mut w, &[1]).unwrap();
    assert_eq!(w.last_buffer(), &[0xFE]);
    assert!(ChainWrite::flush(&mut w).is_ok());
}

#[test]
fn transform_is_an_involution() {
    let data: Vec<u8> = (0..=255u8).collect();
    let mut w = TransformWriter::new();
    ChainWrite::write(&mut w, &data).unwrap();
    let once: Vec<u8> = w.last_buffer().to_vec();
    w.clear_buffer();
    ChainWrite::write(&mut w, &once).unwrap();
    assert_eq!(w.last_buffer(), &data[..]);
}

#[test]
fn crc_writer_passes_bytes_on() {
    let mut w = CrcWriter::new(TransformWriter::new());
    assert_eq!(ChainWrite::write(&mut w, b"hello").unwrap(), 5);
    let expected: Vec<u8> = b"hello".iter().map(|b| b ^ 0xFF).collect();
    assert_eq!(w.last_buffer(), &expected[..]);
    w.clear_buffer();
    assert_eq!(w.last_buffer(), &[] as &[u8]);
}

#[test]
fn compress_writer_deflates_into_the_transform_writer() {
    let mut w = CompressWriter::new(TransformWriter::new());
    let data = b"hello hello hello hello".to_vec();
    assert_eq!(ChainWrite::write(&mut w, &data).unwrap(), data.len());
    ChainWrite::flush(&mut w).unwrap();
    let stored: Vec<u8> = w.last_buffer().iter().map(|b| b ^ 0xFF).collect();
    assert!(!stored.is_empty());
    assert_eq!(inflate(&stored), data);
}

#[test]
fn full_chain() {
    let mut w = CrcWriter::new(CompressWriter::new(TransformWriter::new()));
    let data = vec![42u8; 1000];
    let mut written = 0;
    while written < data.len() {
        written += ChainWrite::write(&mut w, &data[written..]).unwrap();
    }
    ChainWrite::flush(&mut w).unwrap();
    let stored: Vec<u8> = w.last_buffer().iter().map(|b| b ^ 0xFF).collect();
    assert_eq!(inflate(&stored), data);
}

#[test]
fn vec_takes_every_byte() {
    let mut v: Vec<u8> = vec![1];
    assert_eq!(ChainWrite::write(&mut v, &[2, 3]).unwrap(), 2);
    assert_eq!(v, vec![1, 2, 3]);
}

#[test]
fn transform_split_does_not_matter() {
    let mut one = TransformWriter::new();
    let mut two = TransformWriter::new();
    ChainWrite::write(&mut one, b"abcdef").unwrap();
    ChainWrite::write(&mut two, b"ab").unwrap();
    ChainWrite::write(&mut two, b"cdef").unwrap();
    assert_eq!(one.last_buffer(), two.last_buffer());
}

#[test]
fn compress_writer_new_leaves_inner_untouched() {
    let w = CompressWriter::new(TransformWriter::new());
    assert_eq!(w.last_buffer(), &[] as &[u8]);
}

#[test]
fn compress_writer_clear_empties_inner() {
    let mut w = CompressWriter::new(TransformWriter::new());
    ChainWrite::write(&mut w, b"some bytes to deflate").unwrap();
    ChainWrite::flush(&mut w).unwrap();
    assert!(!w.last_buffer().is_empty());
    w.clear_buffer();
    assert_eq!(w.last_buffer(), &[] as &[u8]);
}

#[test]
fn compress_writer_hands_on_what_the_encoder_gives() {
    let data = b"abcabcabcabcabcabc".to_vec();
    let mut w = CompressWriter::new(TransformWriter::new());
    ChainWrite::write(&mut w, &data).unwrap();
    ChainWrite::flush(&mut w).unwrap();
    let mut reference = flate2::write::DeflateEncoder::new(Vec::new(), flate2::Compression::none());
    reference.write_all(&data).unwrap();
    reference.flush().unwrap();
    let expected: Vec<u8> = reference.get_ref().iter().map(|b| b ^ 0xFF).collect();
    assert_eq!(w.last_buffer(), &expected[..]);
}
