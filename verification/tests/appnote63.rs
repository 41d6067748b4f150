use wasm_zip::appnote63::{data_descriptor, write_tail, FileHeader, VERSION_MADE_BY, VERSION_NEEDED_TO_EXTRACT};

fn le16(x: u16) -> Vec<u8> {
    x.to_le_bytes().to_vec()
}

fn le32(x: u32) -> Vec<u8> {
    x.to_le_bytes().to_vec()
}

fn le64(x: u64) -> Vec<u8> {
    x.to_le_bytes().to_vec()
}

fn expected_lfh(name: &[u8]) -> Vec<u8> {
    let mut v = Vec::new();
    v.extend(le32(0x04034b50));
    v.extend(le16(45));
    v.extend(le16(0x0808));
    v.extend(le16(8));
    v.extend(le16(0));
    v.extend(le16(0));
    v.extend(le32(0));
    v.extend(le32(0xFFFF_FFFF));
    v.extend(le32(0xFFFF_FFFF));
    v.extend(le16(name.len() as u16));
    v.extend(le16(20));
    v.extend_from_slice(name);
    v.extend(le16(1));
    v.extend(le16(16));
    v.extend(le64(0));
    v.extend(le64(0));
    v
}

fn expected_cdh(name: &[u8], crc: u32, compressed: u64, uncompressed: u64, lfh_pos: u64) -> Vec<u8> {
    let mut v = Vec::new();
    v.extend(le32(0x02014b50));
    v.extend(le16(63));
    v.extend(le16(45));
    v.extend(le16(0x0808));
    v.extend(le16(8));
    v.extend(le16(0));
    v.extend(le16(0));
    v.extend(le32(crc));
    v.extend(le32(0xFFFF_FFFF));
    v.extend(le32(0xFFFF_FFFF));
    v.extend(le16(name.len() as u16));
    v.extend(le16(32));
    v.extend(le16(0));
    v.extend(le16(0xFFFF));
    v.extend(le16(0));
    v.extend(le32(0));
    v.extend(le32(0xFFFF_FFFF));
    v.extend_from_slice(name);
    v.extend(le16(1));
    v.extend(le16(28));
    v.extend(le64(uncompressed));
    v.extend(le64(compressed));
    v.extend(le64(lfh_pos));
    v.extend(le32(0));
    v
}

#[test]
fn versions_follow_appnote_6_3_and_zip64() {
    assert_eq!(VERSION_MADE_BY, 63);
    assert_eq!(VERSION_NEEDED_TO_EXTRACT, 45);
}

#[test]
fn local_file_header_bytes() {
    let header = FileHeader::new(String::from("a.txt"), 0);
    let mut buffer = vec![9u8, 9, 9];
    header.write_into_as_lfh(&mut buffer);
    assert_eq!(buffer, expected_lfh(b"a.txt"));
    assert_eq!(buffer.len(), 30 + 5 + 20);
}

#[test]
fn local_file_header_keeps_utf8_name() {
    let header = FileHeader::new(String::from("dir/é.txt"), 0);
    let mut buffer = Vec::new();
    header.write_into_as_lfh(&mut buffer);
    assert_eq!(buffer, expected_lfh("dir/é.txt".as_bytes()));
}

#[test]
fn central_directory_header_bytes_after_setters() {
    let mut header = FileHeader::new(String::from("a.txt"), 1234);
    header.set_crc_32(0x1234_5678);
    header.set_compressed_size_u64(100);
    header.set_uncompressed_size_u64(0x1_0000_0000);
    let mut buffer = vec![7u8];
    header.write_into_as_cdh(&mut buffer);
    let mut expected = vec![7u8];
    expected.extend(expected_cdh(b"a.txt", 0x1234_5678, 100, 0x1_0000_0000, 1234));
    assert_eq!(buffer, expected);
    assert_eq!(buffer.len(), 1 + 46 + 5 + 32);
}

#[test]
fn setters_do_not_change_local_header() {
    let mut header = FileHeader::new(String::from("x"), 5);
    header.set_crc_32(1);
    header.set_compressed_size_u64(2);
    header.set_uncompressed_size_u64(3);
    let mut buffer = Vec::new();
    header.write_into_as_lfh(&mut buffer);
    let mut expected = expected_lfh(b"x");
    expected[14..18].copy_from_slice(&1u32.to_le_bytes());
    assert_eq!(buffer, expected);
}

#[test]
fn data_descriptor_bytes() {
    let d = data_descriptor(0xAABB_CCDD, 10, 0x1_0000_0001);
    let mut expected = Vec::new();
    expected.extend(le32(0x08074b50));
    expected.extend(le32(0xAABB_CCDD));
    expected.extend(le64(10));
    expected.extend(le64(0x1_0000_0001));
    assert_eq!(d, expected);
    assert_eq!(d.len(), 24);
}

#[test]
fn tail_of_two_entries() {
    let mut h1 = FileHeader::new(String::from("a"), 0);
    h1.set_crc_32(1);
    h1.set_compressed_size_u64(3);
    h1.set_uncompressed_size_u64(4);
    let mut h2 = FileHeader::new(String::from("bc"), 78);
    h2.set_crc_32(2);
    h2.set_compressed_size_u64(5);
    h2.set_uncompressed_size_u64(6);
    let start = 78 + 52 + 5 + 24;
    let tail = write_tail(&vec![h1, h2], start).unwrap();

    let mut expected = Vec::new();
    expected.extend(expected_cdh(b"a", 1, 3, 4, 0));
    expected.extend(expected_cdh(b"bc", 2, 5, 6, 78));
    let cd_size = expected.len() as u64;
    assert_eq!(cd_size, 79 + 80);
    expected.extend(le32(0x06064b50));
    expected.extend(le64(44));
    expected.extend(le16(63));
    expected.extend(le16(45));
    expected.extend(le32(0));
    expected.extend(le32(0));
    expected.extend(le64(2));
    expected.extend(le64(2));
    expected.extend(le64(cd_size));
    expected.extend(le64(start));
    expected.extend(le32(0x07064b50));
    expected.extend(le32(0));
    expected.extend(le64(start + cd_size));
    expected.extend(le32(1));
    expected.extend(le32(0x06054b50));
    for _ in 0..4 {
        expected.extend(le16(0xFFFF));
    }
    expected.extend(le32(0xFFFF_FFFF));
    expected.extend(le32(0xFFFF_FFFF));
    expected.extend(le16(0));
    assert_eq!(tail, expected);
}

#[test]
fn tail_of_no_entry() {
    let tail = write_tail(&Vec::new(), 0).unwrap();
    assert_eq!(tail.len(), 56 + 20 + 22);
    assert_eq!(&tail[0..4], &0x06064b50u32.to_le_bytes());
}

#[test]
fn tail_refused_when_offset_overflows() {
    let h = FileHeader::new(String::from("a"), 0);
    assert!(write_tail(&vec![h], u64::MAX - 10).is_none());
    let h = FileHeader::new(String::from("a"), 0);
    assert!(write_tail(&vec![h], u64::MAX - 79).is_some());
}

#[test]
fn size_setters_keep_the_zip64_markers() {
    let mut h = FileHeader::new(String::from("abc"), 7);
    h.set_compressed_size_u64(0x1_0000_0001);
    h.set_uncompressed_size_u64(0x2_0000_0002);
    let mut c = Vec::new();
    h.write_into_as_cdh(&mut c);
    let n = 3;
    assert_eq!(&c[20..24], &[0xFF; 4]);
    assert_eq!(&c[24..28], &[0xFF; 4]);
    assert_eq!(&c[42..46], &[0xFF; 4]);
    assert_eq!(&c[50 + n..58 + n], &0x2_0000_0002u64.to_le_bytes());
    assert_eq!(&c[58 + n..66 + n], &0x1_0000_0001u64.to_le_bytes());
}
