//! Record layouts of the ZIP format (APPNOTE 6.3) that this writer emits:
//! local file headers, central directory headers, data descriptors and the
//! ZIP64 end records.

use vstd::prelude::*;
use vstd::utf8::encode_utf8;
use crate::bytes_le::{le_u16, le_u32, le_u64, push_u16, push_u32, push_u64};

verus! {

/// Version made by: the specification version the records follow (6.3).
pub const VERSION_MADE_BY: u16 = 63;

/// Version needed to extract: ZIP64 needs at least 4.5.
pub const VERSION_NEEDED_TO_EXTRACT: u16 = 45;

/// General purpose bits 3 (sizes and CRC follow in a data descriptor) and
/// 11 (the file name is UTF-8).
pub const GENERAL_PURPOSE_BIT_FLAG: u16 = 0b0000_1000_0000_1000;

/// Compression method 8: deflate.
pub const COMPRESSION_METHOD_DEFLATE: u16 = 8;

/// Length of the ZIP64 extra field in a local file header.
pub const LFH_EXTRA_FIELD_LENGTH: u16 = 20;

/// Length of the ZIP64 extra field in a central directory header.
pub const CDH_EXTRA_FIELD_LENGTH: u16 = 32;

/// Signature of a local file header.
pub const LOCAL_FILE_HEADER_SIGNATURE: u32 = 0x04034b50;

/// Signature of a central directory header.
pub const CENTRAL_FILE_HEADER_SIGNATURE: u32 = 0x02014b50;

/// The values a file header holds.
pub ghost struct FileHeaderModel {
    pub version_made_by: u16,
    pub version_needed_to_extract: u16,
    pub general_purpose_bit_flag: u16,
    pub compression_method: u16,
    pub last_mod_file_time: u16,
    pub last_mod_file_date: u16,
    pub crc_32: u32,
    pub compressed_size: u32,
    pub uncompressed_size: u32,
    pub compressed_size_u64: u64,
    pub uncompressed_size_u64: u64,
    pub file_name_length: u16,
    pub disk_number_start: u16,
    pub internal_file_attributes: u16,
    pub external_file_attributes: u32,
    pub relative_offset_of_local_header: u32,
    pub lfh_pos: u64,
    pub file_name: Seq<u8>,
}

/// The header that a new entry starts with: ZIP64 placeholders in the 32-bit
/// size and offset fields, CRC and real sizes still zero.
pub open spec fn initial_header(file_name: Seq<u8>, lfh_pos: u64) -> FileHeaderModel {
    FileHeaderModel {
        version_made_by: VERSION_MADE_BY,
        version_needed_to_extract: VERSION_NEEDED_TO_EXTRACT,
        general_purpose_bit_flag: GENERAL_PURPOSE_BIT_FLAG,
        compression_method: COMPRESSION_METHOD_DEFLATE,
        last_mod_file_time: 0,
        last_mod_file_date: 0,
        crc_32: 0,
        compressed_size: 0xFFFF_FFFF,
        uncompressed_size: 0xFFFF_FFFF,
        compressed_size_u64: 0,
        uncompressed_size_u64: 0,
        file_name_length: file_name.len() as u16,
        disk_number_start: 0xFFFF,
        internal_file_attributes: 0,
        external_file_attributes: 0,
        relative_offset_of_local_header: 0xFFFF_FFFF,
        lfh_pos: lfh_pos,
        file_name: file_name,
    }
}

/// The 32-bit fields that a ZIP64 entry keeps at all ones, their real values
/// being in the ZIP64 extended information: both sizes and the offset of the
/// local header.
pub open spec fn zip64_marked(h: FileHeaderModel) -> bool {
    &&& h.compressed_size == 0xFFFF_FFFF
    &&& h.uncompressed_size == 0xFFFF_FFFF
    &&& h.relative_offset_of_local_header == 0xFFFF_FFFF
}

/// ZIP64 extended information in a local file header: both sizes are zero
/// because the real ones follow in the data descriptor.
pub open spec fn lfh_extra_field() -> Seq<u8> {
    le_u16(0x0001) + le_u16(16) + le_u64(0) + le_u64(0)
}

/// ZIP64 extended information in a central directory header.
pub open spec fn cdh_extra_field(h: FileHeaderModel) -> Seq<u8> {
    le_u16(0x0001) + le_u16(28) + le_u64(h.uncompressed_size_u64) + le_u64(h.compressed_size_u64)
        + le_u64(h.lfh_pos) + le_u32(0)
}

/// The bytes of the local file header of `h`.
pub open spec fn lfh_bytes(h: FileHeaderModel) -> Seq<u8> {
    le_u32(LOCAL_FILE_HEADER_SIGNATURE) + le_u16(h.version_needed_to_extract) + le_u16(
        h.general_purpose_bit_flag,
    ) + le_u16(h.compression_method) + le_u16(h.last_mod_file_time) + le_u16(h.last_mod_file_date)
        + le_u32(h.crc_32) + le_u32(h.compressed_size) + le_u32(h.uncompressed_size) + le_u16(
        h.file_name_length,
    ) + le_u16(LFH_EXTRA_FIELD_LENGTH) + h.file_name + lfh_extra_field()
}

/// The bytes of the central directory header of `h` (no file comment).
pub open spec fn cdh_bytes(h: FileHeaderModel) -> Seq<u8> {
    le_u32(CENTRAL_FILE_HEADER_SIGNATURE) + le_u16(h.version_made_by) + le_u16(
        h.version_needed_to_extract,
    ) + le_u16(h.general_purpose_bit_flag) + le_u16(h.compression_method) + le_u16(
        h.last_mod_file_time,
    ) + le_u16(h.last_mod_file_date) + le_u32(h.crc_32) + le_u32(h.compressed_size) + le_u32(
        h.uncompressed_size,
    ) + le_u16(h.file_name_length) + le_u16(CDH_EXTRA_FIELD_LENGTH) + le_u16(0) + le_u16(
        h.disk_number_start,
    ) + le_u16(h.internal_file_attributes) + le_u32(h.external_file_attributes) + le_u32(
        h.relative_offset_of_local_header,
    ) + h.file_name + cdh_extra_field(h)
}

/// # FileHeader
///
/// The fields that the local file header and the central directory header
/// of one entry share, plus the real sizes and the position of the local
/// header that the ZIP64 extra fields carry.
pub struct FileHeader {
    version_made_by: u16,
    version_needed_to_extract: u16,
    general_purpose_bit_flag: u16,
    compression_method: u16,
    last_mod_file_time: u16,
    last_mod_file_date: u16,
    crc_32: u32,
    compressed_size: u32,
    uncompressed_size: u32,
    compressed_size_u64: u64,
    uncompressed_size_u64: u64,
    file_name_length: u16,
    disk_number_start: u16,
    internal_file_attributes: u16,
    external_file_attributes: u32,
    relative_offset_of_local_header: u32,
    lfh_pos: u64,
    file_name: Vec<u8>,
}

impl View for FileHeader {
    type V = FileHeaderModel;

    closed spec fn view(&self) -> FileHeaderModel {
        FileHeaderModel {
            version_made_by: self.version_made_by,
            version_needed_to_extract: self.version_needed_to_extract,
            general_purpose_bit_flag: self.general_purpose_bit_flag,
            compression_method: self.compression_method,
            last_mod_file_time: self.last_mod_file_time,
            last_mod_file_date: self.last_mod_file_date,
            crc_32: self.crc_32,
            compressed_size: self.compressed_size,
            uncompressed_size: self.uncompressed_size,
            compressed_size_u64: self.compressed_size_u64,
            uncompressed_size_u64: self.uncompressed_size_u64,
            file_name_length: self.file_name_length,
            disk_number_start: self.disk_number_start,
            internal_file_attributes: self.internal_file_attributes,
            external_file_attributes: self.external_file_attributes,
            relative_offset_of_local_header: self.relative_offset_of_local_header,
            lfh_pos: self.lfh_pos,
            file_name: self.file_name@,
        }
    }
}

/// Appends `bytes` to `buf`.
pub fn push_bytes(buf: &mut Vec<u8>, bytes: &[u8])
    ensures
        final(buf)@ == old(buf)@ + bytes@,
{
    let ghost start = buf@;
    let n = bytes.len();
    let mut i: usize = 0;
    while i < n
        invariant
            n == bytes@.len(),
            i <= n,
            buf@ == start + bytes@.subrange(0, i as int),
        decreases n - i,
    {
        buf.push(bytes[i]);
        i = i + 1;
        assert(bytes@.subrange(0, i as int) == bytes@.subrange(0, (i - 1) as int).push(
            bytes@[i - 1],
        ));
    }
    assert(bytes@.subrange(0, n as int) == bytes@);
}

impl FileHeader {
    #[verifier::type_invariant]
    spec fn marked(self) -> bool {
        &&& self.compressed_size == 0xFFFF_FFFF
        &&& self.uncompressed_size == 0xFFFF_FFFF
        &&& self.relative_offset_of_local_header == 0xFFFF_FFFF
    }

    /// A header for an entry named by the UTF-8 bytes of `file_name`, whose
    /// local header starts at offset `lfh_pos` of the archive.
    pub fn new(file_name: String, lfh_pos: u64) -> (r: FileHeader)
        ensures
            r@ == initial_header(encode_utf8(file_name@), lfh_pos),
    {
        let name = vstd::slice::slice_to_vec(file_name.as_str().as_bytes());
        FileHeader::from_name_bytes(name, lfh_pos)
    }

    /// A header for an entry whose name is the bytes `file_name`.
    pub(crate) fn from_name_bytes(file_name: Vec<u8>, lfh_pos: u64) -> (r: FileHeader)
        ensures
            r@ == initial_header(file_name@, lfh_pos),
    {
        let file_name_length = file_name.len() as u16;
        FileHeader {
            version_made_by: VERSION_MADE_BY,
            version_needed_to_extract: VERSION_NEEDED_TO_EXTRACT,
            general_purpose_bit_flag: GENERAL_PURPOSE_BIT_FLAG,
            compression_method: COMPRESSION_METHOD_DEFLATE,
            last_mod_file_date: 0,
            last_mod_file_time: 0,
            crc_32: 0,
            compressed_size: 0xFFFF_FFFF,
            uncompressed_size: 0xFFFF_FFFF,
            compressed_size_u64: 0,
            uncompressed_size_u64: 0,
            file_name_length,
            disk_number_start: 0xFFFF,
            internal_file_attributes: 0,
            external_file_attributes: 0,
            relative_offset_of_local_header: 0xFFFF_FFFF,
            lfh_pos,
            file_name,
        }
    }

    /// Replaces the contents of `buffer` by the local file header.
    pub fn write_into_as_lfh(&self, buffer: &mut Vec<u8>)
        ensures
            final(buffer)@ == lfh_bytes(self@),
    {
        buffer.clear();
        push_u32(buffer, LOCAL_FILE_HEADER_SIGNATURE);
        push_u16(buffer, self.version_needed_to_extract);
        push_u16(buffer, self.general_purpose_bit_flag);
        push_u16(buffer, self.compression_method);
        push_u16(buffer, self.last_mod_file_time);
        push_u16(buffer, self.last_mod_file_date);
        push_u32(buffer, self.crc_32);
        push_u32(buffer, self.compressed_size);
        push_u32(buffer, self.uncompressed_size);
        push_u16(buffer, self.file_name_length);
        push_u16(buffer, LFH_EXTRA_FIELD_LENGTH);
        push_bytes(buffer, self.file_name.as_slice());
        push_u16(buffer, 0x0001);
        push_u16(buffer, 16);
        push_u64(buffer, 0);
        push_u64(buffer, 0);
    }

    /// Appends the central directory header to `buffer`.
    pub fn write_into_as_cdh(&self, buffer: &mut Vec<u8>)
        ensures
            final(buffer)@ == old(buffer)@ + cdh_bytes(self@),
    {
        let mut record: Vec<u8> = Vec::new();
        push_u32(&mut record, CENTRAL_FILE_HEADER_SIGNATURE);
        push_u16(&mut record, self.version_made_by);
        push_u16(&mut record, self.version_needed_to_extract);
        push_u16(&mut record, self.general_purpose_bit_flag);
        push_u16(&mut record, self.compression_method);
        push_u16(&mut record, self.last_mod_file_time);
        push_u16(&mut record, self.last_mod_file_date);
        push_u32(&mut record, self.crc_32);
        push_u32(&mut record, self.compressed_size);
        push_u32(&mut record, self.uncompressed_size);
        push_u16(&mut record, self.file_name_length);
        push_u16(&mut record, CDH_EXTRA_FIELD_LENGTH);
        push_u16(&mut record, 0);
        push_u16(&mut record, self.disk_number_start);
        push_u16(&mut record, self.internal_file_attributes);
        push_u32(&mut record, self.external_file_attributes);
        push_u32(&mut record, self.relative_offset_of_local_header);
        push_bytes(&mut record, self.file_name.as_slice());
        push_u16(&mut record, 0x0001);
        push_u16(&mut record, 28);
        push_u64(&mut record, self.uncompressed_size_u64);
        push_u64(&mut record, self.compressed_size_u64);
        push_u64(&mut record, self.lfh_pos);
        push_u32(&mut record, 0);
        buffer.append(&mut record);
    }

    /// Records the CRC-32 of the entry's data.
    pub fn set_crc_32(&mut self, crc32: u32)
        ensures
            final(self)@ == (FileHeaderModel { crc_32: crc32, ..old(self)@ }),
            zip64_marked(final(self)@),
    {
        proof {
            use_type_invariant(&*self);
        }
        self.crc_32 = crc32;
    }

    /// Records the size of the entry's compressed data.
    pub fn set_compressed_size_u64(&mut self, size: u64)
        ensures
            final(self)@ == (FileHeaderModel { compressed_size_u64: size, ..old(self)@ }),
            zip64_marked(final(self)@),
    {
        proof {
            use_type_invariant(&*self);
        }
        self.compressed_size_u64 = size;
    }

    /// Records the size of the entry's uncompressed data.
    pub fn set_uncompressed_size_u64(&mut self, size: u64)
        ensures
            final(self)@ == (FileHeaderModel { uncompressed_size_u64: size, ..old(self)@ }),
            zip64_marked(final(self)@),
    {
        proof {
            use_type_invariant(&*self);
        }
        self.uncompressed_size_u64 = size;
    }
}

/// Signature of a data descriptor.
pub const DATA_DESCRIPTOR_SIGNATURE: u32 = 0x08074b50;

/// Size of a ZIP64 data descriptor: signature, CRC-32 and two 8-byte sizes.
pub const DATA_DESCRIPTOR_SIZE: u32 = 4 + 4 + 8 + 8;

/// Signature of the ZIP64 end of central directory record.
pub const ZIP64_END_OF_CENTRAL_DIR_SIGNATURE: u32 = 0x06064b50;

/// Signature of the ZIP64 end of central directory locator.
pub const ZIP64_END_OF_CENTRAL_DIR_LOCATOR_SIGNATURE: u32 = 0x07064b50;

/// Signature of the end of central directory record.
pub const END_OF_CENTRAL_DIR_SIGNATURE: u32 = 0x06054b50;

/// Size of the ZIP64 end of central directory record, not counting its
/// leading signature and this size field itself.
pub const ZIP64_END_OF_CENTRAL_DIR_RECORD_SIZE: u64 = 2 + 2 + 4 + 4 + 8 + 8 + 8 + 8;

/// The bytes of the ZIP64 data descriptor that follows an entry's data.
pub open spec fn data_descriptor_bytes(crc32: u32, compressed_size: u64, uncompressed_size: u64) -> Seq<u8> {
    le_u32(DATA_DESCRIPTOR_SIGNATURE) + le_u32(crc32) + le_u64(compressed_size) + le_u64(
        uncompressed_size,
    )
}

/// The central directory: the central directory headers of `headers`, in order.
pub open spec fn central_directory_bytes(headers: Seq<FileHeaderModel>) -> Seq<u8>
    decreases headers.len(),
{
    if headers.len() == 0 {
        seq![]
    } else {
        central_directory_bytes(headers.drop_last()) + cdh_bytes(headers.last())
    }
}

/// The ZIP64 end of central directory record of an archive with `entries`
/// entries whose central directory has `size` bytes and starts at `start`.
pub open spec fn zip64_end_of_central_directory_record(entries: u64, size: u64, start: u64) -> Seq<u8> {
    le_u32(ZIP64_END_OF_CENTRAL_DIR_SIGNATURE) + le_u64(ZIP64_END_OF_CENTRAL_DIR_RECORD_SIZE)
        + le_u16(VERSION_MADE_BY) + le_u16(VERSION_NEEDED_TO_EXTRACT) + le_u32(0) + le_u32(0)
        + le_u64(entries) + le_u64(entries) + le_u64(size) + le_u64(start)
}

/// The ZIP64 end of central directory locator pointing at `record_offset`.
pub open spec fn zip64_end_of_central_directory_locator(record_offset: u64) -> Seq<u8> {
    le_u32(ZIP64_END_OF_CENTRAL_DIR_LOCATOR_SIGNATURE) + le_u32(0) + le_u64(record_offset) + le_u32(1)
}

/// The end of central directory record, every count and offset in it
/// deferring to the ZIP64 records, with no archive comment.
pub open spec fn end_of_central_directory_record() -> Seq<u8> {
    le_u32(END_OF_CENTRAL_DIR_SIGNATURE) + le_u16(0xFFFF) + le_u16(0xFFFF) + le_u16(0xFFFF) + le_u16(
        0xFFFF,
    ) + le_u32(0xFFFF_FFFF) + le_u32(0xFFFF_FFFF) + le_u16(0)
}

/// Whether the tail of an archive whose central directory starts at
/// `start` fits the 64-bit offsets of the ZIP64 records.
pub open spec fn tail_fits(headers: Seq<FileHeaderModel>, start: u64) -> bool {
    start + central_directory_bytes(headers).len() <= u64::MAX
}

/// Everything after the last entry's data: the central directory, the ZIP64
/// end of central directory record and locator, and the end of central
/// directory record.
pub open spec fn tail_bytes(headers: Seq<FileHeaderModel>, start: u64) -> Seq<u8> {
    let cd = central_directory_bytes(headers);
    cd + zip64_end_of_central_directory_record(headers.len() as u64, cd.len() as u64, start)
        + zip64_end_of_central_directory_locator((start + cd.len()) as u64)
        + end_of_central_directory_record()
}

/// The models of a list of headers.
pub open spec fn header_models(headers: Seq<FileHeader>) -> Seq<FileHeaderModel> {
    headers.map_values(|h: FileHeader| h@)
}

/// The data descriptor written after an entry's compressed data.
pub fn data_descriptor(crc32: u32, compressed_size: u64, uncompressed_size: u64) -> (r: Vec<u8>)
    ensures
        r@ == data_descriptor_bytes(crc32, compressed_size, uncompressed_size),
        r@.len() == DATA_DESCRIPTOR_SIZE,
{
    let mut buffer: Vec<u8> = Vec::new();
    push_u32(&mut buffer, DATA_DESCRIPTOR_SIGNATURE);
    push_u32(&mut buffer, crc32);
    push_u64(&mut buffer, compressed_size);
    push_u64(&mut buffer, uncompressed_size);
    buffer
}

/// Appends the central directory headers of `file_headers` to `buffer`.
pub fn write_central_directory(file_headers: &Vec<FileHeader>, buffer: &mut Vec<u8>)
    ensures
        final(buffer)@ == old(buffer)@ + central_directory_bytes(header_models(file_headers@)),
{
    let ghost start = buffer@;
    let ghost models = header_models(file_headers@);
    let n = file_headers.len();
    let mut i: usize = 0;
    assert(models.take(0) =~= Seq::<FileHeaderModel>::empty());
    while i < n
        invariant
            n == file_headers@.len(),
            models == header_models(file_headers@),
            i <= n,
            buffer@ == start + central_directory_bytes(models.take(i as int)),
        decreases n - i,
    {
        file_headers[i].write_into_as_cdh(buffer);
        assert(models.take((i + 1) as int).drop_last() =~= models.take(i as int));
        assert(models.take((i + 1) as int).last() == file_headers@[i as int]@);
        assert(buffer@ =~= start + central_directory_bytes(models.take((i + 1) as int)));
        i = i + 1;
    }
    assert(models.take(n as int) =~= models);
}

/// The ZIP64 end of central directory record.
fn zip64_end_record(entries: u64, size: u64, start: u64) -> (r: Vec<u8>)
    ensures
        r@ == zip64_end_of_central_directory_record(entries, size, start),
{
    let mut buffer: Vec<u8> = Vec::new();
    push_u32(&mut buffer, ZIP64_END_OF_CENTRAL_DIR_SIGNATURE);
    push_u64(&mut buffer, ZIP64_END_OF_CENTRAL_DIR_RECORD_SIZE);
    push_u16(&mut buffer, VERSION_MADE_BY);
    push_u16(&mut buffer, VERSION_NEEDED_TO_EXTRACT);
    push_u32(&mut buffer, 0);
    push_u32(&mut buffer, 0);
    push_u64(&mut buffer, entries);
    push_u64(&mut buffer, entries);
    push_u64(&mut buffer, size);
    push_u64(&mut buffer, start);
    buffer
}

/// The ZIP64 end of central directory locator.
fn zip64_end_locator(record_offset: u64) -> (r: Vec<u8>)
    ensures
        r@ == zip64_end_of_central_directory_locator(record_offset),
{
    let mut buffer: Vec<u8> = Vec::new();
    push_u32(&mut buffer, ZIP64_END_OF_CENTRAL_DIR_LOCATOR_SIGNATURE);
    push_u32(&mut buffer, 0);
    push_u64(&mut buffer, record_offset);
    push_u32(&mut buffer, 1);
    buffer
}

/// The end of central directory record.
fn end_record() -> (r: Vec<u8>)
    ensures
        r@ == end_of_central_directory_record(),
{
    let mut buffer: Vec<u8> = Vec::new();
    push_u32(&mut buffer, END_OF_CENTRAL_DIR_SIGNATURE);
    push_u16(&mut buffer, 0xFFFF);
    push_u16(&mut buffer, 0xFFFF);
    push_u16(&mut buffer, 0xFFFF);
    push_u16(&mut buffer, 0xFFFF);
    push_u32(&mut buffer, 0xFFFF_FFFF);
    push_u32(&mut buffer, 0xFFFF_FFFF);
    push_u16(&mut buffer, 0);
    buffer
}

/// The tail of the archive for `file_headers` when the central directory
/// starts at offset `start_of_central_directory`, or `None` when the offset
/// of the ZIP64 end record would not fit in 64 bits.
pub fn write_tail(file_headers: &Vec<FileHeader>, start_of_central_directory: u64) -> (r: Option<Vec<u8>>)
    ensures
        r is Some <==> tail_fits(header_models(file_headers@), start_of_central_directory),
        r matches Some(tail) ==> tail@ == tail_bytes(header_models(file_headers@), start_of_central_directory),
{
    let mut tail: Vec<u8> = Vec::new();
    write_central_directory(file_headers, &mut tail);
    assert(tail@ =~= central_directory_bytes(header_models(file_headers@)));
    let size_of_central_directory = tail.len() as u64;
    let offset = match start_of_central_directory.checked_add(size_of_central_directory) {
        Some(offset) => offset,
        None => return None,
    };
    let mut record = zip64_end_record(file_headers.len() as u64, size_of_central_directory, start_of_central_directory);
    tail.append(&mut record);
    let mut locator = zip64_end_locator(offset);
    tail.append(&mut locator);
    let mut end = end_record();
    tail.append(&mut end);
    Some(tail)
}

/// The local file header of an entry: 30 fixed bytes, the name, and the
/// 20-byte ZIP64 extra field.
pub proof fn lemma_lfh_len(h: FileHeaderModel)
    ensures
        lfh_bytes(h).len() == 50 + h.file_name.len(),
{
}

/// The central directory header of an entry: 46 fixed bytes, the name, and
/// the 32-byte ZIP64 extra field.
pub proof fn lemma_cdh_len(h: FileHeaderModel)
    ensures
        cdh_bytes(h).len() == 78 + h.file_name.len(),
{
}

/// The length fields of a header agree with its bytes: the name length field
/// is the name's length (modulo 2^16), and each extra-field length field is
/// the length of the extra field that follows the name.
pub proof fn lemma_header_length_fields(h: FileHeaderModel)
    requires
        h.file_name_length == h.file_name.len() as u16,
    ensures
        lfh_extra_field().len() == LFH_EXTRA_FIELD_LENGTH,
        cdh_extra_field(h).len() == CDH_EXTRA_FIELD_LENGTH,
        lfh_bytes(h).subrange(30, 30 + h.file_name.len() as int) == h.file_name,
        cdh_bytes(h).subrange(46, 46 + h.file_name.len() as int) == h.file_name,
{
    let n = h.file_name.len() as int;
    assert(lfh_bytes(h).subrange(30, 30 + n) =~= h.file_name);
    assert(cdh_bytes(h).subrange(46, 46 + n) =~= h.file_name);
}

} // verus!
