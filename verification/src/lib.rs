//! Streaming ZIP64 archive writer: record layouts, the scan and compression
//! state machine, and the writer chain.

pub mod appnote63;
pub mod byob_read;
pub mod bytes_le;
pub mod codec;
pub mod compress_file;
pub mod crc32;
pub mod context;
pub mod path_sort;
pub mod writer_chain;
