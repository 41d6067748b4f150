# wasm_zip

A browser page that streams dropped files and directories into a ZIP64
archive: each file is read in chunks, checksummed (CRC-32), deflated and
written out with a data descriptor, then the central directory and the ZIP64
end records close the archive.

- `src/` is the verified library (Verus): the record layouts
  (`appnote63`, `bytes_le`), the per-file compression pass
  (`compress_file`), the scan and compression state machine (`context`,
  `path_sort`), the read loop's decisions (`byob_read`), the writer chain
  (`writer_chain`), CRC-32 and how it runs over pieces (`crc32`), and the
  trusted calls into `crc32fast` and `flate2` (`codec`).
- `app/` is the page itself: DOM elements, events, file system callbacks
  and streams, built on `wasm-bindgen` and `web-sys`; it asks the library
  what to do at each step.
- `tests/` exercise the library on concrete values.
