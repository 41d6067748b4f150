use wasm_zip::compress_file::FileSummary;
use wasm_zip::context::{ClickOutcome, Context, EntryError, EntryKind, ItemError, NextItem, ScanEntry, ScanError};

fn entry(path: &str, kind: EntryKind) -> ScanEntry {
    ScanEntry { full_path: String::from(path), kind }
}

fn paths(c: &Context) -> Vec<(String, bool)> {
    c.file_path_list().iter().map(|f| (f.path.clone(), f.is_dir)).collect()
}

fn item_path(item: &NextItem) -> (&str, bool) {
    match item {
        NextItem::File(p) => (p.as_str(), false),
        NextItem::Directory(p) => (p.as_str(), true),
        NextItem::Finish => ("", false),
    }
}

#[test]
fn fresh_context() {
    let c = Context::new();
    assert!(!c.file_system_ready());
    assert!(c.file_path_list().is_empty());
    assert_eq!(c.unresolved_directories(), 0);
    assert!(!c.writer_open());
    assert_eq!(c.number_compressed(), 0);
    assert!(c.file_headers().is_empty());
    assert_eq!(c.bytes_written(), 0);
}

#[test]
fn drop_of_nothing_is_refused() {
    let mut c = Context::new();
    assert!(matches!(c.drop_entries(Vec::new()), Err(ScanError::NoEntries)));
    assert!(!c.file_system_ready());
}

#[test]
fn drop_with_an_odd_entry_is_refused() {
    let mut c = Context::new();
    let r = c.drop_entries(vec![
        entry("/a", EntryKind::File),
        entry("/b", EntryKind::Other),
        entry("/c", EntryKind::Other),
    ]);
    assert!(matches!(r, Err(ScanError::NotFileOrDirectory { index: 1 })));
    assert!(c.file_path_list().is_empty());
    assert!(!c.file_system_ready());
}

#[test]
fn drop_of_files_completes_and_sorts() {
    let mut c = Context::new();
    let r = c
        .drop_entries(vec![entry("/b", EntryKind::File), entry("/a", EntryKind::File), entry("/B", EntryKind::File)])
        .unwrap();
    assert!(r.complete);
    assert_eq!(r.file_count, 3);
    assert!(r.directories.is_empty());
    assert!(c.file_system_ready());
    assert_eq!(
        paths(&c),
        vec![(String::from("/B"), false), (String::from("/a"), false), (String::from("/b"), false)]
    );
}

#[test]
fn directories_are_read_before_the_scan_completes() {
    let mut c = Context::new();
    let r = c
        .drop_entries(vec![entry("/d", EntryKind::Directory), entry("/z", EntryKind::File), entry("/e", EntryKind::Directory)])
        .unwrap();
    assert!(!r.complete);
    assert_eq!(r.directories, vec![0, 2]);
    assert_eq!(r.file_count, 3);
    assert_eq!(c.unresolved_directories(), 2);
    // not sorted while directories are unread
    assert_eq!(paths(&c)[1].0, "/z");

    // a batch of /d: it may hold more, so it is read again
    let r = c.directory_read(vec![entry("/d/x", EntryKind::File)]).unwrap();
    assert!(!r.complete);
    assert!(r.read_again);
    assert_eq!(r.file_count, 4);
    assert_eq!(c.unresolved_directories(), 2);
    // the empty batch ends /d
    let r = c.directory_read(Vec::new()).unwrap();
    assert!(!r.read_again);
    assert!(!r.complete);
    assert_eq!(c.unresolved_directories(), 1);

    let r = c.directory_read(vec![entry("/e/y", EntryKind::File), entry("/e/f", EntryKind::Directory)]).unwrap();
    assert!(!r.complete);
    assert!(r.read_again);
    assert_eq!(r.directories, vec![1]);
    assert_eq!(c.unresolved_directories(), 2);
    // a second batch of /e
    let r = c.directory_read(vec![entry("/e/g", EntryKind::File)]).unwrap();
    assert!(r.read_again);
    assert_eq!(r.file_count, 7);
    c.directory_read(Vec::new()).unwrap();
    assert_eq!(c.unresolved_directories(), 1);

    let r = c.directory_read(Vec::new()).unwrap();
    assert!(r.complete);
    assert!(!r.read_again);
    assert_eq!(r.file_count, 7);
    assert_eq!(c.unresolved_directories(), 0);
    let listed: Vec<String> = paths(&c).into_iter().map(|p| p.0).collect();
    assert_eq!(listed, vec!["/d", "/d/x", "/e", "/e/f", "/e/g", "/e/y", "/z"]);
}

#[test]
fn equal_paths_keep_their_order() {
    let mut c = Context::new();
    c.drop_entries(vec![
        entry("/q", EntryKind::Directory),
        entry("/p", EntryKind::File),
    ])
    .unwrap();
    let r = c.directory_read(vec![entry("/p", EntryKind::File), entry("/a", EntryKind::File)]).unwrap();
    assert!(!r.complete);
    assert!(r.read_again);
    let r = c.directory_read(Vec::new()).unwrap();
    assert!(r.complete);
    let listed = paths(&c);
    assert_eq!(listed.len(), 4);
    assert_eq!(listed[0].0, "/a");
    assert_eq!(listed[1].0, "/p");
    assert_eq!(listed[2].0, "/p");
    assert_eq!(listed[3], (String::from("/q"), true));
}

#[test]
fn click_refusals() {
    let mut c = Context::new();
    assert!(matches!(c.compress_encrypt_click(), ClickOutcome::FileSystemNotReady));
    c.drop_entries(vec![entry("/d", EntryKind::Directory)]).unwrap();
    assert!(matches!(c.compress_encrypt_click(), ClickOutcome::ScanInProgress));
    c.directory_read(Vec::new()).unwrap();
    assert!(matches!(c.compress_encrypt_click(), ClickOutcome::Started(NextItem::Directory(_))));
    assert!(matches!(c.compress_encrypt_click(), ClickOutcome::WriterExists));
    c.close_writer();
    assert!(!c.writer_open());
}

#[test]
fn click_on_empty_directory_drop_then_empty_list() {
    let mut c = Context::new();
    c.drop_entries(vec![entry("/d", EntryKind::Directory)]).unwrap();
    c.directory_read(Vec::new()).unwrap();
    assert_eq!(c.file_path_list().len(), 1);
    // a drop whose entries cannot be listed leaves the old list
    assert!(c.drop_entries(vec![entry("/o", EntryKind::Other)]).is_err());
    assert_eq!(c.file_path_list().len(), 1);
}

#[test]
fn take_items_in_order_then_finish() {
    let mut c = Context::new();
    c.drop_entries(vec![entry("/b", EntryKind::File), entry("/a", EntryKind::File)]).unwrap();
    let first = match c.compress_encrypt_click() {
        ClickOutcome::Started(item) => item,
        _ => panic!("the stage should start"),
    };
    assert_eq!(item_path(&first), ("/a", false));
    assert!(c.writer_open());
    assert_eq!(c.number_compressed(), 1);
    let second = c.take_item().unwrap();
    assert_eq!(item_path(&second), ("/b", false));
    assert!(matches!(c.take_item(), Ok(NextItem::Finish)));
    assert!(matches!(c.take_item(), Ok(NextItem::Finish)));
    assert_eq!(c.number_compressed(), 2);
}

#[test]
fn taking_past_a_shorter_list_fails() {
    let mut c = Context::new();
    c.drop_entries(vec![entry("/b", EntryKind::File), entry("/a", EntryKind::File)]).unwrap();
    assert!(matches!(c.compress_encrypt_click(), ClickOutcome::Started(_)));
    c.take_item().unwrap();
    c.drop_entries(vec![entry("/c", EntryKind::File)]).unwrap();
    assert!(matches!(c.take_item(), Err(ItemError::Missing { index: 2 })));
}

#[test]
fn entries_are_laid_out_one_after_the_other() {
    let mut c = Context::new();
    c.drop_entries(vec![entry("/a.txt", EntryKind::File), entry("//b", EntryKind::File)]).unwrap();
    assert!(matches!(c.compress_encrypt_click(), ClickOutcome::Started(_)));

    // "//b" sorts first; both leading slashes go
    let lfh = c.begin_file(&String::from("//b")).unwrap();
    assert_eq!(lfh.len(), 30 + 1 + 20);
    assert_eq!(&lfh[30..31], b"b");
    assert_eq!(c.bytes_written(), 51);
    let dd = c
        .end_file(&FileSummary { crc32: 7, compressed_size: 100, uncompressed_size: 200 })
        .unwrap();
    assert_eq!(dd.len(), 24);
    assert_eq!(&dd[4..8], &7u32.to_le_bytes());
    assert_eq!(c.bytes_written(), 51 + 100 + 24);

    let lfh = c.begin_file(&String::from("/a.txt")).unwrap();
    assert_eq!(lfh.len(), 30 + 5 + 20);
    assert_eq!(&lfh[30..35], b"a.txt");
    c.end_file(&FileSummary { crc32: 8, compressed_size: 10, uncompressed_size: 20 }).unwrap();
    let end_of_entries = 175 + 55 + 10 + 24;
    assert_eq!(c.bytes_written(), end_of_entries);

    let tail = c.finish().unwrap();
    // second central directory header points at the second local header
    let cdh1_len = 46 + 1 + 32;
    let second = &tail[cdh1_len..cdh1_len + 46 + 5 + 32];
    assert_eq!(&second[46 + 5 + 20..46 + 5 + 28], &175u64.to_le_bytes());
    assert_eq!(&tail[0..4], &0x02014b50u32.to_le_bytes());
    let cd_len = cdh1_len + 46 + 5 + 32;
    let record = &tail[cd_len..cd_len + 56];
    assert_eq!(&record[48..56], &(end_of_entries as u64).to_le_bytes());
    let locator = &tail[cd_len + 56..cd_len + 76];
    assert_eq!(&locator[8..16], &((end_of_entries + cd_len as u64) as u64).to_le_bytes());
}

#[test]
fn end_file_without_a_header_fails() {
    let mut c = Context::new();
    let r = c.end_file(&FileSummary { crc32: 0, compressed_size: 0, uncompressed_size: 0 });
    assert!(matches!(r, Err(EntryError::NoFileHeader)));
    assert_eq!(c.bytes_written(), 0);
}

#[test]
fn end_file_overflow_fails() {
    let mut c = Context::new();
    c.begin_file(&String::from("a")).unwrap();
    let r = c.end_file(&FileSummary { crc32: 0, compressed_size: u64::MAX - 10, uncompressed_size: 0 });
    assert!(matches!(r, Err(EntryError::SizeOverflow)));
    assert_eq!(c.bytes_written(), 51);
}
