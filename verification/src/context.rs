//! The state that the page keeps between events, and what each event does to
//! it: the scan of the dropped files and directories, then the compression
//! stage that writes one entry per file and the archive's tail.

use vstd::prelude::*;
use vstd::slice::{slice_subrange, slice_to_vec};
use vstd::utf8::encode_utf8;
use crate::appnote63::{
    data_descriptor, data_descriptor_bytes, header_models, initial_header, lfh_bytes, tail_bytes,
    tail_fits, write_tail, FileHeader, FileHeaderModel, DATA_DESCRIPTOR_SIZE,
};
use crate::compress_file::FileSummary;
use crate::path_sort::{lemma_stable_sort_permutes, sort_by_path, stable_sorted_of, FilePath};

verus! {

/// What a dropped or listed file system entry is.
#[derive(Clone, Copy, Debug, PartialEq, Eq)]
pub enum EntryKind {
    File,
    Directory,
    /// Neither a file nor a directory.
    Other,
}

/// A file system entry met by the scan.
pub struct ScanEntry {
    pub full_path: String,
    pub kind: EntryKind,
}

/// What a scan step found.
pub struct ScanReport {
    /// Indices, among the entries given, of the directories whose contents
    /// must be read next, in order.
    pub directories: Vec<usize>,
    /// The number of paths listed so far.
    pub file_count: usize,
    /// No directory is left unread: the scan is over and the list sorted.
    pub complete: bool,
    /// The directory whose batch of entries this was may hold more: its
    /// reader must be asked for another batch.
    pub read_again: bool,
}

/// Why a scan step was refused.
#[derive(Clone, Copy, Debug, PartialEq, Eq)]
pub enum ScanError {
    /// The drop held no entry.
    NoEntries,
    /// The entry at this index is neither a file nor a directory.
    NotFileOrDirectory { index: usize },
}

/// What the compression stage does next.
#[derive(Debug)]
pub enum NextItem {
    /// Every listed path has been taken: write the tail.
    Finish,
    /// Take this directory.
    Directory(String),
    /// Take this file.
    File(String),
}

/// Why no item could be taken.
#[derive(Clone, Copy, Debug, PartialEq, Eq)]
pub enum ItemError {
    /// The count of taken items has passed the length of the list.
    Missing { index: u64 },
}

/// The answer to a click on the compress button.
#[derive(Debug)]
pub enum ClickOutcome {
    /// No drop has set up a file system yet.
    FileSystemNotReady,
    /// The list of paths is empty.
    EmptyFileList,
    /// Directories are still being read.
    ScanInProgress,
    /// An output stream is already open.
    WriterExists,
    /// The stage has started (open the output stream) with this first item.
    Started(NextItem),
}

/// Why an entry's bookkeeping failed.
#[derive(Clone, Copy, Debug, PartialEq, Eq)]
pub enum EntryError {
    /// No file header has been created for the entry.
    NoFileHeader,
    /// The archive offset would pass `u64::MAX`.
    SizeOverflow,
}

/// The state of the scan stage.
pub struct ContextScanStage {
    file_system_ready: bool,
    file_path_list: Vec<FilePath>,
    unresolved_directories: u64,
}

/// The state of the compression stage.
pub struct ContextCompressEncryptStage {
    writer_open: bool,
    number_compressed: u64,
    file_headers: Vec<FileHeader>,
    bytes_written: u64,
}

/// The state kept between events.
pub struct Context {
    scan_stage: ContextScanStage,
    compress_encrypt_stage: ContextCompressEncryptStage,
}

/// The values the state holds.
pub ghost struct ContextModel {
    pub file_system_ready: bool,
    pub file_path_list: Seq<FilePath>,
    pub unresolved_directories: u64,
    pub writer_open: bool,
    pub number_compressed: u64,
    pub file_headers: Seq<FileHeaderModel>,
    pub bytes_written: u64,
}

impl View for Context {
    type V = ContextModel;

    closed spec fn view(&self) -> ContextModel {
        ContextModel {
            file_system_ready: self.scan_stage.file_system_ready,
            file_path_list: self.scan_stage.file_path_list@,
            unresolved_directories: self.scan_stage.unresolved_directories,
            writer_open: self.compress_encrypt_stage.writer_open,
            number_compressed: self.compress_encrypt_stage.number_compressed,
            file_headers: header_models(self.compress_encrypt_stage.file_headers@),
            bytes_written: self.compress_encrypt_stage.bytes_written,
        }
    }
}

/// The path listed for an entry.
pub open spec fn file_path_of(e: ScanEntry) -> FilePath {
    FilePath { path: e.full_path, is_dir: e.kind is Directory }
}

/// The paths listed for the entries, in order.
pub open spec fn file_paths_of(entries: Seq<ScanEntry>) -> Seq<FilePath> {
    entries.map_values(|e: ScanEntry| file_path_of(e))
}

/// The number of directories among the entries.
pub open spec fn count_directories(entries: Seq<ScanEntry>) -> nat
    decreases entries.len(),
{
    if entries.len() == 0 {
        0
    } else {
        count_directories(entries.drop_last()) + if entries.last().kind is Directory {
            1nat
        } else {
            0nat
        }
    }
}

/// The indices of the directories among the entries, in order.
pub open spec fn directory_indices(entries: Seq<ScanEntry>) -> Seq<usize>
    decreases entries.len(),
{
    if entries.len() == 0 {
        seq![]
    } else if entries.last().kind is Directory {
        directory_indices(entries.drop_last()).push((entries.len() - 1) as usize)
    } else {
        directory_indices(entries.drop_last())
    }
}

/// The index of the first entry that is neither a file nor a directory.
pub open spec fn first_other(entries: Seq<ScanEntry>, index: int) -> bool {
    &&& 0 <= index < entries.len()
    &&& entries[index].kind is Other
    &&& forall|j: int| 0 <= j < index ==> !(#[trigger] entries[j].kind is Other)
}

/// `new` and `report` are what a scan of `entries` makes of `old`: the
/// entries' paths appended to the list, each directory counted as unread,
/// and, once no directory is left unread, the list sorted by path.
pub open spec fn scanned(old: ContextModel, entries: Seq<ScanEntry>, new: ContextModel, report: ScanReport) -> bool {
    let listed = old.file_path_list + file_paths_of(entries);
    let unresolved = old.unresolved_directories + count_directories(entries);
    &&& new.unresolved_directories == unresolved
    &&& report.directories@ == directory_indices(entries)
    &&& report.file_count == listed.len()
    &&& report.complete == (unresolved == 0)
    &&& !report.read_again
    &&& if unresolved == 0 {
        stable_sorted_of(new.file_path_list, listed)
    } else {
        new.file_path_list == listed
    }
    &&& new.file_system_ready == old.file_system_ready
    &&& new.writer_open == old.writer_open
    &&& new.number_compressed == old.number_compressed
    &&& new.file_headers == old.file_headers
    &&& new.bytes_written == old.bytes_written
}

/// What reading a batch of a directory's entries does, while a directory is
/// unread: an empty batch ends the directory, which is no longer unread; a
/// non-empty one is scanned, and the report asks for the next batch.
pub open spec fn batch_read(old: ContextModel, entries: Seq<ScanEntry>, new: ContextModel, report: ScanReport) -> bool {
    &&& old.unresolved_directories > 0
    &&& if entries.len() == 0 {
        scanned(
            ContextModel { unresolved_directories: (old.unresolved_directories - 1) as u64, ..old },
            entries,
            new,
            report,
        )
    } else {
        report.read_again && scanned(old, entries, new, ScanReport { read_again: false, ..report })
    }
}

/// The batches' entries, joined in order.
pub open spec fn all_entries(batches: Seq<Seq<ScanEntry>>) -> Seq<ScanEntry>
    decreases batches.len(),
{
    if batches.len() == 0 {
        Seq::empty()
    } else {
        all_entries(batches.drop_last()) + batches.last()
    }
}

/// The number of empty batches.
pub open spec fn empty_batches(batches: Seq<Seq<ScanEntry>>) -> nat
    decreases batches.len(),
{
    if batches.len() == 0 {
        0
    } else {
        empty_batches(batches.drop_last()) + if batches.last().len() == 0 {
            1nat
        } else {
            0nat
        }
    }
}

/// The state in which a drop starts its scan: file system set, list empty,
/// no directory unread.
pub open spec fn reset_for_scan(m: ContextModel) -> ContextModel {
    ContextModel {
        file_system_ready: true,
        file_path_list: Seq::empty(),
        unresolved_directories: 0,
        ..m
    }
}

/// The state in which the compression stage starts: output open, nothing
/// taken, no header, nothing written.
pub open spec fn reset_for_compression(m: ContextModel) -> ContextModel {
    ContextModel {
        writer_open: true,
        number_compressed: 0,
        file_headers: Seq::empty(),
        bytes_written: 0,
        ..m
    }
}

/// What a taken path becomes.
pub open spec fn next_item_of(f: FilePath) -> NextItem {
    if f.is_dir {
        NextItem::Directory(f.path)
    } else {
        NextItem::File(f.path)
    }
}

/// An entry's name in the archive: its path's bytes without leading `/`.
pub open spec fn entry_name(path: Seq<u8>) -> Seq<u8>
    decreases path.len(),
{
    if path.len() > 0 && path[0] == 0x2F {
        entry_name(path.drop_first())
    } else {
        path
    }
}

/// An entry's name is its path with the leading `/` bytes removed and
/// nothing else: it is what follows the first `k` bytes of the path, those
/// `k` bytes are all `/`, and the name does not start with `/`; every byte
/// after the first that is not `/` is kept, later `/` included.
pub proof fn lemma_entry_name_strips_leading_slashes(path: Seq<u8>)
    ensures
        entry_name(path).len() <= path.len(),
        entry_name(path) == path.subrange(path.len() - entry_name(path).len(), path.len() as int),
        forall|i: int| 0 <= i < path.len() - entry_name(path).len() ==> path[i] == 0x2F,
        entry_name(path).len() > 0 ==> entry_name(path)[0] != 0x2F,
    decreases path.len(),
{
    if path.len() > 0 && path[0] == 0x2F {
        let rest = path.drop_first();
        lemma_entry_name_strips_leading_slashes(rest);
        assert(entry_name(path) == entry_name(rest));
        assert(path.subrange(path.len() - entry_name(path).len(), path.len() as int) =~= rest.subrange(
            rest.len() - entry_name(rest).len(),
            rest.len() as int,
        ));
        assert forall|i: int| 0 <= i < path.len() - entry_name(path).len() implies path[i] == 0x2F by {
            if i > 0 {
                assert(path[i] == rest[i - 1]);
            }
        }
    } else {
        assert(path.subrange(0, path.len() as int) =~= path);
    }
}

/// Starting the compression stage always begins a new archive: no header,
/// nothing written, nothing taken, the output open, and the listed paths
/// kept, whatever an earlier stage left.
pub proof fn lemma_compression_starts_empty(m: ContextModel)
    ensures
        reset_for_compression(m).file_headers.len() == 0,
        reset_for_compression(m).bytes_written == 0,
        reset_for_compression(m).number_compressed == 0,
        reset_for_compression(m).writer_open,
        reset_for_compression(m).file_path_list == m.file_path_list,
        reset_for_compression(m).file_system_ready == m.file_system_ready,
        reset_for_compression(m).unresolved_directories == m.unresolved_directories,
{
}

/// Starting an entry named `name`: its header, placed at the current
/// offset, is recorded, and its local header counted as written.
pub open spec fn begin_file_step(m: ContextModel, name: Seq<u8>) -> ContextModel {
    let h = initial_header(name, m.bytes_written);
    ContextModel {
        file_headers: m.file_headers.push(h),
        bytes_written: (m.bytes_written + lfh_bytes(h).len()) as u64,
        ..m
    }
}

/// Whether the offset after the local header of an entry named `name` fits.
pub open spec fn begin_file_fits(m: ContextModel, name: Seq<u8>) -> bool {
    m.bytes_written + lfh_bytes(initial_header(name, m.bytes_written)).len() <= u64::MAX
}

/// Ending the last entry: its compressed data and data descriptor are counted
/// as written, and its header takes the CRC and both sizes.
pub open spec fn end_file_step(m: ContextModel, crc32: u32, compressed: u64, uncompressed: u64) -> ContextModel {
    let last = m.file_headers.last();
    let h = FileHeaderModel {
        crc_32: crc32,
        compressed_size_u64: compressed,
        uncompressed_size_u64: uncompressed,
        ..last
    };
    ContextModel {
        file_headers: m.file_headers.drop_last().push(h),
        bytes_written: (m.bytes_written + compressed + DATA_DESCRIPTOR_SIZE) as u64,
        ..m
    }
}

/// Leading `/` bytes removed.
fn trim_leading_slashes(bytes: &[u8]) -> (r: Vec<u8>)
    ensures
        r@ == entry_name(bytes@),
        r@ == bytes@.subrange(bytes@.len() - r@.len(), bytes@.len() as int),
        forall|i: int| 0 <= i < bytes@.len() - r@.len() ==> bytes@[i] == 0x2F,
        r@.len() > 0 ==> r@[0] != 0x2F,
{
    proof {
        lemma_entry_name_strips_leading_slashes(bytes@);
    }
    let n = bytes.len();
    let mut start: usize = 0;
    assert(bytes@.skip(0) =~= bytes@);
    while start < n && bytes[start] == 0x2F
        invariant
            n == bytes@.len(),
            start <= n,
            entry_name(bytes@) == entry_name(bytes@.skip(start as int)),
        decreases n - start,
    {
        assert(bytes@.skip(start as int).drop_first() =~= bytes@.skip(start + 1));
        start = start + 1;
    }
    let rest = slice_subrange(bytes, start, n);
    assert(rest@ =~= bytes@.skip(start as int));
    slice_to_vec(rest)
}

/// The index of the first entry that is neither a file nor a directory.
fn find_other(entries: &Vec<ScanEntry>) -> (r: Option<usize>)
    ensures
        r matches Some(index) ==> first_other(entries@, index as int),
        r is None ==> forall|j: int| 0 <= j < entries@.len() ==> !(#[trigger] entries@[j].kind is Other),
        r is None <==> !(exists|k: int| first_other(entries@, k)),
{
    let n = entries.len();
    let mut k: usize = 0;
    while k < n
        invariant
            n == entries@.len(),
            k <= n,
            forall|j: int| 0 <= j < k ==> !(#[trigger] entries@[j].kind is Other),
        decreases n - k,
    {
        match entries[k].kind {
            EntryKind::Other => {
                assert(first_other(entries@, k as int));
                return Some(k);
            },
            _ => {},
        }
        k = k + 1;
    }
    None
}

impl Context {
    /// The state's own consistency: no more directories are unread than
    /// paths are listed.
    pub closed spec fn wf(&self) -> bool {
        self.scan_stage.unresolved_directories <= self.scan_stage.file_path_list@.len()
    }

    /// The state before any event.
    pub fn new() -> (r: Context)
        ensures
            r.wf(),
            r@ == (ContextModel {
                file_system_ready: false,
                file_path_list: Seq::empty(),
                unresolved_directories: 0,
                writer_open: false,
                number_compressed: 0,
                file_headers: Seq::empty(),
                bytes_written: 0,
            }),
    {
        let r = Context {
            scan_stage: ContextScanStage {
                file_system_ready: false,
                file_path_list: Vec::new(),
                unresolved_directories: 0,
            },
            compress_encrypt_stage: ContextCompressEncryptStage {
                writer_open: false,
                number_compressed: 0,
                file_headers: Vec::new(),
                bytes_written: 0,
            },
        };
        assert(r@.file_headers =~= Seq::<FileHeaderModel>::empty());
        r
    }

    /// Lists the entries of one directory read, or of a drop: every file and
    /// directory is listed, each directory counted as unread; when no
    /// directory is left unread, the list is sorted by path. An entry that
    /// is neither refuses the whole step and nothing changes.
    pub fn scan(&mut self, entries: Vec<ScanEntry>) -> (r: Result<ScanReport, ScanError>)
        requires
            old(self).wf(),
        ensures
            final(self).wf(),
            (exists|k: int| first_other(entries@, k)) <==> r is Err,
            r matches Err(e) ==> (e matches ScanError::NotFileOrDirectory { index } && first_other(
                entries@,
                index as int,
            ) && final(self)@ == old(self)@),
            r matches Ok(report) ==> scanned(old(self)@, entries@, final(self)@, report),
    {
        if let Some(index) = find_other(&entries) {
            return Err(ScanError::NotFileOrDirectory { index });
        }
        let n = entries.len();
        let ghost old_list = self.scan_stage.file_path_list@;
        let ghost old_unresolved = self.scan_stage.unresolved_directories;
        let mut directories: Vec<usize> = Vec::new();
        let mut i: usize = 0;
        while i < n
            invariant
                n == entries@.len(),
                i <= n,
                self.scan_stage.file_path_list@ == old_list + file_paths_of(entries@.take(i as int)),
                self.scan_stage.unresolved_directories == old_unresolved + count_directories(entries@.take(i as int)),
                self.scan_stage.unresolved_directories <= self.scan_stage.file_path_list@.len(),
                directories@ == directory_indices(entries@.take(i as int)),
                self.compress_encrypt_stage == old(self).compress_encrypt_stage,
                self.scan_stage.file_system_ready == old(self).scan_stage.file_system_ready,
            decreases n - i,
        {
            let is_dir = match entries[i].kind {
                EntryKind::Directory => true,
                _ => false,
            };
            let path = entries[i].full_path.clone();
            self.scan_stage.file_path_list.push(FilePath { path, is_dir });
            let listed = self.scan_stage.file_path_list.len();
            if is_dir {
                self.scan_stage.unresolved_directories = self.scan_stage.unresolved_directories + 1;
                directories.push(i);
            }
            proof {
                let taken = entries@.take(i + 1);
                assert(taken.drop_last() =~= entries@.take(i as int));
                assert(file_paths_of(taken) =~= file_paths_of(entries@.take(i as int)).push(
                    file_path_of(entries@[i as int]),
                ));
            }
            i = i + 1;
        }
        assert(entries@.take(n as int) =~= entries@);
        let file_count = self.scan_stage.file_path_list.len();
        let complete = self.scan_stage.unresolved_directories == 0;
        if complete {
            sort_by_path(&mut self.scan_stage.file_path_list);
        }
        Ok(ScanReport { directories, file_count, complete, read_again: false })
    }

    /// A drop: with at least one entry, the file system is set, the list
    /// emptied, and the scan starts over on the entries.
    pub fn drop_entries(&mut self, entries: Vec<ScanEntry>) -> (r: Result<ScanReport, ScanError>)
        requires
            old(self).wf(),
        ensures
            final(self).wf(),
            entries@.len() == 0 ==> r == Err::<ScanReport, ScanError>(ScanError::NoEntries) && final(self)@ == old(self)@,
            entries@.len() > 0 ==> ((exists|k: int| first_other(entries@, k)) <==> r is Err),
            entries@.len() > 0 ==> (r matches Err(e) ==> (e matches ScanError::NotFileOrDirectory { index } && first_other(
                entries@,
                index as int,
            ) && final(self)@ == old(self)@)),
            r matches Ok(report) ==> scanned(reset_for_scan(old(self)@), entries@, final(self)@, report),
    {
        if entries.len() == 0 {
            return Err(ScanError::NoEntries);
        }
        if let Some(index) = find_other(&entries) {
            return Err(ScanError::NotFileOrDirectory { index });
        }
        self.scan_stage.file_system_ready = true;
        self.scan_stage.file_path_list.clear();
        self.scan_stage.unresolved_directories = 0;
        assert(self@ == reset_for_scan(old(self)@));
        self.scan(entries)
    }

    /// A batch of a directory's entries has been read. A directory is read
    /// in batches until one comes back empty: an empty batch means the
    /// directory is read, and it is no longer unread; a non-empty one is
    /// scanned, and the report asks for the next batch.
    pub fn directory_read(&mut self, entries: Vec<ScanEntry>) -> (r: Result<ScanReport, ScanError>)
        requires
            old(self).wf(),
            old(self)@.unresolved_directories > 0,
        ensures
            final(self).wf(),
            (exists|k: int| first_other(entries@, k)) <==> r is Err,
            r matches Err(e) ==> (e matches ScanError::NotFileOrDirectory { index } && first_other(
                entries@,
                index as int,
            ) && final(self)@ == old(self)@),
            entries@.len() == 0 ==> r is Ok,
            r matches Ok(report) ==> batch_read(old(self)@, entries@, final(self)@, report),
    {
        if entries.len() == 0 {
            self.scan_stage.unresolved_directories = self.scan_stage.unresolved_directories - 1;
            return self.scan(entries);
        }
        let mut report = self.scan(entries)?;
        report.read_again = true;
        Ok(report)
    }

    /// Takes the next listed path: the one at the count of taken paths,
    /// which goes up by one; `Finish` once every path is taken.
    pub fn take_item(&mut self) -> (r: Result<NextItem, ItemError>)
        requires
            old(self).wf(),
        ensures
            final(self).wf(),
            old(self)@.number_compressed == old(self)@.file_path_list.len() ==> (r matches Ok(
                NextItem::Finish,
            ) && final(self)@ == old(self)@),
            old(self)@.number_compressed < old(self)@.file_path_list.len() ==> r == Ok::<
                NextItem,
                ItemError,
            >(next_item_of(old(self)@.file_path_list[old(self)@.number_compressed as int]))
                && final(self)@ == (ContextModel {
                number_compressed: (old(self)@.number_compressed + 1) as u64,
                ..old(self)@
            }),
            old(self)@.number_compressed > old(self)@.file_path_list.len() ==> r == Err::<
                NextItem,
                ItemError,
            >(ItemError::Missing { index: old(self)@.number_compressed }) && final(self)@ == old(
                self,
            )@,
    {
        let number_compressed = self.compress_encrypt_stage.number_compressed;
        let len = self.scan_stage.file_path_list.len();
        if number_compressed == len as u64 {
            return Ok(NextItem::Finish);
        }
        if number_compressed > len as u64 {
            return Err(ItemError::Missing { index: number_compressed });
        }
        let index = number_compressed as usize;
        self.compress_encrypt_stage.number_compressed = number_compressed + 1;
        let file_path = &self.scan_stage.file_path_list[index];
        let path = file_path.path.clone();
        if file_path.is_dir {
            Ok(NextItem::Directory(path))
        } else {
            Ok(NextItem::File(path))
        }
    }

    /// A click on the compress button: refused, with the reason, unless the
    /// scan is over with at least one path and no output stream is open;
    /// otherwise the stage starts from scratch and takes its first path.
    pub fn compress_encrypt_click(&mut self) -> (r: ClickOutcome)
        requires
            old(self).wf(),
        ensures
            final(self).wf(),
            !old(self)@.file_system_ready ==> r is FileSystemNotReady && final(self)@ == old(self)@,
            old(self)@.file_system_ready && old(self)@.file_path_list.len() == 0 ==> r is EmptyFileList
                && final(self)@ == old(self)@,
            old(self)@.file_system_ready && old(self)@.file_path_list.len() > 0
                && old(self)@.unresolved_directories != 0 ==> r is ScanInProgress && final(self)@ == old(
                self,
            )@,
            old(self)@.file_system_ready && old(self)@.file_path_list.len() > 0
                && old(self)@.unresolved_directories == 0 && old(self)@.writer_open ==> r is WriterExists
                && final(self)@ == old(self)@,
            r is Started ==> final(self)@.file_headers.len() == 0 && final(self)@.bytes_written == 0
                && final(self)@.number_compressed == 1 && final(self)@.writer_open,
            old(self)@.file_system_ready && old(self)@.file_path_list.len() > 0
                && old(self)@.unresolved_directories == 0 && !old(self)@.writer_open ==> r == ClickOutcome::Started(
                next_item_of(old(self)@.file_path_list[0]),
            ) && final(self)@ == (ContextModel {
                number_compressed: 1,
                ..reset_for_compression(old(self)@)
            }),
    {
        // make sure "scan" stage is complete
        if !self.scan_stage.file_system_ready {
            return ClickOutcome::FileSystemNotReady;
        }
        if self.scan_stage.file_path_list.len() == 0 {
            return ClickOutcome::EmptyFileList;
        }
        if self.scan_stage.unresolved_directories != 0 {
            return ClickOutcome::ScanInProgress;
        }
        // make sure "compress_encrypt" stage hasn't started yet
        if self.compress_encrypt_stage.writer_open {
            return ClickOutcome::WriterExists;
        }
        self.compress_encrypt_stage.writer_open = true;
        self.compress_encrypt_stage.number_compressed = 0;
        self.compress_encrypt_stage.file_headers.clear();
        self.compress_encrypt_stage.bytes_written = 0;
        assert(self@.file_headers =~= Seq::<FileHeaderModel>::empty());
        assert(self@ == reset_for_compression(old(self)@));
        // "take_item" is the entry of this stage; with a non-empty list and
        // nothing taken it always gives the first path
        match self.take_item() {
            Ok(item) => ClickOutcome::Started(item),
            Err(_) => vstd::pervasive::unreached(),
        }
    }

    /// Starts the entry for the file at `path`: creates its header, placed at
    /// the current offset, and returns its local file header, whose bytes are
    /// counted as written. Fails, changing nothing, when the offset would
    /// pass `u64::MAX`.
    pub fn begin_file(&mut self, path: &String) -> (r: Result<Vec<u8>, EntryError>)
        requires
            old(self).wf(),
        ensures
            final(self).wf(),
            begin_file_fits(old(self)@, entry_name(encode_utf8(path@))) <==> r is Ok,
            r matches Ok(lfh) ==> lfh@ == lfh_bytes(
                initial_header(entry_name(encode_utf8(path@)), old(self)@.bytes_written),
            ) && final(self)@ == begin_file_step(old(self)@, entry_name(encode_utf8(path@))),
            r is Err ==> r == Err::<Vec<u8>, EntryError>(EntryError::SizeOverflow) && final(self)@ == old(self)@,
    {
        let name = trim_leading_slashes(path.as_str().as_bytes());
        let bytes_written = self.compress_encrypt_stage.bytes_written;
        let file_header = FileHeader::from_name_bytes(name, bytes_written);
        let mut lfh: Vec<u8> = Vec::new();
        file_header.write_into_as_lfh(&mut lfh);
        let lfh_len = lfh.len() as u64;
        if bytes_written > u64::MAX - lfh_len {
            return Err(EntryError::SizeOverflow);
        }
        let ghost old_headers = self.compress_encrypt_stage.file_headers@;
        self.compress_encrypt_stage.file_headers.push(file_header);
        self.compress_encrypt_stage.bytes_written = bytes_written + lfh_len;
        assert(header_models(self.compress_encrypt_stage.file_headers@) =~= header_models(
            old_headers,
        ).push(file_header@));
        Ok(lfh)
    }

    /// Ends the last entry with what its compression found: the header takes
    /// the CRC and sizes, the compressed data and the data descriptor are
    /// counted as written, and the data descriptor is returned.
    pub fn end_file(&mut self, summary: &FileSummary) -> (r: Result<Vec<u8>, EntryError>)
        requires
            old(self).wf(),
        ensures
            final(self).wf(),
            old(self)@.bytes_written + summary.compressed_size + DATA_DESCRIPTOR_SIZE > u64::MAX ==> r
                == Err::<Vec<u8>, EntryError>(EntryError::SizeOverflow),
            old(self)@.bytes_written + summary.compressed_size + DATA_DESCRIPTOR_SIZE <= u64::MAX
                && old(self)@.file_headers.len() == 0 ==> r == Err::<Vec<u8>, EntryError>(
                EntryError::NoFileHeader,
            ),
            old(self)@.bytes_written + summary.compressed_size + DATA_DESCRIPTOR_SIZE <= u64::MAX
                && old(self)@.file_headers.len() > 0 ==> r is Ok,
            r is Err ==> final(self)@ == old(self)@,
            r matches Ok(descriptor) ==> descriptor@ == data_descriptor_bytes(
                summary.crc32,
                summary.compressed_size,
                summary.uncompressed_size,
            ) && final(self)@ == end_file_step(
                old(self)@,
                summary.crc32,
                summary.compressed_size,
                summary.uncompressed_size,
            ),
    {
        let bytes_written = self.compress_encrypt_stage.bytes_written;
        if bytes_written > u64::MAX - DATA_DESCRIPTOR_SIZE as u64
            || bytes_written + DATA_DESCRIPTOR_SIZE as u64 > u64::MAX - summary.compressed_size {
            return Err(EntryError::SizeOverflow);
        }
        let ghost old_headers = self.compress_encrypt_stage.file_headers@;
        let mut file_header = match self.compress_encrypt_stage.file_headers.pop() {
            Some(h) => h,
            None => return Err(EntryError::NoFileHeader),
        };
        file_header.set_crc_32(summary.crc32);
        file_header.set_compressed_size_u64(summary.compressed_size);
        file_header.set_uncompressed_size_u64(summary.uncompressed_size);
        self.compress_encrypt_stage.file_headers.push(file_header);
        self.compress_encrypt_stage.bytes_written = bytes_written + summary.compressed_size
            + DATA_DESCRIPTOR_SIZE as u64;
        assert(header_models(self.compress_encrypt_stage.file_headers@) =~= header_models(
            old_headers,
        ).drop_last().push(file_header@));
        Ok(data_descriptor(summary.crc32, summary.compressed_size, summary.uncompressed_size))
    }

    /// The archive's tail: the central directory of every entry, starting at
    /// the current offset, and the end records; `None` when an offset would
    /// not fit in 64 bits.
    pub fn finish(&self) -> (r: Option<Vec<u8>>)
        ensures
            r is Some <==> tail_fits(self@.file_headers, self@.bytes_written),
            r matches Some(tail) ==> tail@ == tail_bytes(self@.file_headers, self@.bytes_written),
    {
        write_tail(&self.compress_encrypt_stage.file_headers, self.compress_encrypt_stage.bytes_written)
    }

    /// Whether a drop has set up a file system.
    pub fn file_system_ready(&self) -> (r: bool)
        ensures
            r == self@.file_system_ready,
    {
        self.scan_stage.file_system_ready
    }

    /// The listed paths.
    pub fn file_path_list(&self) -> (r: &Vec<FilePath>)
        ensures
            r@ == self@.file_path_list,
    {
        &self.scan_stage.file_path_list
    }

    /// The number of directories whose contents are still being read.
    pub fn unresolved_directories(&self) -> (r: u64)
        ensures
            r == self@.unresolved_directories,
    {
        self.scan_stage.unresolved_directories
    }

    /// Whether an output stream is open.
    pub fn writer_open(&self) -> (r: bool)
        ensures
            r == self@.writer_open,
    {
        self.compress_encrypt_stage.writer_open
    }

    /// The number of listed paths taken so far.
    pub fn number_compressed(&self) -> (r: u64)
        ensures
            r == self@.number_compressed,
    {
        self.compress_encrypt_stage.number_compressed
    }

    /// The headers of the entries written so far.
    pub fn file_headers(&self) -> (r: &Vec<FileHeader>)
        ensures
            header_models(r@) == self@.file_headers,
    {
        &self.compress_encrypt_stage.file_headers
    }

    /// The number of bytes of the archive written so far.
    pub fn bytes_written(&self) -> (r: u64)
        ensures
            r == self@.bytes_written,
    {
        self.compress_encrypt_stage.bytes_written
    }

    /// The output stream has been closed.
    pub fn close_writer(&mut self)
        requires
            old(self).wf(),
        ensures
            final(self).wf(),
            final(self)@ == (ContextModel { writer_open: false, ..old(self)@ }),
    {
        self.compress_encrypt_stage.writer_open = false;
    }
}

/// One file's entry, as the compression stage writes it.
pub ghost struct FileRecord {
    pub name: Seq<u8>,
    pub crc32: u32,
    pub compressed_size: u64,
    pub uncompressed_size: u64,
}

/// The state after each file of `files` has been begun and ended in turn.
pub open spec fn write_entries(m: ContextModel, files: Seq<FileRecord>) -> ContextModel
    decreases files.len(),
{
    if files.len() == 0 {
        m
    } else {
        let f = files.last();
        end_file_step(
            begin_file_step(write_entries(m, files.drop_last()), f.name),
            f.crc32,
            f.compressed_size,
            f.uncompressed_size,
        )
    }
}

/// The bytes an entry takes in the archive: local header, compressed data,
/// data descriptor.
pub open spec fn entry_len(h: FileHeaderModel) -> int {
    lfh_bytes(h).len() + h.compressed_size_u64 + DATA_DESCRIPTOR_SIZE
}

/// The bytes the entries take, one after the other.
pub open spec fn entries_len(headers: Seq<FileHeaderModel>) -> int
    decreases headers.len(),
{
    if headers.len() == 0 {
        0
    } else {
        entries_len(headers.drop_last()) + entry_len(headers.last())
    }
}

/// The bytes the entries of `files` take.
pub open spec fn records_len(files: Seq<FileRecord>) -> int
    decreases files.len(),
{
    if files.len() == 0 {
        0
    } else {
        records_len(files.drop_last()) + 50 + files.last().name.len() + files.last().compressed_size
            + DATA_DESCRIPTOR_SIZE
    }
}

/// The header the compression stage leaves for a file whose local header
/// starts at `lfh_pos`.
pub open spec fn finished_header(f: FileRecord, lfh_pos: u64) -> FileHeaderModel {
    FileHeaderModel {
        crc_32: f.crc32,
        compressed_size_u64: f.compressed_size,
        uncompressed_size_u64: f.uncompressed_size,
        ..initial_header(f.name, lfh_pos)
    }
}

proof fn lemma_records_len_nonneg(files: Seq<FileRecord>)
    ensures
        records_len(files) >= 0,
        files.len() > 0 ==> records_len(files.drop_last()) <= records_len(files),
    decreases files.len(),
{
    if files.len() > 0 {
        lemma_records_len_nonneg(files.drop_last());
    }
}

/// Where the entries land: from the start of a compression stage, writing
/// the files' entries in turn, with the whole archive body within 64-bit
/// offsets, never overflows; each file gets one header, in order, holding its
/// name, CRC and sizes; each header's local header offset is the number of
/// bytes the entries before it take; and the offset where the central
/// directory will start is the number of bytes all entries take.
pub proof fn lemma_entries_laid_out(m: ContextModel, files: Seq<FileRecord>)
    requires
        m.file_headers.len() == 0,
        m.bytes_written == 0,
        records_len(files) <= u64::MAX,
    ensures
        ({
            let r = write_entries(m, files);
            &&& r.file_headers.len() == files.len()
            &&& r.bytes_written == entries_len(r.file_headers)
            &&& r.bytes_written == records_len(files)
            &&& forall|i: int| 0 <= i < files.len() ==> (#[trigger] r.file_headers[i]).lfh_pos
                == entries_len(r.file_headers.take(i))
            &&& forall|i: int| 0 <= i < files.len() ==> #[trigger] r.file_headers[i]
                == finished_header(files[i], r.file_headers[i].lfh_pos)
            &&& r.file_system_ready == m.file_system_ready
            &&& r.file_path_list == m.file_path_list
            &&& r.unresolved_directories == m.unresolved_directories
            &&& r.writer_open == m.writer_open
            &&& r.number_compressed == m.number_compressed
        }),
        files.len() > 0 ==> begin_file_fits(write_entries(m, files.drop_last()), files.last().name),
        files.len() > 0 ==> ({
            let mid = begin_file_step(write_entries(m, files.drop_last()), files.last().name);
            mid.bytes_written + files.last().compressed_size + DATA_DESCRIPTOR_SIZE <= u64::MAX
        }),
    decreases files.len(),
{
    if files.len() > 0 {
        let rest = files.drop_last();
        let f = files.last();
        lemma_records_len_nonneg(files);
        lemma_entries_laid_out(m, rest);
        let before = write_entries(m, rest);
        let hs = before.file_headers;
        let h = initial_header(f.name, before.bytes_written);
        crate::appnote63::lemma_lfh_len(h);
        let mid = begin_file_step(before, f.name);
        let r = write_entries(m, files);
        let done = finished_header(f, before.bytes_written);
        crate::appnote63::lemma_lfh_len(done);
        assert(r.file_headers =~= hs.push(done));
        assert(r.file_headers.drop_last() =~= hs);
        assert forall|i: int| 0 <= i < files.len() implies (#[trigger] r.file_headers[i]).lfh_pos
            == entries_len(r.file_headers.take(i)) by {
            if i < hs.len() {
                assert(r.file_headers.take(i) =~= hs.take(i));
                assert(r.file_headers[i] == hs[i]);
            } else {
                assert(r.file_headers.take(i) =~= hs);
            }
        }
        assert forall|i: int| 0 <= i < files.len() implies #[trigger] r.file_headers[i]
            == finished_header(files[i], r.file_headers[i].lfh_pos) by {
            if i < hs.len() {
                assert(r.file_headers[i] == hs[i]);
                assert(files[i] == rest[i]);
            }
        }
    }
}

/// The bytes of one entry as the page writes them: the local header that
/// `begin_file` returns, the compressed data, and the data descriptor that
/// `end_file` returns.
pub open spec fn entry_bytes(f: FileRecord, lfh_pos: u64, data: Seq<u8>) -> Seq<u8> {
    lfh_bytes(initial_header(f.name, lfh_pos)) + data + data_descriptor_bytes(
        f.crc32,
        f.compressed_size,
        f.uncompressed_size,
    )
}

/// The archive's bytes before its tail: the entries of `files`, with
/// compressed data `data`, one after the other from offset 0.
pub open spec fn archive_body(files: Seq<FileRecord>, data: Seq<Seq<u8>>) -> Seq<u8>
    decreases files.len(),
{
    if files.len() == 0 || data.len() == 0 {
        seq![]
    } else {
        let before = archive_body(files.drop_last(), data.drop_last());
        before + entry_bytes(files.last(), before.len() as u64, data.last())
    }
}

/// The bytes of an entry, part by part.
proof fn lemma_entry_parts(f: FileRecord, pos: u64, data: Seq<u8>)
    ensures
        ({
            let lfh = lfh_bytes(initial_header(f.name, pos));
            let e = entry_bytes(f, pos, data);
            &&& lfh.len() == 50 + f.name.len()
            &&& e.len() == lfh.len() + data.len() + DATA_DESCRIPTOR_SIZE
            &&& e.subrange(0, lfh.len() as int) == lfh
            &&& e.subrange(lfh.len() as int, (lfh.len() + data.len()) as int) == data
            &&& e.subrange((lfh.len() + data.len()) as int, lfh.len() + data.len() + DATA_DESCRIPTOR_SIZE)
                == data_descriptor_bytes(f.crc32, f.compressed_size, f.uncompressed_size)
        }),
{
    let lfh = lfh_bytes(initial_header(f.name, pos));
    let e = entry_bytes(f, pos, data);
    crate::appnote63::lemma_lfh_len(initial_header(f.name, pos));
    assert(e.subrange(0, lfh.len() as int) =~= lfh);
    assert(e.subrange(lfh.len() as int, (lfh.len() + data.len()) as int) =~= data);
    assert(e.subrange((lfh.len() + data.len()) as int, lfh.len() + data.len() + DATA_DESCRIPTOR_SIZE)
        =~= data_descriptor_bytes(f.crc32, f.compressed_size, f.uncompressed_size));
}

/// A range inside the first part of a concatenation, or inside the second.
proof fn lemma_subrange_of_concat(a: Seq<u8>, b: Seq<u8>, lo: int, hi: int)
    requires
        0 <= lo <= hi <= a.len() + b.len(),
    ensures
        hi <= a.len() ==> (a + b).subrange(lo, hi) == a.subrange(lo, hi),
        a.len() <= lo ==> (a + b).subrange(lo, hi) == b.subrange(lo - a.len(), hi - a.len()),
{
    if hi <= a.len() {
        assert((a + b).subrange(lo, hi) =~= a.subrange(lo, hi));
    }
    if a.len() <= lo {
        assert((a + b).subrange(lo, hi) =~= b.subrange(lo - a.len(), hi - a.len()));
    }
}

/// Where entry `i` stands in a body, and what stands there.
pub open spec fn entry_in_body(body: Seq<u8>, f: FileRecord, pos: u64, data: Seq<u8>) -> bool {
    let lfh = lfh_bytes(initial_header(f.name, pos));
    let descriptor_pos = pos + lfh.len() + f.compressed_size;
    &&& descriptor_pos + DATA_DESCRIPTOR_SIZE <= body.len()
    &&& body.subrange(pos as int, pos + lfh.len()) == lfh
    &&& body.subrange(pos + lfh.len(), descriptor_pos) == data
    &&& body.subrange(descriptor_pos, descriptor_pos + DATA_DESCRIPTOR_SIZE) == data_descriptor_bytes(
        f.crc32,
        f.compressed_size,
        f.uncompressed_size,
    )
}

/// An entry already in the body stays where it is when another follows.
proof fn lemma_entry_kept(prefix: Seq<u8>, next: Seq<u8>, f: FileRecord, pos: u64, data: Seq<u8>)
    requires
        entry_in_body(prefix, f, pos, data),
    ensures
        entry_in_body(prefix + next, f, pos, data),
{
    let lfh = lfh_bytes(initial_header(f.name, pos));
    let descriptor_pos = pos + lfh.len() + f.compressed_size;
    lemma_subrange_of_concat(prefix, next, pos as int, pos + lfh.len());
    lemma_subrange_of_concat(prefix, next, pos + lfh.len(), descriptor_pos);
    lemma_subrange_of_concat(prefix, next, descriptor_pos, descriptor_pos + DATA_DESCRIPTOR_SIZE);
}

/// An entry appended to the body stands at the body's old length.
proof fn lemma_entry_appended(prefix: Seq<u8>, f: FileRecord, data: Seq<u8>)
    requires
        prefix.len() <= u64::MAX,
        data.len() == f.compressed_size,
    ensures
        entry_in_body(
            prefix + entry_bytes(f, prefix.len() as u64, data),
            f,
            prefix.len() as u64,
            data,
        ),
{
    let pos = prefix.len() as u64;
    let entry = entry_bytes(f, pos, data);
    lemma_entry_parts(f, pos, data);
    let lfh = lfh_bytes(initial_header(f.name, pos));
    let descriptor_pos = pos + lfh.len() + f.compressed_size;
    lemma_subrange_of_concat(prefix, entry, pos as int, pos + lfh.len());
    lemma_subrange_of_concat(prefix, entry, pos + lfh.len(), descriptor_pos);
    lemma_subrange_of_concat(prefix, entry, descriptor_pos, descriptor_pos + DATA_DESCRIPTOR_SIZE);
}

/// The offsets the headers record are right: writing the files' entries in
/// turn from the start of a compression stage, where each file's compressed
/// data has the size its summary reports, the archive body is as long as
/// the count of bytes written (where the central directory then starts),
/// and at the offset recorded in each file's header stand that file's
/// local header and, after its data, its data descriptor.
#[verifier::spinoff_prover]
pub proof fn lemma_headers_point_at_entries(m: ContextModel, files: Seq<FileRecord>, data: Seq<Seq<u8>>)
    requires
        m.file_headers.len() == 0,
        m.bytes_written == 0,
        records_len(files) <= u64::MAX,
        data.len() == files.len(),
        forall|i: int| 0 <= i < files.len() ==> (#[trigger] data[i]).len() == files[i].compressed_size,
    ensures
        archive_body(files, data).len() == write_entries(m, files).bytes_written,
        forall|i: int|
            0 <= i < files.len() ==> entry_in_body(
                archive_body(files, data),
                files[i],
                (#[trigger] write_entries(m, files).file_headers[i]).lfh_pos,
                data[i],
            ),
    decreases files.len(),
{
    if files.len() == 0 {
        return;
    }
    let rest = files.drop_last();
    let rest_data = data.drop_last();
    lemma_records_len_nonneg(files);
    assert forall|i: int| 0 <= i < rest.len() implies (#[trigger] rest_data[i]).len()
        == rest[i].compressed_size by {
        assert(rest_data[i] == data[i]);
    }
    lemma_headers_point_at_entries(m, rest, rest_data);
    let before = write_entries(m, rest);
    let r = write_entries(m, files);
    let prefix = archive_body(rest, rest_data);
    let f = files.last();
    let pos = prefix.len() as u64;
    let entry = entry_bytes(f, pos, data.last());
    let body = archive_body(files, data);
    assert(body == prefix + entry);
    lemma_entry_parts(f, pos, data.last());
    lemma_entries_laid_out(m, files);
    lemma_entries_laid_out(m, rest);
    assert(body.len() == r.bytes_written);
    assert(r.file_headers.drop_last() =~= before.file_headers);
    assert forall|i: int| 0 <= i < files.len() implies entry_in_body(
        body,
        files[i],
        (#[trigger] r.file_headers[i]).lfh_pos,
        data[i],
    ) by {
        if i < rest.len() {
            assert(r.file_headers[i] == before.file_headers[i]);
            assert(files[i] == rest[i]);
            assert(data[i] == rest_data[i]);
            lemma_entry_kept(prefix, entry, rest[i], before.file_headers[i].lfh_pos, rest_data[i]);
        } else {
            lemma_entry_appended(prefix, f, data.last());
        }
    }
}

proof fn lemma_count_directories_concat(a: Seq<ScanEntry>, b: Seq<ScanEntry>)
    ensures
        count_directories(a + b) == count_directories(a) + count_directories(b),
    decreases b.len(),
{
    if b.len() == 0 {
        assert(a + b =~= a);
    } else {
        lemma_count_directories_concat(a, b.drop_last());
        assert((a + b).drop_last() =~= a + b.drop_last());
    }
}

/// Reading directories batch by batch lists every entry handed over, each
/// once, and keeps count of the directories still to be read: after a series
/// of batches, the list holds, as a multiset, what it held and the paths of
/// every batch; and the number of unread directories has gone up by the
/// directories found and down by one for each empty batch, which ends a
/// directory.
pub proof fn lemma_batches_list_every_entry(
    states: Seq<ContextModel>,
    batches: Seq<Seq<ScanEntry>>,
    reports: Seq<ScanReport>,
)
    requires
        states.len() == batches.len() + 1,
        reports.len() == batches.len(),
        forall|i: int|
            0 <= i < batches.len() ==> #[trigger] batch_read(
                states[i],
                batches[i],
                states[i + 1],
                reports[i],
            ),
    ensures
        states.last().file_path_list.to_multiset() == states[0].file_path_list.to_multiset().add(
            file_paths_of(all_entries(batches)).to_multiset(),
        ),
        states.last().unresolved_directories + empty_batches(batches) == states[0].unresolved_directories
            + count_directories(all_entries(batches)),
    decreases batches.len(),
{
    broadcast use vstd::seq_lib::lemma_multiset_commutative, vstd::seq_lib::group_to_multiset_ensures, vstd::multiset::group_multiset_axioms;
    if batches.len() == 0 {
        assert(file_paths_of(Seq::<ScanEntry>::empty()) =~= Seq::<FilePath>::empty());
        assert(states[0].file_path_list.to_multiset().add(Seq::<FilePath>::empty().to_multiset())
            =~= states[0].file_path_list.to_multiset());
    } else {
        let k = batches.len() - 1;
        assert(batch_read(states[k], batches[k], states[k + 1], reports[k]));
        let s2 = states.drop_last();
        let b2 = batches.drop_last();
        let r2 = reports.drop_last();
        assert(b2.len() == k && s2.len() == k + 1 && r2.len() == k);
        assert forall|i: int| 0 <= i < b2.len() implies #[trigger] batch_read(
            s2[i],
            b2[i],
            s2[i + 1],
            r2[i],
        ) by {
            assert(batch_read(states[i], batches[i], states[i + 1], reports[i]));
            assert(s2[i] == states[i] && s2[i + 1] == states[i + 1]);
            assert(b2[i] == batches[i] && r2[i] == reports[i]);
        }
        lemma_batches_list_every_entry(s2, b2, r2);
        let before = all_entries(batches.drop_last());
        let b = batches.last();
        assert(file_paths_of(before + b) =~= file_paths_of(before) + file_paths_of(b));
        lemma_count_directories_concat(before, b);
        let listed = states[k].file_path_list + file_paths_of(b);
        if states[k + 1].file_path_list != listed {
            lemma_stable_sort_permutes(states[k + 1].file_path_list, listed);
        }
        assert(states[k].file_path_list.to_multiset().add(file_paths_of(b).to_multiset())
            == listed.to_multiset());
        assert(states[0].file_path_list.to_multiset().add(file_paths_of(before).to_multiset()).add(
            file_paths_of(b).to_multiset(),
        ) =~= states[0].file_path_list.to_multiset().add(
            (file_paths_of(before) + file_paths_of(b)).to_multiset(),
        ));
    }
}

} // verus!
