//! One file's pass through the compressor: each chunk read from the file is
//! folded into the CRC-32 and deflated (level 5), and the compressed bytes
//! it gives are handed back to be written out.

use vstd::prelude::*;
use vstd::slice::slice_subrange;
use crate::codec::{
    crc32_update, deflate_finish, deflate_finish_step, deflate_get_mut, deflate_get_ref,
    deflate_new, deflate_write, deflate_write_step, write_zero_error, DeflateCall, DeflateStream,
};
use crate::crc32::{crc32, lemma_crc32_continue_concat, lemma_crc32_continue_empty};
use crate::writer_chain::{
    written_bytes, refuses_in_pieces, refuses_piece, takes_first, takes_in_writes, takes_pieces, ChainWrite,
};

verus! {

/// Compression level of the entries' data.
pub const COMPRESSION_LEVEL: u32 = 5;

/// Initial capacity of the buffer that takes the compressed bytes: 1 MiB.
pub const COMPRESSED_BUFFER_CAPACITY: usize = 1024 * 1024;

/// Why a file's compression stopped.
#[derive(Debug)]
pub enum CompressError {
    /// The deflate encoder failed.
    Io(std::io::Error),
    /// A byte count passed `u64::MAX`.
    SizeOverflow,
}

/// The chunks joined, in order.
pub open spec fn joined(chunks: Seq<Seq<u8>>) -> Seq<u8>
    decreases chunks.len(),
{
    if chunks.len() == 0 {
        Seq::empty()
    } else {
        joined(chunks.drop_last()) + chunks.last()
    }
}

/// What `write_all` of `buf` does on a deflate encoder at `level`, with an
/// output buffer of `room` bytes, that has served `history`, into an inner
/// writer that takes everything: the encoder's writes, each taking what it
/// takes of the rest, until all of `buf` is taken. `None` when a write fails
/// or takes nothing; else the encoder's calls afterwards and the compressed
/// bytes handed out meanwhile, joined.
pub open spec fn deflate_feed(level: u32, room: nat, history: Seq<DeflateCall>, buf: Seq<u8>) -> Option<
    (Seq<DeflateCall>, Seq<u8>),
>
    decreases buf.len(),
{
    if buf.len() == 0 {
        Some((history, Seq::empty()))
    } else {
        match deflate_write_step(level, room, history, buf) {
            None => None,
            Some((taken, handed)) => if taken == 0 || taken > buf.len() {
                None
            } else {
                match deflate_feed(
                    level,
                    room,
                    history.push(Some(buf.subrange(0, taken as int))),
                    buf.subrange(taken as int, buf.len() as int),
                ) {
                    None => None,
                    Some((after, rest)) => Some((after, joined(handed) + rest)),
                }
            },
        }
    }
}

/// `write_all` feeds the whole buffer: when it succeeds, the encoder's
/// writes since, joined in order, are exactly `buf`.
pub proof fn lemma_feed_takes_all(level: u32, room: nat, history: Seq<DeflateCall>, buf: Seq<u8>)
    ensures
        deflate_feed(level, room, history, buf) matches Some((after, _)) ==> written_bytes(after)
            == written_bytes(history) + buf,
    decreases buf.len(),
{
    if buf.len() == 0 {
        assert(written_bytes(history) + buf =~= written_bytes(history));
    } else if let Some((taken, handed)) = deflate_write_step(level, room, history, buf) {
        if taken > 0 && taken <= buf.len() {
            let first = buf.subrange(0, taken as int);
            let rest = buf.subrange(taken as int, buf.len() as int);
            let next = history.push(Some(first));
            lemma_feed_takes_all(level, room, next, rest);
            assert(next.drop_last() =~= history);
            assert(written_bytes(next) == written_bytes(history) + first);
            assert(first + rest =~= buf);
            assert(written_bytes(history) + first + rest =~= written_bytes(history) + buf);
        }
    }
}

/// `outcome` with `acc` put in front of the bytes it hands out.
spec fn after_handing(acc: Seq<u8>, outcome: Option<(Seq<DeflateCall>, Seq<u8>)>) -> Option<
    (Seq<DeflateCall>, Seq<u8>),
> {
    match outcome {
        None => None,
        Some((after, handed)) => Some((after, acc + handed)),
    }
}

/// A byte vector offered `bytes` takes all of them in its first write, so it
/// takes a first part of them only when that part is all or nothing.
proof fn lemma_vec_takes_first(old: Vec<u8>, bytes: Seq<u8>, count: nat, new: Vec<u8>)
    requires
        takes_first(old, bytes, count, new),
        count <= bytes.len(),
    ensures
        count == 0 ==> new == old,
        count > 0 ==> count == bytes.len() && new@ == old@ + bytes,
{
    if count > 0 {
        let (mid, n) = choose|mid: Vec<u8>, n: usize|
            0 < n <= count && n <= bytes.len() && #[trigger] <Vec<u8> as ChainWrite>::wrote(
                old,
                bytes,
                mid,
                Ok::<usize, std::io::Error>(n),
            ) && takes_first(
                mid,
                bytes.subrange(n as int, bytes.len() as int),
                (count - n) as nat,
                new,
            );
        assert(mid@.len() == mid.len());
    }
}

/// A byte vector handed pieces in turn holds them joined after what it held.
proof fn lemma_vec_takes_pieces(old: Vec<u8>, pieces: Seq<Seq<u8>>, new: Vec<u8>)
    requires
        takes_pieces(old, pieces, new),
    ensures
        new@ == old@ + joined(pieces),
    decreases pieces.len(),
{
    if pieces.len() == 0 {
        assert(old@ + Seq::<u8>::empty() =~= old@);
    } else {
        let mid = choose|mid: Vec<u8>|
            takes_pieces(old, pieces.drop_last(), mid) && #[trigger] takes_in_writes(
                mid,
                pieces.last(),
                new,
            );
        lemma_vec_takes_pieces(old, pieces.drop_last(), mid);
        lemma_vec_takes_first(mid, pieces.last(), pieces.last().len(), new);
        assert(new@ =~= old@ + joined(pieces));
    }
}

/// A byte vector never refuses what it is offered.
proof fn lemma_vec_never_refuses(old: Vec<u8>, pieces: Seq<Seq<u8>>)
    ensures
        !refuses_in_pieces(old, pieces),
{
    if refuses_in_pieces(old, pieces) {
        let (p, mid) = choose|p: int, mid: Vec<u8>|
            0 <= p < pieces.len() && takes_pieces(old, pieces.take(p), mid)
                && #[trigger] refuses_piece(mid, pieces[p]);
        let piece = pieces[p];
        let (i, m2, after, r) = choose|i: nat, m2: Vec<u8>, after: Vec<u8>, r: std::io::Result<usize>|
            i < piece.len() && takes_first(mid, piece, i, m2) && #[trigger] <Vec<u8> as ChainWrite>::wrote(
                m2,
                piece.subrange(i as int, piece.len() as int),
                after,
                r,
            ) && !(r matches Ok(n) && n > 0);
        lemma_vec_takes_first(mid, piece, i, m2);
        assert(after@.len() == after.len());
    }
}

/// Feeds all of `buf` to the encoder, a write at a time, as `write_all`
/// does: a write that fails, or takes nothing, ends it with an error. (The
/// encoder never fails with `Interrupted`, on which `write_all` would try
/// again: its own errors are `InvalidInput`, and a byte vector takes all.)
fn write_all(stream: &mut DeflateStream<Vec<u8>>, buf: &[u8]) -> (r: std::io::Result<()>)
    ensures
        final(stream).level() == old(stream).level(),
        final(stream).room() == old(stream).room(),
        !old(stream).intact() ==> !final(stream).intact(),
        old(stream).intact() ==> match deflate_feed(
            old(stream).level(),
            old(stream).room(),
            old(stream).history(),
            buf@,
        ) {
            None => r is Err,
            Some((after, handed)) => {
                &&& r is Ok
                &&& final(stream).intact()
                &&& final(stream).history() == after
                &&& final(stream).inner()@ == old(stream).inner()@ + handed
            },
        },
{
    let ghost level = stream.level();
    let ghost room = stream.room();
    let ghost outcome = deflate_feed(level, room, stream.history(), buf@);
    let ghost start = stream.inner()@;
    let ghost was_intact = stream.intact();
    let mut acc: Ghost<Seq<u8>> = Ghost(Seq::empty());
    let mut pos: usize = 0;
    proof {
        assert(buf@.subrange(0, buf@.len() as int) =~= buf@);
        assert(after_handing(Seq::empty(), outcome) == outcome) by {
            if let Some((a, h)) = outcome {
                assert(Seq::<u8>::empty() + h =~= h);
            }
        }
    }
    while pos < buf.len()
        invariant
            pos <= buf@.len(),
            level == old(stream).level(),
            room == old(stream).room(),
            was_intact == old(stream).intact(),
            outcome == deflate_feed(level, room, old(stream).history(), buf@),
            start == old(stream).inner()@,
            stream.level() == level,
            stream.room() == room,
            !was_intact ==> !stream.intact(),
            was_intact ==> stream.intact(),
            was_intact ==> stream.inner()@ == start + acc@,
            was_intact ==> outcome == after_handing(
                acc@,
                deflate_feed(level, room, stream.history(), buf@.subrange(pos as int, buf@.len() as int)),
            ),
        decreases buf.len() - pos,
    {
        let part = slice_subrange(buf, pos, buf.len());
        let ghost before = *stream;
        let written = deflate_write(stream, part);
        proof {
            if was_intact {
                if let Some((k, h)) = deflate_write_step(level, room, before.history(), part@) {
                    lemma_vec_never_refuses(before.inner(), h);
                }
            }
        }
        match written {
            Ok(n) => {
                if n == 0 {
                    proof {
                        let rest = buf@.subrange(pos as int, buf@.len() as int);
                        assert(rest =~= part@);
                        assert(was_intact ==> deflate_feed(level, room, before.history(), rest) is None);
                    }
                    return Err(write_zero_error());
                }
                proof {
                    if was_intact {
                        let (k, pieces) = deflate_write_step(level, room, before.history(), part@)->0;
                        let h = joined(pieces);
                        lemma_vec_takes_pieces(before.inner(), pieces, stream.inner());
                        let rest = part@.subrange(n as int, part@.len() as int);
                        assert(rest =~= buf@.subrange(pos + n, buf@.len() as int));
                        let inner_outcome = deflate_feed(level, room, stream.history(), rest);
                        assert(after_handing(acc@, after_handing(h, inner_outcome))
                            == after_handing(acc@ + h, inner_outcome)) by {
                            if let Some((a, t)) = inner_outcome {
                                assert(acc@ + (h + t) =~= (acc@ + h) + t);
                            }
                        }
                        acc@ = acc@ + h;
                        assert(stream.inner()@ =~= start + acc@);
                    }
                }
                pos = pos + n;
            },
            Err(e) => {
                proof {
                    let rest = buf@.subrange(pos as int, buf@.len() as int);
                    assert(rest =~= part@);
                    assert(was_intact ==> deflate_feed(level, room, before.history(), rest) is None);
                }
                return Err(e);
            },
        }
    }
    proof {
        if was_intact {
            assert(buf@.subrange(pos as int, buf@.len() as int) =~= Seq::<u8>::empty());
            assert(acc@ + Seq::<u8>::empty() =~= acc@);
        }
    }
    Ok(())
}

/// What the data descriptor of a finished entry records.
pub struct FileSummary {
    pub crc32: u32,
    pub compressed_size: u64,
    pub uncompressed_size: u64,
}

/// The state of one file's compression.
pub struct FileCompressor {
    crc: u32,
    encoder: DeflateStream<Vec<u8>>,
    total_in: u64,
    total_out: u64,
    chunks: Ghost<Seq<Seq<u8>>>,
}

impl FileCompressor {
    /// The non-empty chunks fed so far, in order.
    pub closed spec fn chunks(&self) -> Seq<Seq<u8>> {
        self.chunks@
    }

    /// The number of bytes read so far.
    pub closed spec fn total_in(&self) -> u64 {
        self.total_in
    }

    /// The number of compressed bytes handed back so far.
    pub closed spec fn total_out(&self) -> u64 {
        self.total_out
    }

    /// The running CRC-32.
    pub closed spec fn crc(&self) -> u32 {
        self.crc
    }

    /// The size of the deflate encoder's output buffer.
    pub closed spec fn room(&self) -> nat {
        self.encoder.room()
    }

    /// The calls the deflate encoder has served.
    pub closed spec fn history(&self) -> Seq<DeflateCall> {
        self.encoder.history()
    }

    /// Whether the deflate encoder has not failed, so that its history is all
    /// that decides what it does next.
    pub closed spec fn usable(&self) -> bool {
        self.encoder.intact()
    }

    /// The counters agree with the chunks fed: the CRC is the CRC-32 of all
    /// the bytes fed, and the input count their number.
    pub closed spec fn wf(&self) -> bool {
        &&& self.crc == crc32(joined(self.chunks@))
        &&& self.total_in == joined(self.chunks@).len()
        &&& self.encoder.level() == COMPRESSION_LEVEL
    }

    /// A compressor that has been fed nothing.
    pub fn new() -> (r: FileCompressor)
        ensures
            r.wf(),
            r.chunks() == Seq::<Seq<u8>>::empty(),
            r.total_in() == 0,
            r.total_out() == 0,
            r.history() == Seq::<DeflateCall>::empty(),
            r.usable(),
            r.room() >= 32 * 1024,
    {
        proof {
            lemma_crc32_continue_empty(0);
        }
        let sink: Vec<u8> = Vec::with_capacity(COMPRESSED_BUFFER_CAPACITY);
        FileCompressor {
            crc: 0,
            encoder: deflate_new(sink, COMPRESSION_LEVEL),
            total_in: 0,
            total_out: 0,
            chunks: Ghost(Seq::empty()),
        }
    }

    /// Feeds the bytes of one read. An empty read changes nothing and gives
    /// nothing. Otherwise the bytes go into the CRC and the encoder, and the
    /// compressed bytes the encoder gave for them are returned: on a usable
    /// compressor exactly those `deflate_feed` names, and an error of the
    /// encoder only where it names none.
    pub fn compress_chunk(&mut self, chunk: &[u8]) -> (r: Result<Vec<u8>, CompressError>)
        requires
            old(self).wf(),
        ensures
            final(self).wf(),
            chunk@.len() == 0 ==> (r matches Ok(out) && out@.len() == 0 && *final(self) == *old(
                self,
            )),
            chunk@.len() > 0 && old(self).total_in() + chunk@.len() > u64::MAX ==> (r matches Err(
                CompressError::SizeOverflow,
            ) && *final(self) == *old(self)),
            chunk@.len() > 0 && old(self).total_in() + chunk@.len() <= u64::MAX ==> {
                &&& final(self).chunks() == old(self).chunks().push(chunk@)
                &&& final(self).total_in() == old(self).total_in() + chunk@.len()
                &&& r is Err ==> final(self).total_out() == old(self).total_out()
                &&& !old(self).usable() ==> !final(self).usable()
                &&& final(self).room() == old(self).room()
                &&& old(self).usable() ==> match deflate_feed(
                    COMPRESSION_LEVEL,
                    old(self).room(),
                    old(self).history(),
                    chunk@,
                ) {
                    None => r matches Err(CompressError::Io(_)),
                    Some((after, out)) => {
                        &&& final(self).usable()
                        &&& final(self).history() == after
                        &&& written_bytes(after) == written_bytes(old(self).history()) + chunk@
                        &&& (old(self).total_out() + out.len() > u64::MAX <==> r matches Err(
                            CompressError::SizeOverflow,
                        ))
                        &&& (old(self).total_out() + out.len() <= u64::MAX ==> (r matches Ok(v)
                            && v@ == out && final(self).total_out() == old(self).total_out()
                            + out.len()))
                    },
                }
            },
    {
        let bytes_read = chunk.len();
        if bytes_read == 0 {
            return Ok(Vec::new());
        }
        if self.total_in > u64::MAX - bytes_read as u64 {
            return Err(CompressError::SizeOverflow);
        }
        let ghost old_chunks = self.chunks@;
        proof {
            lemma_crc32_continue_concat(0, joined(old_chunks), chunk@);
            assert(old_chunks.push(chunk@).drop_last() =~= old_chunks);
        }
        self.total_in = self.total_in + bytes_read as u64;
        self.crc = crc32_update(self.crc, chunk);
        self.chunks = Ghost(old_chunks.push(chunk@));
        deflate_get_mut(&mut self.encoder).clear();
        proof {
            lemma_feed_takes_all(COMPRESSION_LEVEL, self.encoder.room(), self.encoder.history(), chunk@);
        }
        let written = match write_all(&mut self.encoder, chunk) {
            Ok(()) => Ok(deflate_get_ref(&self.encoder).clone()),
            Err(e) => Err(e),
        };
        proof {
            if written is Ok {
                let out = written->Ok_0;
                assert(out@ =~= Seq::<u8>::empty() + out@);
            }
        }
        match chunk_output(self.total_out, written) {
            Ok((out, total_out)) => {
                self.total_out = total_out;
                Ok(out)
            },
            Err(e) => Err(e),
        }
    }

    /// Ends the compressed stream. On a usable compressor the encoder's end
    /// of stream is the step `deflate_finish_step` names: its failure is an
    /// `Io` error; otherwise the last compressed bytes are returned with what
    /// the data descriptor records (the CRC-32 of every byte fed, the number
    /// of compressed bytes handed back in all, the number of bytes fed), or
    /// a size overflow when the compressed count passes `u64::MAX`; all as
    /// `finish_summary` gives them.
    pub fn finish(self) -> (r: Result<(Vec<u8>, FileSummary), CompressError>)
        requires
            self.wf(),
        ensures
            self.usable() ==> match deflate_finish_step(COMPRESSION_LEVEL, self.room(), self.history()) {
                None => r matches Err(CompressError::Io(_)),
                Some(pieces) => {
                    &&& (self.total_out() + joined(pieces).len() > u64::MAX <==> r matches Err(
                        CompressError::SizeOverflow,
                    ))
                    &&& (self.total_out() + joined(pieces).len() <= u64::MAX ==> (r matches Ok(
                        (out, summary),
                    ) && out@ == joined(pieces) && summary == (FileSummary {
                        crc32: crc32(joined(self.chunks())),
                        compressed_size: (self.total_out() + joined(pieces).len()) as u64,
                        uncompressed_size: self.total_in(),
                    })))
                },
            },
    {
        let mut encoder = self.encoder;
        deflate_get_mut(&mut encoder).clear();
        proof {
            if encoder.intact() {
                if let Some(pieces) = deflate_finish_step(COMPRESSION_LEVEL, encoder.room(), encoder.history()) {
                    lemma_vec_never_refuses(encoder.inner(), pieces);
                }
            }
        }
        let finished = deflate_finish(encoder);
        proof {
            if encoder.intact() {
                if let Some(pieces) = deflate_finish_step(COMPRESSION_LEVEL, encoder.room(), encoder.history()) {
                    if finished is Ok {
                        let w = finished->Ok_0;
                        lemma_vec_takes_pieces(encoder.inner(), pieces, w);
                        assert(w@ =~= joined(pieces));
                    }
                }
            }
        }
        finish_summary(self.crc, self.total_in, self.total_out, finished)
    }
}

/// What a chunk gives once the encoder has taken it with `written` (the
/// compressed bytes it gave, or its error), after `total_out` compressed
/// bytes handed back before: the error, or the bytes with the new count of
/// compressed bytes, or a size overflow when that count passes `u64::MAX`.
pub fn chunk_output(total_out: u64, written: std::io::Result<Vec<u8>>) -> (r: Result<
    (Vec<u8>, u64),
    CompressError,
>)
    ensures
        written matches Err(e) ==> r == Err::<(Vec<u8>, u64), CompressError>(CompressError::Io(e)),
        written matches Ok(out) ==> (total_out + out@.len() > u64::MAX <==> r == Err::<
            (Vec<u8>, u64),
            CompressError,
        >(CompressError::SizeOverflow)),
        written matches Ok(out) ==> (total_out + out@.len() <= u64::MAX ==> r == Ok::<
            (Vec<u8>, u64),
            CompressError,
        >((out, (total_out + out@.len()) as u64))),
{
    let out = match written {
        Ok(inner) => inner,
        Err(e) => return Err(CompressError::Io(e)),
    };
    let bytes_output = out.len() as u64;
    if total_out > u64::MAX - bytes_output {
        return Err(CompressError::SizeOverflow);
    }
    Ok((out, total_out + bytes_output))
}

/// What the end of a compression gives once the encoder has ended its stream
/// with `finished`: the encoder's error, or its last bytes with the summary
/// (the CRC-32 `crc32`, `uncompressed_size` bytes fed, and the
/// `compressed_before` bytes handed back before plus the last ones), or a
/// size overflow when that count passes `u64::MAX`.
pub fn finish_summary(
    crc32: u32,
    uncompressed_size: u64,
    compressed_before: u64,
    finished: std::io::Result<Vec<u8>>,
) -> (r: Result<(Vec<u8>, FileSummary), CompressError>)
    ensures
        finished matches Err(e) ==> r == Err::<(Vec<u8>, FileSummary), CompressError>(CompressError::Io(e)),
        finished matches Ok(out) ==> (compressed_before + out@.len() > u64::MAX <==> r == Err::<
            (Vec<u8>, FileSummary),
            CompressError,
        >(CompressError::SizeOverflow)),
        finished matches Ok(out) ==> (compressed_before + out@.len() <= u64::MAX ==> r == Ok::<
            (Vec<u8>, FileSummary),
            CompressError,
        >((
            out,
            FileSummary {
                crc32,
                compressed_size: (compressed_before + out@.len()) as u64,
                uncompressed_size,
            },
        ))),
{
    let out = match finished {
        Ok(inner) => inner,
        Err(e) => return Err(CompressError::Io(e)),
    };
    let bytes_output = out.len() as u64;
    if compressed_before > u64::MAX - bytes_output {
        return Err(CompressError::SizeOverflow);
    }
    let summary = FileSummary {
        crc32,
        compressed_size: compressed_before + bytes_output,
        uncompressed_size,
    };
    Ok((out, summary))
}

} // verus!
