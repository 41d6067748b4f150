//! The writer chain `CrcWriter -> CompressWriter -> TransformWriter`: the
//! first keeps a CRC-32 of what passes, the second deflates it, the last
//! keeps the result, each byte XOR-ed with `0xFF`, in a growing buffer.

use vstd::prelude::*;
use vstd::slice::slice_subrange;
use crate::codec::{
    crc32_update, deflate_flush, deflate_flush_step, deflate_get_mut, deflate_get_ref,
    deflate_new, deflate_write, deflate_write_step, out_of_memory_error, DeflateCall,
    DeflateStream,
};
use crate::compress_file::joined;
use crate::crc32::{crc32, crc32_continue, lemma_crc32_continue_concat};

verus! {

/// Access to the bytes that the end of a writer chain holds.
pub trait GetLastBuffer: Sized {
    /// The bytes the end of the chain holds.
    spec fn last_buffer_spec(&self) -> Seq<u8>;

    /// What a clear may do: turn `old` into `new`.
    spec fn cleared(old: Self, new: Self) -> bool;

    fn last_buffer(&self) -> (r: &[u8])
        ensures
            r@ == self.last_buffer_spec(),
    ;

    fn clear_buffer(&mut self)
        ensures
            Self::cleared(*old(self), *final(self)),
            final(self).last_buffer_spec() == Seq::<u8>::empty(),
    ;
}

/// The part of `std::io::Write` that the writers of the chain call on the
/// next writer.
pub trait ChainWrite: Sized {
    /// What a write of `buf` may do: turn `old` into `new` and give `r`.
    spec fn wrote(old: Self, buf: Seq<u8>, new: Self, r: std::io::Result<usize>) -> bool;

    /// What a flush may do: turn `old` into `new` and give `r`.
    spec fn flushed(old: Self, new: Self, r: std::io::Result<()>) -> bool;

    /// Writes a prefix of `buf`, returning its length.
    fn write(&mut self, buf: &[u8]) -> (r: std::io::Result<usize>)
        ensures
            r matches Ok(n) ==> n <= buf@.len(),
            Self::wrote(*old(self), buf@, *final(self), r),
    ;

    fn flush(&mut self) -> (r: std::io::Result<()>)
        ensures
            Self::flushed(*old(self), *final(self), r),
    ;
}

/// `old` becomes `new` by successive successful writes that take the first
/// `count` bytes of `bytes`: each write is offered what is left of `bytes`
/// from where the one before stopped, and takes a non-empty part of it.
pub open spec fn takes_first<W: ChainWrite>(old: W, bytes: Seq<u8>, count: nat, new: W) -> bool
    decreases count,
{
    if count == 0 {
        new == old
    } else {
        exists|mid: W, n: usize|
            0 < n <= count && n <= bytes.len() && #[trigger] W::wrote(
                old,
                bytes,
                mid,
                Ok::<usize, std::io::Error>(n),
            ) && takes_first(
                mid,
                bytes.subrange(n as int, bytes.len() as int),
                (count - n) as nat,
                new,
            )
    }
}

/// `old` becomes `new` by taking all of `bytes` as `takes_first` says.
pub open spec fn takes_in_writes<W: ChainWrite>(old: W, bytes: Seq<u8>, new: W) -> bool {
    takes_first(old, bytes, bytes.len(), new)
}

/// `old` becomes `new` by taking the pieces in turn, each as
/// `takes_in_writes` says: a write is offered only what is left of the piece
/// at hand.
pub open spec fn takes_pieces<W: ChainWrite>(old: W, pieces: Seq<Seq<u8>>, new: W) -> bool
    decreases pieces.len(),
{
    if pieces.len() == 0 {
        new == old
    } else {
        exists|mid: W|
            takes_pieces(old, pieces.drop_last(), mid) && #[trigger] takes_in_writes(
                mid,
                pieces.last(),
                new,
            )
    }
}

/// Offered `piece`, `old` takes a first part of it as `takes_first` says,
/// and then, offered what is left, fails or takes nothing.
pub open spec fn refuses_piece<W: ChainWrite>(old: W, piece: Seq<u8>) -> bool {
    exists|i: nat, mid: W, after: W, r: std::io::Result<usize>|
        i < piece.len() && takes_first(old, piece, i, mid) && #[trigger] W::wrote(
            mid,
            piece.subrange(i as int, piece.len() as int),
            after,
            r,
        ) && !(r matches Ok(n) && n > 0)
}

/// Handed `pieces` in turn, `old` takes the first few whole, as
/// `takes_pieces` says, and then refuses the next.
pub open spec fn refuses_in_pieces<W: ChainWrite>(old: W, pieces: Seq<Seq<u8>>) -> bool {
    exists|p: int, mid: W|
        0 <= p < pieces.len() && takes_pieces(old, pieces.take(p), mid) && #[trigger] refuses_piece(
            mid,
            pieces[p],
        )
}

/// Hands a chain writer to code that expects a `std::io::Write`.
pub struct ChainSink<W: ChainWrite>(pub W);

impl<W: ChainWrite> std::io::Write for ChainSink<W> {
    fn write(&mut self, buf: &[u8]) -> (r: std::io::Result<usize>)
        ensures
            r matches Ok(n) ==> n <= buf@.len(),
            W::wrote(old(self).0, buf@, final(self).0, r),
    {
        ChainWrite::write(&mut self.0, buf)
    }

    fn flush(&mut self) -> (r: std::io::Result<()>)
        ensures
            W::flushed(old(self).0, final(self).0, r),
    {
        ChainWrite::flush(&mut self.0)
    }
}

/// A plain byte vector takes every byte it is given.
impl ChainWrite for Vec<u8> {
    open spec fn wrote(old: Self, buf: Seq<u8>, new: Self, r: std::io::Result<usize>) -> bool {
        &&& r == Ok::<usize, std::io::Error>(buf.len() as usize)
        &&& new@ == old@ + buf
    }

    open spec fn flushed(old: Self, new: Self, r: std::io::Result<()>) -> bool {
        &&& r is Ok
        &&& new@ == old@
    }

    fn write(&mut self, buf: &[u8]) -> (r: std::io::Result<usize>) {
        crate::appnote63::push_bytes(self, buf);
        Ok(buf.len())
    }

    fn flush(&mut self) -> (r: std::io::Result<()>) {
        Ok(())
    }
}

/// Each byte XOR-ed with `0xFF`.
pub open spec fn xor_ff(bytes: Seq<u8>) -> Seq<u8> {
    bytes.map_values(|b: u8| b ^ 0xFF)
}

/// Initial size of the transform buffer: 1 GiB.
pub const TRANSFORM_BUFFER_INITIAL_SIZE: usize = 1024 * 1024 * 1024;

/// # TransformWriter
///
/// This is the #3 writer.
///
/// ```txt
///                                You are here
///                                |
/// CrcWriter -> CompressWriter -> TransformWriter
/// ```
pub struct TransformWriter {
    buffer: Vec<u8>,
    buffer_size: usize,
}

impl TransformWriter {
    #[verifier::type_invariant]
    spec fn size_within_buffer(self) -> bool {
        self.buffer_size <= self.buffer@.len()
    }

    /// The room the buffer has before it must grow.
    pub closed spec fn capacity(&self) -> nat {
        self.buffer@.len()
    }

    /// Whether a write of `len` more bytes overflows `usize`, either in the
    /// new size or in the size the buffer grows to.
    pub open spec fn write_overflows(&self, len: nat) -> bool {
        let required = self@.len() + len;
        required > usize::MAX || (required > self.capacity() && 2 * required > usize::MAX)
    }

    /// An empty writer with a 1 GiB buffer.
    pub fn new() -> (r: TransformWriter)
        ensures
            r@ == Seq::<u8>::empty(),
            r.capacity() == TRANSFORM_BUFFER_INITIAL_SIZE,
    {
        TransformWriter { buffer: vec![0; TRANSFORM_BUFFER_INITIAL_SIZE], buffer_size: 0 }
    }
}

impl View for TransformWriter {
    type V = Seq<u8>;

    /// The transformed bytes held since the last clear.
    closed spec fn view(&self) -> Seq<u8> {
        self.buffer@.subrange(0, self.buffer_size as int)
    }
}

impl ChainWrite for TransformWriter {
    /// A write appends `buf`, each byte XOR-ed with `0xFF`, and fails, changing
    /// nothing, only when a size would overflow `usize`.
    open spec fn wrote(old: Self, buf: Seq<u8>, new: Self, r: std::io::Result<usize>) -> bool {
        &&& (r is Ok <==> !old.write_overflows(buf.len()))
        &&& (r matches Ok(n) ==> n == buf.len() && new@ == old@ + xor_ff(buf))
        &&& (r is Err ==> new@ == old@)
    }

    /// A flush succeeds and changes nothing.
    open spec fn flushed(old: Self, new: Self, r: std::io::Result<()>) -> bool {
        &&& r is Ok
        &&& new@ == old@
    }

    /// Appends `buf`, each byte XOR-ed with `0xFF`, doubling the needed size
    /// when the buffer is too small. Fails with an out-of-memory error, and
    /// changes nothing, only when a size would overflow `usize`.
    fn write(&mut self, buf: &[u8]) -> (r: std::io::Result<usize>) {
        proof {
            use_type_invariant(&*self);
        }
        let len = buf.len();
        if self.buffer_size > usize::MAX - len {
            return Err(out_of_memory_error());
        }
        // work on the buffer outside of `self` while the size is in flux
        let start = self.buffer_size;
        let ghost before = self@;
        self.buffer_size = 0;
        let mut buffer: Vec<u8> = Vec::new();
        std::mem::swap(&mut buffer, &mut self.buffer);
        // expand if necessary
        let required_buffer_size = start + len;
        if required_buffer_size > buffer.len() {
            if required_buffer_size > usize::MAX / 2 {
                self.buffer = buffer;
                self.buffer_size = start;
                return Err(out_of_memory_error());
            }
            let new_size = required_buffer_size * 2;
            let mut new_buffer: Vec<u8> = vec![0; new_size];
            let mut i: usize = 0;
            while i < start
                invariant
                    start <= buffer@.len(),
                    start < new_size,
                    new_buffer@.len() == new_size,
                    i <= start,
                    forall|j: int| 0 <= j < i ==> new_buffer@[j] == buffer@[j],
                decreases start - i,
            {
                new_buffer.set(i, buffer[i]);
                i = i + 1;
            }
            assert(new_buffer@.subrange(0, start as int) =~= buffer@.subrange(0, start as int));
            buffer = new_buffer;
        }
        // copy and transform
        let mut i: usize = 0;
        while i < len
            invariant
                len == buf@.len(),
                start + len <= buffer@.len(),
                start + len <= usize::MAX,
                before == buffer@.subrange(0, start as int),
                i <= len,
                forall|j: int| 0 <= j < i ==> buffer@[start + j] == buf@[j] ^ 0xFF,
            decreases len - i,
        {
            buffer.set(start + i, buf[i] ^ 0xFF);
            i = i + 1;
        }
        self.buffer = buffer;
        // increase buffer size
        self.buffer_size = start + len;
        assert(self@ =~= before + xor_ff(buf@));
        Ok(len)
    }

    fn flush(&mut self) -> (r: std::io::Result<()>) {
        Ok(())
    }
}

impl GetLastBuffer for TransformWriter {
    /// The transformed bytes held since the last clear.
    open spec fn last_buffer_spec(&self) -> Seq<u8> {
        self@
    }

    /// A clear empties the held bytes and keeps the buffer's room.
    open spec fn cleared(old: Self, new: Self) -> bool {
        &&& new@ == Seq::<u8>::empty()
        &&& new.capacity() == old.capacity()
    }

    fn last_buffer(&self) -> (r: &[u8]) {
        proof {
            use_type_invariant(self);
        }
        slice_subrange(self.buffer.as_slice(), 0, self.buffer_size)
    }

    fn clear_buffer(&mut self) {
        self.buffer_size = 0;
        assert(self@ =~= Seq::<u8>::empty());
    }
}

/// # CrcWriter
///
/// This is the #1 writer.
///
/// ```txt
/// You are here
/// |
/// CrcWriter -> CompressWriter -> TransformWriter
/// ```
pub struct CrcWriter<W: ChainWrite + GetLastBuffer> {
    crc: u32,
    inner: W,
}

impl<W: ChainWrite + GetLastBuffer> CrcWriter<W> {
    /// The CRC-32 of the bytes that the next writer has taken so far.
    pub closed spec fn crc(&self) -> u32 {
        self.crc
    }

    /// The next writer.
    pub closed spec fn inner(&self) -> W {
        self.inner
    }

    /// A writer whose CRC covers nothing yet, in front of `inner`.
    pub fn new(inner: W) -> (r: CrcWriter<W>)
        ensures
            r.crc() == crc32(Seq::<u8>::empty()),
            r.crc() == 0,
            r.inner() == inner,
    {
        proof {
            crate::crc32::lemma_crc32_continue_empty(0);
        }
        CrcWriter { crc: 0, inner }
    }
}

impl<W: ChainWrite + GetLastBuffer> ChainWrite for CrcWriter<W> {
    /// A write is the next writer's write of `buf`, with its result, and the
    /// bytes the next writer took are folded into the CRC.
    open spec fn wrote(old: Self, buf: Seq<u8>, new: Self, r: std::io::Result<usize>) -> bool {
        &&& W::wrote(old.inner(), buf, new.inner(), r)
        &&& (r matches Ok(n) ==> new.crc() == crc32_continue(old.crc(), buf.subrange(0, n as int)))
        &&& (r is Err ==> new.crc() == old.crc())
    }

    /// A flush is the next writer's flush, with its result; the CRC stays.
    open spec fn flushed(old: Self, new: Self, r: std::io::Result<()>) -> bool {
        &&& W::flushed(old.inner(), new.inner(), r)
        &&& new.crc() == old.crc()
    }

    /// Passes `buf` on, and folds the bytes the next writer took into the CRC.
    fn write(&mut self, buf: &[u8]) -> (r: std::io::Result<usize>) {
        let write_result = self.inner.write(buf);
        if let Ok(bytes_written) = write_result {
            self.crc = crc32_update(self.crc, slice_subrange(buf, 0, bytes_written));
        }
        write_result
    }

    fn flush(&mut self) -> (r: std::io::Result<()>) {
        self.inner.flush()
    }
}

impl<W: ChainWrite + GetLastBuffer> GetLastBuffer for CrcWriter<W> {
    /// The bytes are those the next writer holds.
    open spec fn last_buffer_spec(&self) -> Seq<u8> {
        self.inner().last_buffer_spec()
    }

    /// A clear is the next writer's clear; the CRC stays.
    open spec fn cleared(old: Self, new: Self) -> bool {
        &&& W::cleared(old.inner(), new.inner())
        &&& new.crc() == old.crc()
    }

    fn last_buffer(&self) -> (r: &[u8]) {
        self.inner.last_buffer()
    }

    fn clear_buffer(&mut self) {
        self.inner.clear_buffer();
    }
}

/// The CRC of a `CrcWriter` keeps covering exactly the bytes its next writer
/// has taken: if it is the CRC-32 of `taken` before a write of `buf`, it is
/// afterwards the CRC-32 of `taken` followed by the part of `buf` the write
/// took, or still that of `taken` when the write failed.
pub proof fn lemma_crc_writer_covers<W: ChainWrite + GetLastBuffer>(
    old: CrcWriter<W>,
    buf: Seq<u8>,
    new: CrcWriter<W>,
    r: std::io::Result<usize>,
    taken: Seq<u8>,
)
    requires
        old.crc() == crc32(taken),
        CrcWriter::<W>::wrote(old, buf, new, r),
    ensures
        r matches Ok(n) ==> new.crc() == crc32(taken + buf.subrange(0, n as int)),
        r is Err ==> new.crc() == crc32(taken),
{
    if let Ok(n) = r {
        lemma_crc32_continue_concat(0, taken, buf.subrange(0, n as int));
    }
}

/// # CompressWriter
///
/// This is the #2 writer.
///
/// ```txt
///              You are here
///              |
/// CrcWriter -> CompressWriter -> TransformWriter
/// ```
#[verifier::reject_recursive_types(W)]
pub struct CompressWriter<W: ChainWrite + GetLastBuffer> {
    encoder: DeflateStream<W>,
}

impl<W: ChainWrite + GetLastBuffer> CompressWriter<W> {
    /// The next writer, as it stands inside the deflate encoder.
    pub closed spec fn inner(&self) -> W {
        self.encoder.inner()
    }

    /// The deflate level the encoder was made with.
    pub closed spec fn level(&self) -> u32 {
        self.encoder.level()
    }

    /// The size of the encoder's output buffer.
    pub closed spec fn room(&self) -> nat {
        self.encoder.room()
    }

    /// The calls the encoder has served.
    pub closed spec fn history(&self) -> Seq<DeflateCall> {
        self.encoder.history()
    }

    /// Whether every call so far succeeded.
    pub closed spec fn intact(&self) -> bool {
        self.encoder.intact()
    }

    /// A writer that deflates what it is given, without compression
    /// (`Compression::none()`, level 0), into `inner`, which it leaves as it
    /// is until the first write.
    pub fn new(inner: W) -> (r: CompressWriter<W>)
        ensures
            r.inner() == inner,
            r.level() == 0,
            r.history() == Seq::<DeflateCall>::empty(),
            r.intact(),
    {
        CompressWriter { encoder: deflate_new(inner, 0) }
    }
}

impl<W: ChainWrite + GetLastBuffer> ChainWrite for CompressWriter<W> {
    /// On an intact writer, a write is the deflate step that
    /// `deflate_write_step` names: it takes that many bytes of `buf`, and the
    /// next writer takes, piece by piece, the compressed bytes handed to it;
    /// the step's own failure fails the write, and a failure otherwise comes
    /// from the next writer refusing a piece. After a failure the writer is
    /// no longer intact.
    open spec fn wrote(old: Self, buf: Seq<u8>, new: Self, r: std::io::Result<usize>) -> bool {
        &&& new.level() == old.level()
        &&& new.room() == old.room()
        &&& (r is Err || !old.intact() ==> !new.intact())
        &&& old.intact() ==> match deflate_write_step(old.level(), old.room(), old.history(), buf) {
            None => r is Err,
            Some((taken, handed)) => (r matches Ok(n) ==> {
                &&& n == taken
                &&& new.intact()
                &&& new.history() == old.history().push(Some(buf.subrange(0, n as int)))
                &&& takes_pieces(old.inner(), handed, new.inner())
            }) && (r is Err ==> refuses_in_pieces(old.inner(), handed)),
        }
    }

    /// On an intact writer, a flush hands the next writer the pieces
    /// `deflate_flush_step` names, which it takes in turn, and flushes it.
    open spec fn flushed(old: Self, new: Self, r: std::io::Result<()>) -> bool {
        &&& new.level() == old.level()
        &&& new.room() == old.room()
        &&& (r is Err || !old.intact() ==> !new.intact())
        &&& old.intact() ==> match deflate_flush_step(old.level(), old.room(), old.history()) {
            None => r is Err,
            Some(handed) => r is Ok ==> {
                &&& new.intact()
                &&& new.history() == old.history().push(None)
                &&& exists|mid: W|
                    takes_pieces(old.inner(), handed, mid) && #[trigger] W::flushed(
                        mid,
                        new.inner(),
                        Ok(()),
                    )
            },
        }
    }

    fn write(&mut self, buf: &[u8]) -> (r: std::io::Result<usize>) {
        deflate_write(&mut self.encoder, buf)
    }

    fn flush(&mut self) -> (r: std::io::Result<()>) {
        let r = deflate_flush(&mut self.encoder);
        proof {
            if old(self).intact() && r is Ok {
                if let Some(handed) = deflate_flush_step(
                    old(self).level(),
                    old(self).room(),
                    old(self).history(),
                ) {
                    let mid = choose|mid: W|
                        takes_pieces(old(self).inner(), handed, mid) && #[trigger] W::flushed(
                            mid,
                            self.inner(),
                            Ok(()),
                        );
                    assert(takes_pieces(old(self).inner(), handed, mid) && W::flushed(
                        mid,
                        self.inner(),
                        Ok(()),
                    ));
                }
            }
        }
        r
    }
}

impl<W: ChainWrite + GetLastBuffer> GetLastBuffer for CompressWriter<W> {
    /// The bytes are those the next writer holds.
    open spec fn last_buffer_spec(&self) -> Seq<u8> {
        self.inner().last_buffer_spec()
    }

    /// A clear is the next writer's clear; the encoder is left as it was.
    open spec fn cleared(old: Self, new: Self) -> bool {
        &&& W::cleared(old.inner(), new.inner())
        &&& new.level() == old.level()
        &&& new.room() == old.room()
        &&& new.history() == old.history()
        &&& new.intact() == old.intact()
    }

    fn last_buffer(&self) -> (r: &[u8]) {
        deflate_get_ref(&self.encoder).last_buffer()
    }

    fn clear_buffer(&mut self) {
        deflate_get_mut(&mut self.encoder).clear_buffer();
    }
}

/// Undoing the transform: XOR-ing with `0xFF` twice gives the bytes back.
pub proof fn lemma_xor_ff_involution(bytes: Seq<u8>)
    ensures
        xor_ff(xor_ff(bytes)) == bytes,
{
    assert forall|i: int| 0 <= i < bytes.len() implies #[trigger] xor_ff(xor_ff(bytes))[i]
        == bytes[i] by {
        let b = bytes[i];
        assert((b ^ 0xFF) ^ 0xFF == b) by (bit_vector);
    }
    assert(xor_ff(xor_ff(bytes)) =~= bytes);
}

/// The transform is byte by byte: XOR-ing two pieces joined is joining the
/// two XOR-ed.
pub proof fn lemma_xor_ff_concat(a: Seq<u8>, b: Seq<u8>)
    ensures
        xor_ff(a + b) == xor_ff(a) + xor_ff(b),
{
    assert(xor_ff(a + b) =~= xor_ff(a) + xor_ff(b));
}

/// How the bytes are split into writes does not change what a
/// `TransformWriter` holds: writing `a` and then `b` gives what writing
/// `a + b` gives to a writer holding the same bytes, when the writes succeed.
pub proof fn lemma_transform_split_invariant(
    w: TransformWriter,
    a: Seq<u8>,
    b: Seq<u8>,
    mid: TransformWriter,
    after_two: TransformWriter,
    r_a: std::io::Result<usize>,
    r_b: std::io::Result<usize>,
    v: TransformWriter,
    after_one: TransformWriter,
    r_ab: std::io::Result<usize>,
)
    requires
        v@ == w@,
        TransformWriter::wrote(w, a, mid, r_a),
        TransformWriter::wrote(mid, b, after_two, r_b),
        TransformWriter::wrote(v, a + b, after_one, r_ab),
        r_a is Ok,
        r_b is Ok,
        r_ab is Ok,
    ensures
        after_two@ == after_one@,
{
    lemma_xor_ff_concat(a, b);
    assert(after_two@ =~= after_one@);
}

/// The bytes the writes among `calls` wrote, joined in order (a call is a
/// write of the bytes it holds, or a flush).
pub open spec fn written_bytes(calls: Seq<Option<Seq<u8>>>) -> Seq<u8>
    decreases calls.len(),
{
    if calls.len() == 0 {
        Seq::empty()
    } else {
        written_bytes(calls.drop_last()) + match calls.last() {
            Some(b) => b,
            None => Seq::empty(),
        }
    }
}

/// After a series of calls on a `TransformWriter` that held nothing (new, or
/// just cleared), each a successful write or a flush, it holds all the bytes
/// written, joined in order, each XOR-ed with `0xFF`. (Reading the buffer in
/// between takes `&self` and changes nothing.)
pub proof fn lemma_transform_writes_series(
    states: Seq<TransformWriter>,
    calls: Seq<Option<Seq<u8>>>,
    results: Seq<std::io::Result<usize>>,
)
    requires
        states.len() == calls.len() + 1,
        results.len() == calls.len(),
        states[0]@ == Seq::<u8>::empty(),
        forall|i: int|
            0 <= i < calls.len() ==> match #[trigger] calls[i] {
                Some(b) => TransformWriter::wrote(states[i], b, states[i + 1], results[i])
                    && results[i] is Ok,
                None => TransformWriter::flushed(states[i], states[i + 1], Ok(())),
            },
    ensures
        states.last()@ == xor_ff(written_bytes(calls)),
    decreases calls.len(),
{
    if calls.len() == 0 {
        assert(xor_ff(Seq::<u8>::empty()) =~= Seq::<u8>::empty());
    } else {
        let k = calls.len() - 1;
        let last = calls[k];
        lemma_transform_writes_series(states.drop_last(), calls.drop_last(), results.drop_last());
        match last {
            Some(b) => {
                lemma_xor_ff_concat(written_bytes(calls.drop_last()), b);
            },
            None => {
                assert(written_bytes(calls) =~= written_bytes(calls.drop_last()));
            },
        }
    }
}

/// No stale bytes survive a clear: a cleared `TransformWriter` holds nothing,
/// and a successful write of `b` right after leaves it holding `b` XOR-ed.
pub proof fn lemma_transform_clear_then_write(
    w: TransformWriter,
    cleared: TransformWriter,
    b: Seq<u8>,
    after: TransformWriter,
    r: std::io::Result<usize>,
)
    requires
        TransformWriter::cleared(w, cleared),
        TransformWriter::wrote(cleared, b, after, r),
        r is Ok,
    ensures
        cleared@ == Seq::<u8>::empty(),
        after@ == xor_ff(b),
{
    assert(after@ =~= xor_ff(b));
}

/// A `TransformWriter` offered `bytes` takes all of them in its first write,
/// so it takes a first part of them only when that part is all or nothing.
proof fn lemma_transform_takes_first(old: TransformWriter, bytes: Seq<u8>, count: nat, new: TransformWriter)
    requires
        takes_first(old, bytes, count, new),
        count <= bytes.len(),
    ensures
        count == 0 ==> new == old,
        count > 0 ==> count == bytes.len() && new@ == old@ + xor_ff(bytes),
{
    if count > 0 {
        let (mid, n) = choose|mid: TransformWriter, n: usize|
            0 < n <= count && n <= bytes.len() && #[trigger] TransformWriter::wrote(
                old,
                bytes,
                mid,
                Ok::<usize, std::io::Error>(n),
            ) && takes_first(
                mid,
                bytes.subrange(n as int, bytes.len() as int),
                (count - n) as nat,
                new,
            );
    }
}

/// A `TransformWriter` handed pieces in turn through successful writes, as
/// a deflate encoder hands it its output, holds them joined and XOR-ed after
/// what it held before.
pub proof fn lemma_transform_takes_pieces(old: TransformWriter, pieces: Seq<Seq<u8>>, new: TransformWriter)
    requires
        takes_pieces(old, pieces, new),
    ensures
        new@ == old@ + xor_ff(joined(pieces)),
    decreases pieces.len(),
{
    if pieces.len() == 0 {
        assert(old@ + xor_ff(Seq::<u8>::empty()) =~= old@);
    } else {
        let mid = choose|mid: TransformWriter|
            takes_pieces(old, pieces.drop_last(), mid) && #[trigger] takes_in_writes(
                mid,
                pieces.last(),
                new,
            );
        lemma_transform_takes_pieces(old, pieces.drop_last(), mid);
        lemma_transform_takes_first(mid, pieces.last(), pieces.last().len(), new);
        lemma_xor_ff_concat(joined(pieces.drop_last()), pieces.last());
        if pieces.last().len() == 0 {
            assert(xor_ff(pieces.last()) =~= Seq::<u8>::empty());
        }
        assert(new@ =~= old@ + xor_ff(joined(pieces)));
    }
}

/// Through a `CompressWriter` into a `TransformWriter`, a successful write on
/// an intact writer leaves the end of the chain holding, after what it held,
/// the compressed pieces of the deflate step, joined and XOR-ed with `0xFF`.
pub proof fn lemma_compress_into_transform(
    old: CompressWriter<TransformWriter>,
    buf: Seq<u8>,
    new: CompressWriter<TransformWriter>,
    r: std::io::Result<usize>,
)
    requires
        old.intact(),
        CompressWriter::<TransformWriter>::wrote(old, buf, new, r),
        r is Ok,
    ensures
        match deflate_write_step(old.level(), old.room(), old.history(), buf) {
            Some((_, handed)) => new.last_buffer_spec() == old.last_buffer_spec() + xor_ff(
                joined(handed),
            ),
            None => false,
        },
{
    let (_, handed) = deflate_write_step(old.level(), old.room(), old.history(), buf).unwrap();
    lemma_transform_takes_pieces(old.inner(), handed, new.inner());
}

} // verus!
