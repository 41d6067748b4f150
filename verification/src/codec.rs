//! The calls into `crc32fast` and `flate2` that the writers make, and the
//! outside types they pass around. Everything here is trusted: each item's
//! doc comment says what its contract claims of the outside code.
//!
//! A deflate encoder is held in a `DeflateStream`, whose ghost fields model
//! it: the level it was made with, the room of its output buffer, its inner
//! writer, and the calls it has served (`history`) while `intact`, that is
//! while each of them succeeded. Only the wrappers below change those fields.
//!
//! The encoder keeps its compressed output in a buffer of its own and hands
//! it to the inner writer a buffer-full at a time: it offers the inner writer
//! what the buffer holds, and again what is left of it, until the buffer is
//! empty, then compresses more. What one call hands over is therefore a
//! sequence of pieces, each offered on its own (`takes_pieces`).

use vstd::prelude::*;
use crate::crc32::crc32_continue;
use crate::writer_chain::{refuses_in_pieces, takes_pieces, ChainSink, ChainWrite};

verus! {

/// `std::io::Error`, carried through unchanged from the writers.
#[verifier::external_type_specification]
#[verifier::external_body]
pub struct ExIoError(std::io::Error);

/// Calls `crc32fast::Hasher::new_with_initial(crc)`, `update(data)` and
/// `finalize()`: the CRC-32 (IEEE, as ZIP uses it) of `data`, continued from
/// the CRC-32 `crc` of what came before. The crate's hasher keeps the running
/// CRC as its state and inverts it around the table-driven register, which
/// is `crc32_continue`.
#[verifier::external_body]
pub(crate) fn crc32_update(crc: u32, data: &[u8]) -> (r: u32)
    ensures
        r == crc32_continue(crc, data@),
{
    let mut hasher = crc32fast::Hasher::new_with_initial(crc);
    hasher.update(data);
    hasher.finalize()
}

/// One call that a deflate encoder served: a write that took the given
/// bytes, or a flush.
pub type DeflateCall = Option<Seq<u8>>;

/// What `<flate2::write::DeflateEncoder as Write>::write` of `buf` does on an
/// encoder made at `level`, with an output buffer of `room` bytes, that has
/// served the calls `history`, when its inner writer takes all it is
/// offered: `None` when the compressor reports an error, else the number of
/// bytes of `buf` it takes and the pieces it hands to the inner writer during
/// the call, each what the output buffer held when it was emptied. The
/// compressor does not see the inner writer, so this is a function of these
/// values alone.
pub uninterp spec fn deflate_write_step(level: u32, room: nat, history: Seq<Option<Seq<u8>>>, buf: Seq<u8>) -> Option<(nat, Seq<Seq<u8>>)>;

/// What `<flate2::write::DeflateEncoder as Write>::flush` does on an encoder
/// as above: `None` when the compressor reports an error, else the pieces it
/// hands to the inner writer before it flushes that writer.
pub uninterp spec fn deflate_flush_step(level: u32, room: nat, history: Seq<Option<Seq<u8>>>) -> Option<Seq<Seq<u8>>>;

/// What `flate2::write::DeflateEncoder::finish` does on an encoder as above:
/// `None` when the compressor reports an error, else the pieces it hands to
/// the inner writer to end the stream.
pub uninterp spec fn deflate_finish_step(level: u32, room: nat, history: Seq<Option<Seq<u8>>>) -> Option<Seq<Seq<u8>>>;

/// A `flate2::write::DeflateEncoder` writing into the chain writer `W`.
///
/// Verus does not take `DeflateEncoder<W>` as a declared type (its
/// `W: std::io::Write` bound is not supported there), so the encoder is held
/// in this opaque struct.
#[verifier::external_body]
#[verifier::reject_recursive_types(W)]
pub struct RawEncoder<W: ChainWrite> {
    encoder: flate2::write::DeflateEncoder<ChainSink<W>>,
}

/// A deflate encoder and its model.
#[verifier::reject_recursive_types(W)]
pub struct DeflateStream<W: ChainWrite> {
    raw: RawEncoder<W>,
    level: Ghost<u32>,
    room: Ghost<nat>,
    inner: Ghost<W>,
    history: Ghost<Seq<DeflateCall>>,
    intact: Ghost<bool>,
}

impl<W: ChainWrite> DeflateStream<W> {
    /// The compression level the encoder was made with.
    pub closed spec fn level(&self) -> u32 {
        self.level@
    }

    /// The size of the encoder's output buffer.
    pub closed spec fn room(&self) -> nat {
        self.room@
    }

    /// The inner writer, as it stands inside the encoder.
    pub closed spec fn inner(&self) -> W {
        self.inner@
    }

    /// The calls the encoder has served.
    pub closed spec fn history(&self) -> Seq<DeflateCall> {
        self.history@
    }

    /// Whether every call so far succeeded, so that `history` is all that
    /// decides what the encoder does next.
    pub closed spec fn intact(&self) -> bool {
        self.intact@
    }
}

/// Calls `DeflateEncoder::new(inner, Compression::new(level))`. The new
/// encoder has served nothing and holds `inner` untouched; `level` is one of
/// the levels 0 to 9 that `Compression` documents. Its output buffer is made
/// by `Vec::with_capacity(32 * 1024)`, which std documents as room for at
/// least that many bytes; the encoder only ever writes into the spare room
/// and drains it, and a `Vec` never shrinks by itself, so the room stays.
#[verifier::external_body]
pub(crate) fn deflate_new<W: ChainWrite>(inner: W, level: u32) -> (r: DeflateStream<W>)
    requires
        level <= 9,
    ensures
        r.level() == level,
        r.room() >= 32 * 1024,
        r.inner() == inner,
        r.history() == Seq::<DeflateCall>::empty(),
        r.intact(),
{
    let ghost model = inner;
    let encoder = flate2::write::DeflateEncoder::new(ChainSink(inner), flate2::Compression::new(level));
    DeflateStream {
        raw: RawEncoder { encoder },
        level: Ghost(level),
        room: Ghost(vstd::pervasive::arbitrary()),
        inner: Ghost(model),
        history: Ghost(Seq::empty()),
        intact: Ghost(true),
    }
}

/// Calls `<DeflateEncoder as Write>::write`. As every `write`, an `Ok(n)` has
/// `n <= buf.len()`. On an intact encoder the flate2 source shows this: the
/// call empties its output buffer into the inner writer, offering it what is
/// left until nothing is (a write that takes nothing fails the call), and
/// compresses from `buf`, possibly more than once; so a success is the step
/// `deflate_write_step` names, with each piece taken by the inner writer in
/// turn; a compressor error fails the call; and a failure when the compressor
/// had none means the inner writer refused one of the pieces. After a
/// failure the model no longer follows the encoder.
#[verifier::external_body]
pub(crate) fn deflate_write<W: ChainWrite>(stream: &mut DeflateStream<W>, buf: &[u8]) -> (r:
    std::io::Result<usize>)
    ensures
        final(stream).level() == old(stream).level(),
        final(stream).room() == old(stream).room(),
        r matches Ok(n) ==> n <= buf@.len(),
        r is Err || !old(stream).intact() ==> !final(stream).intact(),
        old(stream).intact() ==> match deflate_write_step(
            old(stream).level(),
            old(stream).room(),
            old(stream).history(),
            buf@,
        ) {
            None => r is Err,
            Some((taken, handed)) => (r matches Ok(n) ==> {
                &&& n == taken
                &&& final(stream).intact()
                &&& final(stream).history() == old(stream).history().push(
                    Some(buf@.subrange(0, n as int)),
                )
                &&& takes_pieces(old(stream).inner(), handed, final(stream).inner())
            }) && (r is Err ==> refuses_in_pieces(old(stream).inner(), handed)),
        },
{
    std::io::Write::write(&mut stream.raw.encoder, buf)
}

/// Calls `<DeflateEncoder as Write>::flush`. On an intact encoder the flate2
/// source shows this: a compressor error fails the call; otherwise a success
/// hands the inner writer the pieces `deflate_flush_step` names, which it
/// takes in turn, and then flushes it. After a failure the model no longer
/// follows the encoder.
#[verifier::external_body]
pub(crate) fn deflate_flush<W: ChainWrite>(stream: &mut DeflateStream<W>) -> (r: std::io::Result<()>)
    ensures
        final(stream).level() == old(stream).level(),
        final(stream).room() == old(stream).room(),
        r is Err || !old(stream).intact() ==> !final(stream).intact(),
        old(stream).intact() ==> match deflate_flush_step(
            old(stream).level(),
            old(stream).room(),
            old(stream).history(),
        ) {
            None => r is Err,
            Some(handed) => r is Ok ==> {
                &&& final(stream).intact()
                &&& final(stream).history() == old(stream).history().push(None)
                &&& exists|mid: W|
                    takes_pieces(old(stream).inner(), handed, mid) && #[trigger] W::flushed(
                        mid,
                        final(stream).inner(),
                        Ok(()),
                    )
            },
        },
{
    std::io::Write::flush(&mut stream.raw.encoder)
}

/// Calls `DeflateEncoder::get_ref`: the inner writer, as the model has it.
#[verifier::external_body]
pub(crate) fn deflate_get_ref<W: ChainWrite>(stream: &DeflateStream<W>) -> (r: &W)
    ensures
        *r == stream.inner(),
{
    &stream.raw.encoder.get_ref().0
}

/// Calls `DeflateEncoder::get_mut`: the inner writer, mutably. What the
/// caller leaves in it is the encoder's inner writer afterwards; nothing else
/// about the encoder changes, since its output does not depend on it.
#[verifier::external_body]
pub(crate) fn deflate_get_mut<W: ChainWrite>(stream: &mut DeflateStream<W>) -> (r: &mut W)
    ensures
        *r == old(stream).inner(),
        final(stream).inner() == *final(r),
        final(stream).level() == old(stream).level(),
        final(stream).room() == old(stream).room(),
        final(stream).history() == old(stream).history(),
        final(stream).intact() == old(stream).intact(),
{
    &mut stream.raw.encoder.get_mut().0
}

/// Calls `DeflateEncoder::finish`, which ends the compressed stream and hands
/// back the inner writer. On an intact encoder the flate2 source shows this:
/// a compressor error fails the call; a success hands the inner writer the
/// pieces `deflate_finish_step` names, which it takes in turn; and a failure
/// when the compressor had none means the inner writer refused one of them.
#[verifier::external_body]
pub(crate) fn deflate_finish<W: ChainWrite>(stream: DeflateStream<W>) -> (r: std::io::Result<W>)
    ensures
        stream.intact() ==> match deflate_finish_step(stream.level(), stream.room(), stream.history()) {
            None => r is Err,
            Some(handed) => (r matches Ok(w) ==> takes_pieces(stream.inner(), handed, w)) && (
            r is Err ==> refuses_in_pieces(stream.inner(), handed)),
        },
{
    stream.raw.encoder.finish().map(|sink| sink.0)
}

/// Calls `std::io::Error::from(std::io::ErrorKind::OutOfMemory)`, the error a
/// writer gives when a byte count would not fit in `usize`.
#[verifier::external_body]
pub(crate) fn out_of_memory_error() -> (r: std::io::Error) {
    std::io::Error::from(std::io::ErrorKind::OutOfMemory)
}

/// Calls `std::io::Error::from(std::io::ErrorKind::WriteZero)`, the error
/// `write_all` gives when a write takes nothing.
#[verifier::external_body]
pub(crate) fn write_zero_error() -> (r: std::io::Error) {
    std::io::Error::from(std::io::ErrorKind::WriteZero)
}

} // verus!
