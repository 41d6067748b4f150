//! The decisions of a BYOB ("bring your own buffer") read: after each read
//! into the buffer, whether to read again into the rest of it, or to hand
//! back what was read.

use vstd::prelude::*;

verus! {

/// A read continues only while at least 64 KiB of the buffer are left.
pub const MINIMAL_CHUNK_SIZE: u32 = 64 * 1024;

/// What to do after a read.
#[derive(Clone, Copy, Debug, PartialEq, Eq)]
pub enum ByobAction {
    /// Read again into `length` bytes of the buffer from `offset`.
    Read { offset: u32, length: u32 },
    /// Stop: the first `bytes_read` bytes of the buffer hold the data, and
    /// `done` tells whether the stream has ended.
    Return { bytes_read: u32, done: bool },
}

/// The progress of one BYOB read into a buffer of `buffer_size` bytes.
pub struct ByobRead {
    buffer_size: u32,
    bytes_read: u32,
}

impl ByobRead {
    #[verifier::type_invariant]
    spec fn read_within_buffer(self) -> bool {
        self.bytes_read <= self.buffer_size
    }

    /// The size of the buffer.
    pub closed spec fn buffer_size(&self) -> u32 {
        self.buffer_size
    }

    /// The bytes read into the buffer so far, from its start.
    pub closed spec fn bytes_read(&self) -> u32 {
        self.bytes_read
    }

    /// Starts a read into a buffer of `buffer_size` bytes: the first read
    /// goes into the whole buffer.
    pub fn new(buffer_size: u32) -> (r: (ByobRead, ByobAction))
        ensures
            r.0.buffer_size() == buffer_size,
            r.0.bytes_read() == 0,
            r.1 == (ByobAction::Read { offset: 0, length: buffer_size }),
    {
        (ByobRead { buffer_size, bytes_read: 0 }, ByobAction::Read { offset: 0, length: buffer_size })
    }

    /// The bytes of the buffer not yet read into.
    pub fn room_left(&self) -> (r: u32)
        ensures
            r == self.buffer_size() - self.bytes_read(),
    {
        proof {
            use_type_invariant(self);
        }
        self.buffer_size - self.bytes_read
    }

    /// A read put `value_len` bytes at the end of what was read, and `done`
    /// tells whether the stream ended. Returns when the stream ended or less
    /// than 64 KiB of the buffer are left; otherwise reads again into the
    /// rest of the buffer.
    pub fn on_read(&mut self, value_len: u32, done: bool) -> (r: ByobAction)
        requires
            old(self).bytes_read() + value_len <= old(self).buffer_size(),
        ensures
            final(self).buffer_size() == old(self).buffer_size(),
            final(self).bytes_read() == old(self).bytes_read() + value_len,
            done ==> r == (ByobAction::Return { bytes_read: final(self).bytes_read(), done: true }),
            !done && final(self).buffer_size() - final(self).bytes_read() < MINIMAL_CHUNK_SIZE ==> r
                == (ByobAction::Return { bytes_read: final(self).bytes_read(), done: false }),
            !done && final(self).buffer_size() - final(self).bytes_read() >= MINIMAL_CHUNK_SIZE ==> r
                == (ByobAction::Read {
                offset: final(self).bytes_read(),
                length: (final(self).buffer_size() - final(self).bytes_read()) as u32,
            }),
    {
        proof {
            use_type_invariant(&*self);
        }
        self.bytes_read = self.bytes_read + value_len;
        if done {
            return ByobAction::Return { bytes_read: self.bytes_read, done: true };
        }
        let remaining = self.buffer_size - self.bytes_read;
        if remaining < MINIMAL_CHUNK_SIZE {
            ByobAction::Return { bytes_read: self.bytes_read, done: false }
        } else {
            ByobAction::Read { offset: self.bytes_read, length: remaining }
        }
    }
}

} // verus!
