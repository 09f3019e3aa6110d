//! The reader's half of the progressive cache stream: a cursor over a
//! cache entry, with polling reads and absolute seeks.
//!
//! The cursor makes the entry look like a complete random-access file. A
//! read first checks whether unread bytes are on disk, and only then
//! consults the downloading flag — so end-of-stream is never reported
//! while written bytes remain unread, and a reader never waits once the
//! download has stopped and everything written has been consumed.

use vstd::prelude::*;

use crate::cache::CacheEntry;
use crate::cache::ReadClass;
use crate::cache::read_state;

verus! {

/// Per-open-stream state: the byte offset the next read starts at. It is
/// independent of the entry's written length; several cursors may read the
/// same entry without coordinating.
pub struct StreamCursor {
    pos: usize,
}

/// An error of the consumer side: the seek target fell outside what a file
/// offset can address.
#[derive(Clone, Copy, Debug, PartialEq, Eq, Structural)]
pub enum StreamError {
    /// The computed absolute offset was negative or too large to address.
    InvalidSeek,
}

/// Where a seek measures its offset from.
#[derive(Clone, Copy, Debug, PartialEq, Eq, Structural)]
pub enum SeekFrom {
    /// An absolute offset.
    Start(usize),
    /// Relative to the cursor's current position.
    Current(i64),
    /// Relative to the written length at the instant of the call.
    End(i64),
}

/// The absolute offset a seek asks for, as an unbounded integer; the seek
/// fails exactly when this is not addressable.
pub open spec fn seek_target(from: SeekFrom, cur: int, end: int) -> int {
    match from {
        SeekFrom::Start(n) => n as int,
        SeekFrom::Current(d) => cur + d,
        SeekFrom::End(d) => end + d,
    }
}

/// What one successful read yields: the written bytes from `pos` on, at
/// most `want` of them.
pub open spec fn read_yield(bytes: Seq<u8>, pos: int, want: int) -> Seq<u8> {
    bytes.subrange(pos, if pos + want <= bytes.len() { pos + want } else { bytes.len() as int })
}

/// The outcome of one poll of the stream.
pub enum ReadPoll {
    /// At least one byte was read; the cursor advanced past them.
    Data(Vec<u8>),
    /// Downloading has stopped and every written byte before the cursor
    /// has been consumed: a zero-byte read, end of stream.
    EndOfStream,
    /// No unread byte is written yet but the download is still running:
    /// poll again once more bytes may have arrived.
    Pending,
}

impl StreamCursor {
    /// The offset the next read will start at.
    pub closed spec fn position(self) -> int {
        self.pos as int
    }

    /// A cursor at the start of the entry.
    pub fn new() -> (c: StreamCursor)
        ensures
            c.position() == 0,
    {
        StreamCursor { pos: 0 }
    }

    /// The current offset.
    pub fn offset(&self) -> (p: usize)
        ensures
            p == self.position(),
    {
        self.pos
    }

    /// One poll of the stream, deciding by the written length first and
    /// the downloading flag second. When bytes at the cursor are written,
    /// it returns between one and `want` of them — exactly the entry's
    /// bytes at the cursor — and advances the cursor past what it
    /// returned; otherwise the cursor stays, and the poll reports end of
    /// stream or asks to be repeated according to the downloading flag.
    pub fn poll_read(&mut self, entry: &CacheEntry, want: usize) -> (r: ReadPoll)
        requires
            want >= 1,
        ensures
            match read_state(
                entry.bytes().len() as int,
                old(self).position(),
                entry.downloading(),
            ) {
                ReadClass::Available => {
                    &&& r matches ReadPoll::Data(d) && d@ == read_yield(
                        entry.bytes(),
                        old(self).position(),
                        want as int,
                    )
                    &&& final(self).position() == old(self).position() + read_yield(
                        entry.bytes(),
                        old(self).position(),
                        want as int,
                    ).len()
                },
                ReadClass::EndOfStream => {
                    &&& r is EndOfStream
                    &&& final(self).position() == old(self).position()
                },
                ReadClass::NotReady => {
                    &&& r is Pending
                    &&& final(self).position() == old(self).position()
                },
            },
    {
        let written = entry.written_length();
        if written > self.pos {
            let avail = written - self.pos;
            let n = if want < avail {
                want
            } else {
                avail
            };
            let out = entry.read_at(self.pos, n);
            self.pos = self.pos + n;
            ReadPoll::Data(out)
        } else if !entry.is_downloading() {
            ReadPoll::EndOfStream
        } else {
            ReadPoll::Pending
        }
    }

    /// Repositions the cursor to the absolute offset the seek names;
    /// seeking past the written length is permitted, and the next read
    /// will wait for the download to catch up or end. A target that no
    /// file offset can address is rejected and the cursor stays.
    pub fn seek(&mut self, entry: &CacheEntry, from: SeekFrom) -> (r: Result<
        usize,
        StreamError,
    >)
        ensures
            ({
                let target = seek_target(from, old(self).position(), entry.bytes().len() as int);
                if 0 <= target <= usize::MAX {
                    &&& r matches Ok(p) && p == target
                    &&& final(self).position() == target
                } else {
                    &&& r == Err::<usize, StreamError>(StreamError::InvalidSeek)
                    &&& final(self).position() == old(self).position()
                }
            }),
    {
        match from {
            SeekFrom::Start(n) => {
                self.pos = n;
                Ok(n)
            },
            SeekFrom::Current(d) => self.seek_relative(self.pos, d),
            SeekFrom::End(d) => self.seek_relative(entry.written_length(), d),
        }
    }

    /// Moves the cursor to `base + delta` when that is an addressable
    /// offset; rejects the seek and stays otherwise.
    fn seek_relative(&mut self, base: usize, delta: i64) -> (r: Result<usize, StreamError>)
        ensures
            if 0 <= base + delta <= usize::MAX {
                &&& r matches Ok(p) && p == base + delta
                &&& final(self).position() == base + delta
            } else {
                &&& r == Err::<usize, StreamError>(StreamError::InvalidSeek)
                &&& final(self).position() == old(self).position()
            },
    {
        let target: i128 = base as i128 + delta as i128;
        if 0 <= target && target <= usize::MAX as i128 {
            let p = target as usize;
            self.pos = p;
            Ok(p)
        } else {
            Err(StreamError::InvalidSeek)
        }
    }
}

/// The stream is always seekable: the backing store is a regular file even
/// while it is still being filled.
pub fn is_seekable() -> (b: bool)
    ensures
        b,
{
    true
}

/// Reads a finished entry to its end and returns everything from the
/// cursor's starting offset on, polling with the buffer sizes of `sizes`
/// in turn (cycling when they run out): sequential reads of a fully
/// downloaded cache yield exactly its bytes, whatever the sizes of the
/// individual reads and the content length — no gaps, no duplicates, no
/// truncation.
pub fn read_fully(cursor: &mut StreamCursor, entry: &CacheEntry, sizes: &Vec<usize>) -> (out: Vec<
    u8,
>)
    requires
        sizes@.len() >= 1,
        forall|k: int| 0 <= k < sizes@.len() ==> #[trigger] sizes@[k] >= 1,
        !entry.downloading(),
        old(cursor).position() <= entry.bytes().len(),
    ensures
        out@ == entry.bytes().subrange(old(cursor).position(), entry.bytes().len() as int),
        final(cursor).position() == entry.bytes().len(),
{
    let mut out: Vec<u8> = Vec::new();
    let mut turn: usize = 0;
    loop
        invariant
            sizes@.len() >= 1,
            forall|k: int| 0 <= k < sizes@.len() ==> #[trigger] sizes@[k] >= 1,
            turn < sizes@.len(),
            !entry.downloading(),
            old(cursor).position() <= cursor.position() <= entry.bytes().len(),
            out@ == entry.bytes().subrange(old(cursor).position(), cursor.position()),
        ensures
            cursor.position() == entry.bytes().len(),
            out@ == entry.bytes().subrange(old(cursor).position(), entry.bytes().len() as int),
        decreases entry.bytes().len() - cursor.position(),
    {
        let ghost pos_before = cursor.position();
        let want = sizes[turn];
        turn = if turn == sizes.len() - 1 {
            0
        } else {
            turn + 1
        };
        match cursor.poll_read(entry, want) {
            ReadPoll::Data(mut d) => {
                proof {
                    assert(out@ + d@ =~= entry.bytes().subrange(
                        old(cursor).position(),
                        cursor.position(),
                    ));
                }
                out.append(&mut d);
            },
            ReadPoll::EndOfStream => {
                break ;
            },
            ReadPoll::Pending => {
                proof {
                    assert(read_state(
                        entry.bytes().len() as int,
                        pos_before,
                        entry.downloading(),
                    ) !is NotReady);
                    assert(false);
                }
            },
        }
    }
    out
}

/// Two consecutive reads yield adjacent stretches: what the first read
/// returns, followed by what the second returns from the advanced
/// position, is exactly the entry's bytes between the starting and the
/// final position — sequential reads have no gap, no duplicate and no
/// reordering, whatever the two buffer sizes.
pub proof fn lemma_consecutive_reads_adjacent(bytes: Seq<u8>, pos: int, w1: int, w2: int)
    requires
        0 <= pos <= bytes.len(),
        w1 >= 1,
        w2 >= 1,
    ensures
        read_yield(bytes, pos, w1) + read_yield(
            bytes,
            pos + read_yield(bytes, pos, w1).len(),
            w2,
        ) == bytes.subrange(
            pos,
            pos + read_yield(bytes, pos, w1).len() + read_yield(
                bytes,
                pos + read_yield(bytes, pos, w1).len(),
                w2,
            ).len(),
        ),
{
    let first = read_yield(bytes, pos, w1);
    let second = read_yield(bytes, pos + first.len(), w2);
    assert(first + second =~= bytes.subrange(pos, pos + first.len() + second.len()));
}

/// A read issued while every written byte has been consumed and the
/// download still runs yields no data and no end-of-stream: the poll is
/// `NotReady`, and data can only ever be classified when written bytes
/// actually lie at the cursor.
pub proof fn lemma_read_waits_while_downloading(written: int, pos: int)
    requires
        pos >= written,
    ensures
        read_state(written, pos, true) is NotReady,
        forall|w: int, p: int, d: bool| read_state(w, p, d) is Available ==> w > p,
{
}

/// Once downloading has stopped and the cursor has consumed every written
/// byte, the very next read and every later one report end of stream: the
/// classification is `EndOfStream`, and since such a poll moves neither
/// the cursor nor the entry, the same classification holds again at the
/// next poll.
pub proof fn lemma_end_of_stream_is_stable(written: int, pos: int)
    requires
        pos >= written,
    ensures
        read_state(written, pos, false) is EndOfStream,
{
}

/// Seeking to `k` and then reading returns bytes that start at offset `k`
/// when `k` lies inside the written length; a seek beyond it never yields
/// bytes — the next read waits while the download runs, or reports end of
/// stream once it has stopped — so no read ever returns bytes that were
/// not written at its offset.
pub proof fn lemma_seek_then_read(bytes: Seq<u8>, downloading: bool, k: int, want: int)
    requires
        0 <= k,
        want >= 1,
    ensures
        k < bytes.len() ==> read_state(bytes.len() as int, k, downloading) is Available
            && read_yield(bytes, k, want)[0] == bytes[k] && read_yield(bytes, k, want)
            == bytes.subrange(
            k,
            if k + want <= bytes.len() {
                k + want
            } else {
                bytes.len() as int
            },
        ),
        k >= bytes.len() && downloading ==> read_state(bytes.len() as int, k, downloading)
            is NotReady,
        k >= bytes.len() && !downloading ==> read_state(bytes.len() as int, k, downloading)
            is EndOfStream,
{
}

} // verus!
