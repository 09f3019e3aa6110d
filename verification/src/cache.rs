//! The progressive download cache entry: the bytes written so far and the
//! flag that says whether the background download is still running.
//!
//! The entry is the shared half of the stream: a background downloader
//! appends to it and eventually marks it finished, while a reader consumes
//! it through a cursor (see `stream`). Its invariant: the written length
//! only grows while downloading, and nothing changes it once downloading
//! has stopped — the only operations that touch the contents require the
//! download to still be running.

use vstd::prelude::*;

verus! {

/// One cache entry: the bytes durably written so far, and whether the
/// background download is still running. The written length is the length
/// of `data`.
pub struct CacheEntry {
    data: Vec<u8>,
    downloading: bool,
}

/// What the downloader saw when it asked the remote source for the next
/// chunk of the body.
pub enum ChunkEvent {
    /// A non-empty chunk of body bytes arrived.
    Bytes(Vec<u8>),
    /// The body ended: the download is complete.
    End,
    /// The read was interrupted transiently; it is simply retried.
    Interrupted,
    /// Any other I/O failure: the download is abandoned and whatever was
    /// written stays as the final content.
    Failed,
}

/// What the downloader does next after applying a chunk event.
#[derive(Clone, Copy, Debug, PartialEq, Eq, Structural)]
pub enum DownloadAction {
    /// Keep reading chunks.
    Continue,
    /// The download is over (complete or abandoned); the task terminates.
    Stop,
}

/// What a reader positioned at `pos` may do, given the shared state
/// `(written, downloading)`. The written length is consulted first: a
/// reader must never see end-of-stream while unread bytes are on disk, and
/// must never wait forever once downloading has stopped.
#[derive(Clone, Copy, Debug, PartialEq, Eq, Structural)]
pub enum ReadClass {
    /// Unread bytes are available at `pos`: read them now.
    Available,
    /// Downloading has stopped and everything written has been read.
    EndOfStream,
    /// Nothing to read yet, but the download may still produce more: poll
    /// again.
    NotReady,
}

/// The read decision of the design: bytes first, then the downloading flag.
pub open spec fn read_state(written: int, pos: int, downloading: bool) -> ReadClass {
    if written > pos {
        ReadClass::Available
    } else if !downloading {
        ReadClass::EndOfStream
    } else {
        ReadClass::NotReady
    }
}

/// Classifies a read attempt from the two shared values and the reader's
/// position. This is the decision a polling reader applies on every turn.
pub fn classify_read(written: usize, pos: usize, downloading: bool) -> (c: ReadClass)
    ensures
        c == read_state(written as int, pos as int, downloading),
{
    if written > pos {
        ReadClass::Available
    } else if !downloading {
        ReadClass::EndOfStream
    } else {
        ReadClass::NotReady
    }
}

/// The bytes a download keeps out of a sequence of chunk events: every
/// chunk delivered before the body ends or the download fails, in order.
pub open spec fn delivered_bytes(events: Seq<ChunkEvent>) -> Seq<u8>
    decreases events.len(),
{
    if events.len() == 0 {
        Seq::<u8>::empty()
    } else {
        match events[0] {
            ChunkEvent::Bytes(b) => b@ + delivered_bytes(events.drop_first()),
            ChunkEvent::End => Seq::<u8>::empty(),
            ChunkEvent::Interrupted => delivered_bytes(events.drop_first()),
            ChunkEvent::Failed => Seq::<u8>::empty(),
        }
    }
}

/// Whether a sequence of chunk events ends the download: it holds an
/// end-of-body or a fatal failure.
pub open spec fn download_stops(events: Seq<ChunkEvent>) -> bool
    decreases events.len(),
{
    if events.len() == 0 {
        false
    } else {
        match events[0] {
            ChunkEvent::Bytes(_) => download_stops(events.drop_first()),
            ChunkEvent::End => true,
            ChunkEvent::Interrupted => download_stops(events.drop_first()),
            ChunkEvent::Failed => true,
        }
    }
}

/// Bytes once written never change: appending a chunk leaves the old
/// content in place as a prefix of the new, so the written length only
/// grows while downloading — and once downloading stops, no operation of
/// the entry touches the content at all.
pub proof fn lemma_append_preserves_written_bytes(before: Seq<u8>, chunk: Seq<u8>)
    ensures
        (before + chunk).take(before.len() as int) == before,
        (before + chunk).len() >= before.len(),
{
    assert((before + chunk).take(before.len() as int) =~= before);
}

/// How a cache entry is opened: from an existing complete file, or empty
/// with a background download to fill it.
#[derive(Clone, Copy, Debug, PartialEq, Eq, Structural)]
pub enum OpenPlan {
    /// A cache file already exists: trust it as complete, start nothing.
    UseExisting,
    /// No cache file yet: create it empty and start the downloader.
    StartDownload,
}

/// The open-time decision: an existing file is served as-is and no
/// background download is started; otherwise a download is begun on an
/// empty entry.
pub fn plan_open(cache_exists: bool) -> (p: OpenPlan)
    ensures
        p == (if cache_exists {
            OpenPlan::UseExisting
        } else {
            OpenPlan::StartDownload
        }),
{
    if cache_exists {
        OpenPlan::UseExisting
    } else {
        OpenPlan::StartDownload
    }
}

impl CacheEntry {
    /// The bytes written so far.
    pub closed spec fn bytes(self) -> Seq<u8> {
        self.data@
    }

    /// Whether the background download is still running.
    pub closed spec fn downloading(self) -> bool {
        self.downloading
    }

    /// Opens an entry over content that is already complete: nothing is
    /// downloading, and the written length is the content's length.
    pub fn open_complete(data: Vec<u8>) -> (e: CacheEntry)
        ensures
            e.bytes() == data@,
            !e.downloading(),
    {
        CacheEntry { data, downloading: false }
    }

    /// Opens an empty entry whose download is about to start.
    pub fn open_downloading() -> (e: CacheEntry)
        ensures
            e.bytes() == Seq::<u8>::empty(),
            e.downloading(),
    {
        CacheEntry { data: Vec::new(), downloading: true }
    }

    /// The written length: how many bytes have been appended so far.
    pub fn written_length(&self) -> (n: usize)
        ensures
            n == self.bytes().len(),
    {
        self.data.len()
    }

    /// Whether the download is still running.
    pub fn is_downloading(&self) -> (b: bool)
        ensures
            b == self.downloading(),
    {
        self.downloading
    }

    /// The byte-source length query: the written length at this instant.
    /// While downloading it may still grow, so it is never a claim about
    /// the final size.
    pub fn byte_len(&self) -> (r: Option<u64>)
        ensures
            r == Some(self.bytes().len() as u64),
    {
        Some(self.data.len() as u64)
    }

    /// Reads `count` bytes starting at `start`; they must all be written
    /// already.
    pub fn read_at(&self, start: usize, count: usize) -> (out: Vec<u8>)
        requires
            start + count <= self.bytes().len(),
        ensures
            out@ == self.bytes().subrange(start as int, start + count),
    {
        let total: usize = self.data.len();
        let mut out: Vec<u8> = Vec::new();
        let mut i: usize = 0;
        while i < count
            invariant
                i <= count,
                start + count <= total,
                total == self.data@.len(),
                out@ == self.data@.subrange(start as int, start + i),
            decreases count - i,
        {
            out.push(self.data[start + i]);
            proof {
                assert(out@ =~= self.data@.subrange(start as int, start + i + 1));
            }
            i = i + 1;
        }
        out
    }

    /// Appends one downloaded chunk. Only the downloader calls this, and
    /// only while the download is running: the written length grows by the
    /// chunk's length and everything written before stays in place.
    pub fn append_chunk(&mut self, chunk: &Vec<u8>)
        requires
            old(self).downloading(),
            old(self).bytes().len() + chunk@.len() <= usize::MAX,
        ensures
            final(self).bytes() == old(self).bytes() + chunk@,
            final(self).downloading(),
    {
        let mut i: usize = 0;
        while i < chunk.len()
            invariant
                i <= chunk@.len(),
                self.data@.len() == old(self).data@.len() + i,
                self.data@ == old(self).data@ + chunk@.subrange(0, i as int),
                self.downloading == old(self).downloading,
            decreases chunk@.len() - i,
        {
            self.data.push(chunk[i]);
            proof {
                assert(self.data@ =~= old(self).data@ + chunk@.subrange(0, i + 1));
            }
            i = i + 1;
        }
        proof {
            assert(self.data@ =~= old(self).data@ + chunk@);
        }
    }

    /// Marks the download stopped — either complete or abandoned after a
    /// fatal error. The bytes written so far become the final content.
    pub fn finish(&mut self)
        ensures
            final(self).bytes() == old(self).bytes(),
            !final(self).downloading(),
    {
        self.downloading = false;
    }

    /// One turn of the background download loop: applies what the body
    /// read produced and says whether the loop goes on. A chunk is
    /// appended; end-of-body completes the download; a transient
    /// interruption changes nothing and is retried; any other failure
    /// abandons the download, keeping what was written as final content.
    pub fn apply_download_event(&mut self, event: &ChunkEvent) -> (a: DownloadAction)
        requires
            old(self).downloading(),
            event matches ChunkEvent::Bytes(b) ==> old(self).bytes().len() + b@.len()
                <= usize::MAX,
        ensures
            match event {
                ChunkEvent::Bytes(b) => {
                    &&& final(self).bytes() == old(self).bytes() + b@
                    &&& final(self).downloading()
                    &&& a == DownloadAction::Continue
                },
                ChunkEvent::End => {
                    &&& final(self).bytes() == old(self).bytes()
                    &&& !final(self).downloading()
                    &&& a == DownloadAction::Stop
                },
                ChunkEvent::Interrupted => {
                    &&& *final(self) == *old(self)
                    &&& a == DownloadAction::Continue
                },
                ChunkEvent::Failed => {
                    &&& final(self).bytes() == old(self).bytes()
                    &&& !final(self).downloading()
                    &&& a == DownloadAction::Stop
                },
            },
            final(self).bytes().len() >= old(self).bytes().len(),
    {
        match event {
            ChunkEvent::Bytes(b) => {
                self.append_chunk(b);
                DownloadAction::Continue
            },
            ChunkEvent::End => {
                self.finish();
                DownloadAction::Stop
            },
            ChunkEvent::Interrupted => DownloadAction::Continue,
            ChunkEvent::Failed => {
                self.finish();
                DownloadAction::Stop
            },
        }
    }

    /// Runs a whole download against the chunk events the body produces,
    /// applying them in order until one stops the loop: the entry ends up
    /// holding exactly what it held before plus every byte delivered up
    /// to the end of the body or the first fatal failure — in order, with
    /// nothing lost, duplicated or invented — and it is still downloading
    /// only when the events ran out without stopping.
    pub fn run_download(&mut self, events: &Vec<ChunkEvent>)
        requires
            old(self).downloading(),
            old(self).bytes().len() + delivered_bytes(events@).len() <= usize::MAX,
        ensures
            final(self).bytes() == old(self).bytes() + delivered_bytes(events@),
            final(self).downloading() == !download_stops(events@),
    {
        let ghost full = events@;
        proof {
            assert(full.skip(0) =~= full);
        }
        let mut i: usize = 0;
        loop
            invariant_except_break
                self.downloading(),
            invariant
                0 <= i <= full.len(),
                events@ == full,
                self.bytes() + delivered_bytes(full.skip(i as int)) == old(self).bytes()
                    + delivered_bytes(full),
                download_stops(full) == download_stops(full.skip(i as int)),
                old(self).bytes().len() + delivered_bytes(full).len() <= usize::MAX,
            ensures
                self.bytes() == old(self).bytes() + delivered_bytes(full),
                self.downloading() == !download_stops(full),
            decreases full.len() - i,
        {
            if i == events.len() {
                proof {
                    assert(full.skip(i as int) =~= Seq::<ChunkEvent>::empty());
                    assert(delivered_bytes(full.skip(i as int)) =~= Seq::<u8>::empty());
                    assert(!download_stops(full.skip(i as int)));
                    assert(self.bytes() =~= old(self).bytes() + delivered_bytes(full));
                }
                break ;
            }
            proof {
                assert(full.skip(i as int)[0] == full[i as int]);
                assert(full.skip(i as int).drop_first() =~= full.skip(i + 1));
            }
            let event = &events[i];
            proof {
                assert(*event == full[i as int]);
                match event {
                    ChunkEvent::Bytes(b) => {
                        assert(delivered_bytes(full.skip(i as int)) == b@ + delivered_bytes(
                            full.skip(i + 1),
                        ));
                        assert((self.bytes() + delivered_bytes(full.skip(i as int))).len()
                            == (old(self).bytes() + delivered_bytes(full)).len());
                        assert(delivered_bytes(full.skip(i as int)).len() == b@.len()
                            + delivered_bytes(full.skip(i + 1)).len());
                        assert(self.bytes().len() + b@.len() <= old(self).bytes().len()
                            + delivered_bytes(full).len());
                    },
                    _ => {},
                }
            }
            let action = self.apply_download_event(event);
            match action {
                DownloadAction::Continue => {
                    proof {
                        assert(self.bytes() + delivered_bytes(full.skip(i + 1)) =~= old(
                            self,
                        ).bytes() + delivered_bytes(full));
                    }
                    i = i + 1;
                },
                DownloadAction::Stop => {
                    proof {
                        assert(delivered_bytes(full.skip(i as int)) =~= Seq::<u8>::empty());
                        assert(download_stops(full.skip(i as int)));
                        assert(self.bytes() =~= old(self).bytes() + delivered_bytes(full));
                    }
                    break ;
                },
            }
        }
    }
}

} // verus!
