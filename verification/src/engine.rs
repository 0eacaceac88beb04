//! The download coordinator and stream reader.
//!
//! A `ParallelDownload` owns the engine's whole reassembly state: the queue
//! of scheduled-but-unjoined chunk fetches in ascending offset order, the
//! chunk buffer currently being drained, the cursor into it, and the next
//! offset to schedule. The caller performs the outside work — the probe for
//! the resource's length, spawning one fetch per scheduled chunk, joining
//! the oldest fetch, broadcasting cancellation — and hands each result back
//! as a plain value; every decision about what that result means, and every
//! byte handed onward, goes through the verified functions here.
//!
//! Delivery order is strictly ascending offset order, enforced purely by the
//! first-in-first-out queue discipline, independent of completion order. The
//! queue never holds more than `max_concurrency` entries. Once a fetch
//! fails, no byte at or past the failed chunk is ever delivered.

use vstd::prelude::*;
use crate::chunks::Chunk;
use crate::chunks::chunk_at;
use crate::chunks::chunk_start;
use crate::chunks::chunk_len;
use crate::chunks::covered;
use crate::chunks::is_chunk;
use crate::chunks::num_chunks;
use crate::chunks::concat_bytes;
use crate::chunks::chunk_bytes;
use crate::chunks::lemma_window_in_count;
use crate::chunks::lemma_count_le_of_cover;
use crate::chunks::lemma_num_chunks;
use crate::chunks::lemma_num_chunks_unique;
use crate::chunks::lemma_reassembly_prefix;
use crate::chunks::lemma_reassembly;

verus! {

/// Configuration the engine is built with.
#[derive(Clone, Copy, PartialEq, Eq, Structural, Debug)]
pub struct DownloadConfig {
    /// Bytes per chunk window.
    pub chunk_size: u32,
    /// Cap on simultaneously outstanding chunk fetches.
    pub max_concurrency: u32,
    /// Bytes per burst read of a fetch's body.
    pub read_burst: u32,
}

impl DownloadConfig {
    /// All three knobs must be positive.
    pub open spec fn wf(self) -> bool {
        &&& 1 <= self.chunk_size
        &&& 1 <= self.max_concurrency
        &&& 1 <= self.read_burst
    }
}

impl Default for DownloadConfig {
    /// The defaults: 50 MiB chunks, six fetches in flight, 1 MiB bursts.
    fn default() -> (r: DownloadConfig)
        ensures
            r.wf(),
            r.chunk_size == 50 * 1024 * 1024,
            r.max_concurrency == 6,
            r.read_burst == 1024 * 1024,
    {
        DownloadConfig { chunk_size: 50 * 1024 * 1024, max_concurrency: 6, read_burst: 1024 * 1024 }
    }
}

/// What the probe for the resource's length yielded.
#[derive(Clone, Copy, PartialEq, Eq, Structural, Debug)]
pub enum HeadOutcome {
    /// The probe succeeded and the length header held this many bytes.
    Length(u64),
    /// The probe succeeded but no length header was present.
    NoLength,
    /// The probe itself failed.
    Failed,
    /// The probe could not even be issued: the location is no valid URL.
    BadUrl,
}

/// Why a download could not start. No chunk is ever scheduled on any.
#[derive(Clone, Copy, PartialEq, Eq, Structural, Debug)]
pub enum StartError {
    /// The location is no valid URL.
    UrlInvalid,
    /// The probe for the resource's length failed.
    HeadFailed,
    /// The probe's response carried no length header.
    NoContentLength,
}

/// Why a read failed. Each ends the stream: nothing past it is delivered.
#[derive(Clone, Copy, PartialEq, Eq, Structural, Debug)]
pub enum ReadError {
    /// A chunk's range request failed or returned a non-success status.
    FetchFailed,
    /// A chunk's body ended before the chunk was complete.
    IncompleteChunk,
    /// A fetch worker ended without reporting any outcome.
    JoinFailed,
}

/// The outcome of joining the oldest outstanding fetch.
#[derive(Debug)]
pub enum ChunkOutcome {
    /// The fetch completed and produced the chunk's bytes.
    Delivered(Vec<u8>),
    /// The fetch (or its worker) failed.
    Failed(ReadError),
    /// The fetch stopped because cancellation was signalled.
    Cancelled,
}

/// Where the engine stands in its life.
#[derive(Clone, Copy, PartialEq, Eq, Structural, Debug)]
pub enum Phase {
    /// Built, not yet probed.
    NotStarted,
    /// Probed successfully; scheduling, fetching and draining chunks.
    Streaming,
    /// The probe failed; nothing was ever scheduled. Terminal.
    StartFailed,
    /// A fetch failed; the stream ended at a chunk boundary. Terminal.
    Failed(ReadError),
    /// Cancellation was requested; reads end cleanly. Terminal.
    Killed,
}

/// What one pull on the stream yielded.
#[derive(Clone, Copy, PartialEq, Eq, Structural, Debug)]
pub enum ReadStep {
    /// This many bytes were copied into the caller's buffer.
    Copied(usize),
    /// No chunk buffer is held: join the oldest outstanding fetch and hand
    /// its outcome to `on_join_result`, then pull again.
    NeedJoin,
    /// End of stream: every byte was delivered, or the engine was killed.
    Eof,
    /// A fetch failed earlier; the stream is over and stays so.
    Failed(ReadError),
}

/// The download coordinator with its stream-reassembly state.
pub struct ParallelDownload {
    /// Location of the resource.
    pub url: String,
    /// The knobs the engine was built with.
    pub config: DownloadConfig,
    /// Where the engine stands.
    pub phase: Phase,
    /// Scheduled, not yet joined chunks, in ascending offset order. The
    /// front is always the next chunk the stream needs.
    pub pending: Vec<Chunk>,
    /// The chunk buffer being drained, if any.
    pub current: Option<Vec<u8>>,
    /// Offset of the next unread byte within `current`.
    pub cursor: usize,
    /// Offset of the first byte not yet covered by a scheduled chunk.
    pub next_start_byte: u64,
    /// Total resource size, set once by a successful probe.
    pub content_length: u64,
    /// How many chunks have been joined and adopted, in order.
    pub joined: Ghost<int>,
    /// The adopted chunk buffers, in adoption order.
    pub taken: Ghost<Seq<Seq<u8>>>,
    /// Every byte handed to the caller so far, in delivery order.
    pub delivered: Ghost<Seq<u8>>,
}

impl ParallelDownload {
    /// The chunk window size, as a mathematical integer.
    pub open spec fn cs(self) -> int {
        self.config.chunk_size as int
    }

    /// The resource length, as a mathematical integer.
    pub open spec fn cl(self) -> int {
        self.content_length as int
    }

    /// The engine's invariant while streaming: the queue holds consecutive
    /// chunks of the partition starting right after the adopted ones, never
    /// more than the concurrency cap; the next offset to schedule lies right
    /// after the queue; each adopted buffer has its chunk's exact size; and
    /// the delivered bytes are precisely the adopted buffers in order, the
    /// last of them up to the cursor.
    pub open spec fn stream_inv(self) -> bool {
        &&& 0 <= self.joined@
        &&& self.pending@.len() <= self.config.max_concurrency
        &&& self.joined@ + self.pending@.len() <= num_chunks(self.cl(), self.cs())
        &&& forall|i: int|
            0 <= i < self.pending@.len() ==> {
                &&& is_chunk(self.cl(), self.cs(), self.joined@ + i, #[trigger] self.pending@[i])
                &&& chunk_start(self.cs(), self.joined@ + i) < self.cl()
            }
        &&& self.next_start_byte == covered(self.cl(), self.cs(), self.joined@ + self.pending@.len())
        &&& self.taken@.len() == self.joined@
        &&& forall|t: int|
            0 <= t < self.taken@.len() ==> (#[trigger] self.taken@[t]).len() == chunk_len(
                self.cl(),
                self.cs(),
                t,
            )
        &&& match self.current {
            Some(v) => {
                &&& 1 <= self.joined@
                &&& v@ == self.taken@.last()
                &&& self.cursor < v@.len()
                &&& self.delivered@ == concat_bytes(self.taken@.drop_last()) + v@.take(
                    self.cursor as int,
                )
            },
            None => {
                &&& self.cursor == 0
                &&& self.delivered@ == concat_bytes(self.taken@)
            },
        }
    }

    /// The engine's invariant, phase by phase.
    pub open spec fn inv(self) -> bool {
        &&& self.config.wf()
        &&& match self.phase {
            Phase::NotStarted | Phase::StartFailed => {
                &&& self.pending@.len() == 0
                &&& self.current is None
                &&& self.cursor == 0
                &&& self.next_start_byte == 0
                &&& self.joined@ == 0
                &&& self.taken@ == Seq::<Seq<u8>>::empty()
                &&& self.delivered@ == Seq::<u8>::empty()
            },
            Phase::Streaming => self.stream_inv(),
            Phase::Failed(_) => {
                &&& self.pending@.len() == 0
                &&& self.current is None
                &&& self.cursor == 0
                &&& 0 <= self.joined@ == self.taken@.len()
                &&& self.joined@ <= num_chunks(self.cl(), self.cs())
                &&& forall|t: int|
                    0 <= t < self.taken@.len() ==> (#[trigger] self.taken@[t]).len() == chunk_len(
                        self.cl(),
                        self.cs(),
                        t,
                    )
                &&& self.delivered@ == concat_bytes(self.taken@)
            },
            Phase::Killed => {
                &&& self.pending@.len() == 0
                &&& self.current is None
                &&& self.cursor == 0
            },
        }
    }

    /// A fresh engine for `url` with the given knobs: nothing probed,
    /// nothing scheduled, nothing delivered.
    pub fn new(url: String, config: DownloadConfig) -> (r: ParallelDownload)
        requires
            config.wf(),
        ensures
            r.inv(),
            r.phase == Phase::NotStarted,
            r.url@ == url@,
            r.config == config,
            r.content_length == 0,
            r.next_start_byte == 0,
            r.delivered@ == Seq::<u8>::empty(),
    {
        ParallelDownload {
            url,
            config,
            phase: Phase::NotStarted,
            pending: Vec::new(),
            current: None,
            cursor: 0,
            next_start_byte: 0,
            content_length: 0,
            joined: Ghost(0),
            taken: Ghost(Seq::empty()),
            delivered: Ghost(Seq::empty()),
        }
    }

    /// Request cancellation. The engine is over: the queue is dropped and
    /// every later pull returns end-of-stream at once. The bytes already
    /// delivered stay as they were. The caller broadcasts the signal to its
    /// outstanding fetches; a fetch that already finished is simply ignored.
    pub fn kill(&mut self)
        requires
            old(self).inv(),
        ensures
            final(self).inv(),
            final(self).phase == Phase::Killed,
            final(self).delivered@ == old(self).delivered@,
            final(self).url == old(self).url,
            final(self).config == old(self).config,
    {
        self.phase = Phase::Killed;
        self.pending = Vec::new();
        self.current = None;
        self.cursor = 0;
    }

    /// Schedule the chunk at the next uncovered offset, if the resource is
    /// not yet fully covered: append its descriptor to the queue's tail and
    /// advance the next offset by one window. The caller spawns one fetch
    /// for the returned descriptor.
    fn try_schedule(&mut self) -> (r: Option<Chunk>)
        requires
            old(self).inv(),
            old(self).phase == Phase::Streaming,
            old(self).pending@.len() < old(self).config.max_concurrency,
        ensures
            final(self).inv(),
            final(self).phase == Phase::Streaming,
            final(self).url == old(self).url,
            final(self).config == old(self).config,
            final(self).content_length == old(self).content_length,
            final(self).current == old(self).current,
            final(self).cursor == old(self).cursor,
            final(self).joined@ == old(self).joined@,
            final(self).taken@ == old(self).taken@,
            final(self).delivered@ == old(self).delivered@,
            old(self).next_start_byte >= old(self).content_length ==> r is None && *final(self)
                == *old(self),
            old(self).next_start_byte < old(self).content_length ==> (r matches Some(c) && {
                &&& is_chunk(
                    old(self).cl(),
                    old(self).cs(),
                    old(self).joined@ + old(self).pending@.len(),
                    c,
                )
                &&& c.start == old(self).next_start_byte
                &&& 1 <= c.size
                &&& final(self).pending@ == old(self).pending@.push(c)
                &&& final(self).next_start_byte == covered(
                    old(self).cl(),
                    old(self).cs(),
                    old(self).joined@ + old(self).pending@.len() + 1,
                )
            }),
    {
        let cl = self.content_length;
        let cs = self.config.chunk_size;
        let ghost k = self.joined@ + self.pending@.len();
        match chunk_at(cl, cs, self.next_start_byte) {
            None => None,
            Some(c) => {
                proof {
                    assert(covered(self.cl(), self.cs(), k) < self.cl());
                    assert(chunk_start(self.cs(), k) == k * self.cs());
                    assert(is_chunk(self.cl(), self.cs(), k, c));
                    lemma_window_in_count(self.cl(), self.cs(), k);
                    assert((k + 1) * self.cs() == k * self.cs() + self.cs()) by (nonlinear_arith);
                }
                let next: u64 = if cl - c.start > cs as u64 {
                    c.start + cs as u64
                } else {
                    cl
                };
                self.pending.push(c);
                self.next_start_byte = next;
                Some(c)
            },
        }
    }

    /// Take in the probe's outcome and, on success, schedule the opening
    /// wave of chunk fetches: ascending offsets from zero until either the
    /// concurrency cap is reached or the whole resource is covered —
    /// whichever of the two counts is smaller. On a failed probe, or one
    /// without a length header, the matching error comes back and no chunk
    /// is ever scheduled.
    pub fn start_download(&mut self, head: HeadOutcome) -> (r: Result<(), StartError>)
        requires
            old(self).inv(),
            old(self).phase == Phase::NotStarted,
        ensures
            final(self).inv(),
            final(self).url == old(self).url,
            final(self).config == old(self).config,
            final(self).delivered@ == Seq::<u8>::empty(),
            match head {
                HeadOutcome::Failed => {
                    &&& r == Err::<(), StartError>(StartError::HeadFailed)
                    &&& final(self).phase == Phase::StartFailed
                    &&& final(self).pending@.len() == 0
                },
                HeadOutcome::NoLength => {
                    &&& r == Err::<(), StartError>(StartError::NoContentLength)
                    &&& final(self).phase == Phase::StartFailed
                    &&& final(self).pending@.len() == 0
                },
                HeadOutcome::BadUrl => {
                    &&& r == Err::<(), StartError>(StartError::UrlInvalid)
                    &&& final(self).phase == Phase::StartFailed
                    &&& final(self).pending@.len() == 0
                },
                HeadOutcome::Length(cl) => {
                    &&& r == Ok::<(), StartError>(())
                    &&& final(self).phase == Phase::Streaming
                    &&& final(self).content_length == cl
                    &&& final(self).joined@ == 0
                    &&& final(self).pending@.len() == vstd::math::min(
                        old(self).config.max_concurrency as int,
                        num_chunks(cl as int, old(self).config.chunk_size as int),
                    )
                    &&& forall|i: int|
                        0 <= i < final(self).pending@.len() ==> is_chunk(
                            cl as int,
                            final(self).cs(),
                            i,
                            #[trigger] final(self).pending@[i],
                        )
                    &&& final(self).next_start_byte == covered(
                        cl as int,
                        final(self).cs(),
                        final(self).pending@.len() as int,
                    )
                },
            },
    {
        match head {
            HeadOutcome::Failed => {
                self.phase = Phase::StartFailed;
                Err(StartError::HeadFailed)
            },
            HeadOutcome::NoLength => {
                self.phase = Phase::StartFailed;
                Err(StartError::NoContentLength)
            },
            HeadOutcome::BadUrl => {
                self.phase = Phase::StartFailed;
                Err(StartError::UrlInvalid)
            },
            HeadOutcome::Length(cl) => {
                self.content_length = cl;
                self.phase = Phase::Streaming;
                proof {
                    assert(0 * self.cs() == 0) by (nonlinear_arith);
                    lemma_num_chunks(self.cl(), self.cs());
                }
                let max = self.config.max_concurrency;
                let mut count: u32 = 0;
                while count < max && self.next_start_byte < self.content_length
                    invariant
                        self.inv(),
                        self.phase == Phase::Streaming,
                        count == self.pending@.len(),
                        count <= max,
                        self.joined@ == 0,
                        self.content_length == cl,
                        self.config == old(self).config,
                        self.url == old(self).url,
                        max == self.config.max_concurrency,
                    decreases max - count,
                {
                    let _ = self.try_schedule();
                    count = count + 1;
                }
                proof {
                    let cs = self.cs();
                    let n = num_chunks(cl as int, cs);
                    lemma_num_chunks(cl as int, cs);
                    let len = self.pending@.len() as int;
                    if self.next_start_byte >= cl {
                        assert(covered(cl as int, cs, len) == cl as int);
                        assert(cl as int <= len * cs);
                        if len > 0 {
                            assert(is_chunk(cl as int, cs, len - 1, self.pending@[len - 1]));
                            assert((len - 1) * cs < cl as int);
                        } else {
                            assert(len * cs == 0) by (nonlinear_arith)
                                requires len == 0;
                        }
                        lemma_num_chunks_unique(cl as int, cs, len);
                    } else {
                        assert(count == max);
                        assert(is_chunk(cl as int, cs, len - 1, self.pending@[len - 1]));
                        assert(chunk_start(cs, len - 1) < cl as int);
                        lemma_window_in_count(cl as int, cs, len - 1);
                    }
                }
                Ok(())
            },
        }
    }

    /// Take in the outcome of joining the oldest outstanding fetch — the
    /// head of the queue — and decide what it means. A buffer of exactly the
    /// chunk's size is adopted as the chunk to drain next, and exactly one
    /// replenishment chunk is scheduled if the resource is not yet fully
    /// covered (the returned descriptor is the caller's to spawn). A buffer
    /// of any other size counts as an incomplete chunk. A failure ends the
    /// stream then and there: the queue is dropped, nothing is ever
    /// scheduled again, and the bytes delivered so far stay as they were
    /// (the caller broadcasts cancellation to the remaining fetches). A
    /// cancelled fetch ends the stream cleanly instead.
    pub fn on_join_result(&mut self, outcome: ChunkOutcome) -> (r: Result<Option<Chunk>, ReadError>)
        requires
            old(self).inv(),
            old(self).phase == Phase::Streaming,
            old(self).current is None,
            1 <= old(self).pending@.len(),
        ensures
            final(self).inv(),
            final(self).url == old(self).url,
            final(self).config == old(self).config,
            final(self).content_length == old(self).content_length,
            final(self).delivered@ == old(self).delivered@,
            match outcome {
                ChunkOutcome::Delivered(buf) => {
                    if buf@.len() == old(self).pending@[0].size {
                        &&& final(self).phase == Phase::Streaming
                        &&& final(self).current matches Some(v) && v@ == buf@
                        &&& final(self).cursor == 0
                        &&& final(self).joined@ == old(self).joined@ + 1
                        &&& final(self).taken@ == old(self).taken@.push(buf@)
                        &&& (r matches Ok(sched) && {
                            &&& old(self).next_start_byte >= old(self).content_length ==> sched
                                is None && final(self).pending@ == old(self).pending@.subrange(
                                1,
                                old(self).pending@.len() as int,
                            )
                            &&& old(self).next_start_byte < old(self).content_length ==> (
                            sched matches Some(c) && {
                                &&& c.start == old(self).next_start_byte
                                &&& is_chunk(
                                    old(self).cl(),
                                    old(self).cs(),
                                    old(self).joined@ + old(self).pending@.len(),
                                    c,
                                )
                                &&& final(self).pending@ == old(self).pending@.subrange(
                                    1,
                                    old(self).pending@.len() as int,
                                ).push(c)
                            })
                        })
                    } else {
                        &&& r == Err::<Option<Chunk>, ReadError>(ReadError::IncompleteChunk)
                        &&& final(self).phase == Phase::Failed(ReadError::IncompleteChunk)
                        &&& final(self).pending@.len() == 0
                        &&& final(self).taken@ == old(self).taken@
                    }
                },
                ChunkOutcome::Failed(e) => {
                    &&& r == Err::<Option<Chunk>, ReadError>(e)
                    &&& final(self).phase == Phase::Failed(e)
                    &&& final(self).pending@.len() == 0
                    &&& final(self).taken@ == old(self).taken@
                },
                ChunkOutcome::Cancelled => {
                    &&& r == Ok::<Option<Chunk>, ReadError>(None)
                    &&& final(self).phase == Phase::Killed
                    &&& final(self).pending@.len() == 0
                },
            },
    {
        match outcome {
            ChunkOutcome::Delivered(buf) => {
                let front_size = self.pending[0].size;
                if buf.len() == front_size as usize {
                    let ghost bv = buf@;
                    let ghost old_taken = self.taken@;
                    let _front = self.pending.remove(0);
                    self.joined = Ghost(self.joined@ + 1);
                    self.taken = Ghost(self.taken@.push(bv));
                    self.current = Some(buf);
                    self.cursor = 0;
                    proof {
                        assert(self.pending@ =~= old(self).pending@.subrange(
                            1,
                            old(self).pending@.len() as int,
                        ));
                        assert(self.taken@.drop_last() =~= old_taken);
                        assert(self.taken@.last() == bv);
                        assert(is_chunk(
                            self.cl(),
                            self.cs(),
                            old(self).joined@,
                            old(self).pending@[0],
                        ));
                        assert(chunk_start(self.cs(), old(self).joined@) < self.cl());
                        assert(bv.take(0) =~= Seq::<u8>::empty());
                        assert(concat_bytes(old_taken) + bv.take(0) =~= concat_bytes(old_taken));
                    }
                    let sched = self.try_schedule();
                    Ok(sched)
                } else {
                    self.phase = Phase::Failed(ReadError::IncompleteChunk);
                    self.pending = Vec::new();
                    Err(ReadError::IncompleteChunk)
                }
            },
            ChunkOutcome::Failed(e) => {
                self.phase = Phase::Failed(e);
                self.pending = Vec::new();
                Err(e)
            },
            ChunkOutcome::Cancelled => {
                self.phase = Phase::Killed;
                self.pending = Vec::new();
                Ok(None)
            },
        }
    }

    /// One pull on the reconstructed stream. While a chunk buffer is held,
    /// the pull copies as many of its unread bytes as fit the caller's
    /// buffer — never zero while the caller's buffer has room — and a chunk
    /// drained to its end is released, so the next pull moves on. With no
    /// chunk held, the pull asks the caller to join the oldest outstanding
    /// fetch, or reports the end of the stream once none is outstanding.
    /// After `kill` every pull is end-of-stream at once; after a failure,
    /// that failure.
    pub fn read_step(&mut self, dst: &mut Vec<u8>) -> (r: ReadStep)
        requires
            old(self).inv(),
        ensures
            final(self).inv(),
            final(self).url == old(self).url,
            final(self).config == old(self).config,
            final(self).content_length == old(self).content_length,
            final(dst)@.len() == old(dst)@.len(),
            match old(self).phase {
                Phase::NotStarted | Phase::StartFailed | Phase::Killed => {
                    &&& r == ReadStep::Eof
                    &&& *final(self) == *old(self)
                    &&& final(dst)@ == old(dst)@
                },
                Phase::Failed(e) => {
                    &&& r == ReadStep::Failed(e)
                    &&& *final(self) == *old(self)
                    &&& final(dst)@ == old(dst)@
                },
                Phase::Streaming => match old(self).current {
                    None => {
                        &&& *final(self) == *old(self)
                        &&& final(dst)@ == old(dst)@
                        &&& old(self).pending@.len() == 0 ==> r == ReadStep::Eof
                        &&& 1 <= old(self).pending@.len() ==> r == ReadStep::NeedJoin
                    },
                    Some(v) => {
                        let c0 = old(self).cursor as int;
                        let n = vstd::math::min(old(dst)@.len() as int, v@.len() - c0);
                        &&& (r matches ReadStep::Copied(m) && m == n)
                        &&& 1 <= old(dst)@.len() ==> 1 <= n
                        &&& final(dst)@.subrange(0, n) == v@.subrange(c0, c0 + n)
                        &&& final(dst)@.skip(n) == old(dst)@.skip(n)
                        &&& final(self).delivered@ == old(self).delivered@ + v@.subrange(
                            c0,
                            c0 + n,
                        )
                        &&& final(self).phase == Phase::Streaming
                        &&& final(self).pending@ == old(self).pending@
                        &&& final(self).next_start_byte == old(self).next_start_byte
                        &&& final(self).joined@ == old(self).joined@
                        &&& final(self).taken@ == old(self).taken@
                    },
                },
            },
    {
        match self.phase {
            Phase::Failed(e) => ReadStep::Failed(e),
            Phase::NotStarted | Phase::StartFailed | Phase::Killed => ReadStep::Eof,
            Phase::Streaming => {
                if self.current.is_some() {
                    let ghost cv: Seq<u8> = match &self.current {
                        Some(v) => v@,
                        None => Seq::empty(),
                    };
                    let ghost c0 = self.cursor as int;
                    let ghost dl = self.taken@.drop_last();
                    let vlen: usize = match &self.current {
                        Some(v) => v.len(),
                        None => 0,
                    };
                    let remaining: usize = vlen - self.cursor;
                    let n: usize = if dst.len() < remaining {
                        dst.len()
                    } else {
                        remaining
                    };
                    let mut j: usize = 0;
                    while j < n
                        invariant
                            j <= n,
                            self.current matches Some(v) && v@ == cv,
                            self.cursor == old(self).cursor,
                            self.cursor + n <= cv.len(),
                            cv.len() <= usize::MAX,
                            n <= dst@.len(),
                            dst@.len() == old(dst)@.len(),
                            forall|x: int| 0 <= x < j ==> dst@[x] == cv[self.cursor + x],
                            forall|x: int| j <= x < dst@.len() ==> dst@[x] == old(dst)@[x],
                        decreases n - j,
                    {
                        let b: u8 = match &self.current {
                            Some(v) => v[self.cursor + j],
                            None => 0,
                        };
                        dst.set(j, b);
                        j = j + 1;
                    }
                    self.cursor = self.cursor + n;
                    self.delivered = Ghost(self.delivered@ + cv.subrange(c0, c0 + n as int));
                    proof {
                        assert(dst@.subrange(0, n as int) =~= cv.subrange(c0, c0 + n as int));
                        assert(dst@.skip(n as int) =~= old(dst)@.skip(n as int));
                        assert((concat_bytes(dl) + cv.take(c0)) + cv.subrange(c0, c0 + n as int)
                            =~= concat_bytes(dl) + cv.take(c0 + n as int));
                    }
                    if self.cursor == vlen {
                        self.current = None;
                        self.cursor = 0;
                        proof {
                            assert(cv.take(c0 + n as int) =~= cv);
                            assert(concat_bytes(self.taken@) == concat_bytes(
                                self.taken@.drop_last(),
                            ) + self.taken@.last());
                        }
                    }
                    ReadStep::Copied(n)
                } else {
                    if self.pending.len() == 0 {
                        ReadStep::Eof
                    } else {
                        ReadStep::NeedJoin
                    }
                }
            },
        }
    }
}

/// Bounded-concurrency law: in every reachable engine state, the fetches
/// that are scheduled but not yet joined never outnumber the concurrency
/// cap.
pub proof fn lemma_bounded_concurrency(d: ParallelDownload)
    requires
        d.inv(),
    ensures
        d.pending@.len() <= d.config.max_concurrency,
{
}

/// Fail-fast law: once a fetch has failed, the bytes handed out are exactly
/// the chunks adopted before the failure — a clean prefix of the source,
/// whole chunks only — and nothing at or past the failed chunk is ever part
/// of them.
pub proof fn lemma_failed_is_clean_prefix(d: ParallelDownload, source: Seq<u8>, e: ReadError)
    requires
        d.inv(),
        d.phase == Phase::Failed(e),
        source.len() == d.content_length,
        forall|t: int| 0 <= t < d.taken@.len() ==> d.taken@[t] == chunk_bytes(source, d.cs(), t),
    ensures
        d.delivered@ == source.take(covered(source.len() as int, d.cs(), d.joined@)),
{
    lemma_reassembly_prefix(source, d.cs(), d.taken@, d.taken@.len() as int);
    assert(d.taken@.take(d.taken@.len() as int) =~= d.taken@);
}

/// End-to-end law: when the stream has drained — every chunk scheduled,
/// joined and read to its end — the delivered bytes are exactly the source,
/// whatever the chunk size; the concurrency cap never enters the statement,
/// so the output is independent of both partitioning parameters.
pub proof fn lemma_drained_delivers_source(d: ParallelDownload, source: Seq<u8>)
    requires
        d.inv(),
        d.phase == Phase::Streaming,
        d.current is None,
        d.pending@.len() == 0,
        d.next_start_byte == d.content_length,
        source.len() == d.content_length,
        forall|t: int| 0 <= t < d.taken@.len() ==> d.taken@[t] == chunk_bytes(source, d.cs(), t),
    ensures
        d.delivered@ == source,
{
    let cl = d.cl();
    let cs = d.cs();
    assert(covered(cl, cs, d.joined@) == cl);
    assert(cl <= d.joined@ * cs);
    lemma_count_le_of_cover(cl, cs, d.joined@);
    assert(d.joined@ == num_chunks(cl, cs));
    lemma_reassembly(source, cs, d.taken@);
}

} // verus!

