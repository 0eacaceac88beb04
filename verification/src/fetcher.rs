//! One byte-range chunk fetch.
//!
//! A `Download` is responsible for exactly one chunk of the resource. The
//! caller issues the range request and reads the response body in bounded
//! bursts; this module holds everything the fetch decides and accumulates:
//! the range bounds of the request, whether to read another burst, stop on
//! the cancellation signal, or report the chunk finished or cut short, and
//! the buffer the body bytes are collected into. The body arrives unchanged:
//! the finished buffer is exactly the concatenation of the bursts fed in.

use vstd::prelude::*;

verus! {

/// What the fetch loop is to do next, decided between bursts.
#[derive(Clone, Copy, PartialEq, Eq, Structural, Debug)]
pub enum FetchStep {
    /// The cancellation signal fired: stop at once, with no error.
    Cancelled,
    /// Read the next burst of at most this many bytes from the body.
    Read(u32),
    /// Every byte of the chunk has arrived.
    Done,
}

/// What one burst of body bytes amounted to.
#[derive(Clone, Copy, PartialEq, Eq, Structural, Debug)]
pub enum BurstStatus {
    /// Bytes arrived and more are still owed.
    More,
    /// The chunk is now complete.
    Complete,
    /// The body dried up although bytes were still owed: the chunk is
    /// incomplete, which is an error, never a silent truncation.
    Short,
}

/// The fetch of one chunk: its byte range, its progress, and its buffer.
pub struct Download {
    /// Location of the resource; each fetch carries its own copy.
    pub url: String,
    /// Offset of the chunk's first byte within the resource.
    pub start: u64,
    /// Total bytes of the chunk. One range request carries the whole chunk,
    /// so the size is kept within 32 bits.
    pub size: u32,
    /// Bytes of the chunk received so far.
    pub bytes_read: u32,
    /// Upper bound on one burst read from the body.
    pub read_size: u32,
    /// The body bytes received so far, in arrival order.
    pub buffer: Vec<u8>,
}

impl Download {
    /// Internal consistency of a fetch: a nonempty range that ends within
    /// the addressable offsets, a positive burst bound, and a buffer that
    /// holds exactly the bytes received so far.
    pub open spec fn wf(self) -> bool {
        &&& 1 <= self.size
        &&& self.start + self.size as int - 1 <= u64::MAX as int
        &&& 1 <= self.read_size
        &&& self.bytes_read <= self.size
        &&& self.buffer@.len() == self.bytes_read
    }

    /// Bytes still owed before the chunk is complete, capped by the burst
    /// bound: the length of the next burst.
    pub open spec fn next_burst(self) -> int {
        if self.size - self.bytes_read < self.read_size {
            self.size - self.bytes_read
        } else {
            self.read_size as int
        }
    }

    /// A fresh fetch for the chunk of `size` bytes at offset `start`, with
    /// nothing received yet and the default burst bound of one mebibyte.
    pub fn new(url: String, start: u64, size: u32) -> (r: Download)
        requires
            1 <= size,
            start + size as int - 1 <= u64::MAX as int,
        ensures
            r.wf(),
            r.url@ == url@,
            r.start == start,
            r.size == size,
            r.bytes_read == 0,
            r.read_size == 1024 * 1024,
            r.buffer@ == Seq::<u8>::empty(),
    {
        Download {
            url,
            start,
            size,
            bytes_read: 0,
            read_size: 1024 * 1024,
            buffer: Vec::new(),
        }
    }

    /// Change the burst bound: the size of individual reads from the body.
    pub fn set_read_size(&mut self, size: u32)
        requires
            old(self).wf(),
            1 <= size,
        ensures
            final(self).wf(),
            *final(self) == (Download { read_size: size, ..*old(self) }),
    {
        self.read_size = size;
    }

    /// First and last byte offset of the range request that fetches this
    /// chunk: the bounds named in its range header.
    pub fn range_bounds(&self) -> (r: (u64, u64))
        requires
            self.wf(),
        ensures
            r.0 == self.start,
            r.1 == self.start + self.size - 1,
    {
        (self.start, self.start + (self.size - 1) as u64)
    }

    /// Decide the next move of the fetch loop. Completion is checked first;
    /// while bytes are owed, the cancellation signal is honoured before any
    /// further read, so a signalled fetch stops within one burst.
    pub fn step(&self, cancel_signalled: bool) -> (r: FetchStep)
        requires
            self.wf(),
        ensures
            self.bytes_read == self.size ==> r == FetchStep::Done,
            self.bytes_read < self.size && cancel_signalled ==> r == FetchStep::Cancelled,
            self.bytes_read < self.size && !cancel_signalled ==> (r matches FetchStep::Read(n)
                && n == self.next_burst() && 1 <= n),
    {
        if self.bytes_read == self.size {
            FetchStep::Done
        } else if cancel_signalled {
            FetchStep::Cancelled
        } else {
            let owed: u32 = self.size - self.bytes_read;
            let n: u32 = if owed < self.read_size {
                owed
            } else {
                self.read_size
            };
            FetchStep::Read(n)
        }
    }

    /// Take in one burst of body bytes. The buffer grows by exactly the
    /// burst, in order; an empty burst while bytes are still owed is the
    /// short-read error.
    pub fn on_burst(&mut self, data: &Vec<u8>) -> (r: BurstStatus)
        requires
            old(self).wf(),
            old(self).bytes_read < old(self).size,
            data@.len() <= old(self).size - old(self).bytes_read,
        ensures
            final(self).wf(),
            final(self).buffer@ == old(self).buffer@ + data@,
            final(self).bytes_read == old(self).bytes_read + data@.len(),
            final(self).url == old(self).url,
            final(self).start == old(self).start,
            final(self).size == old(self).size,
            final(self).read_size == old(self).read_size,
            r == BurstStatus::Complete <==> final(self).bytes_read == final(self).size,
            r == BurstStatus::Short <==> data@.len() == 0,
            r == BurstStatus::More <==> (0 < data@.len()
                && final(self).bytes_read < final(self).size),
    {
        let mut j: usize = 0;
        while j < data.len()
            invariant
                j <= data@.len(),
                data@.len() <= old(self).size - old(self).bytes_read,
                self.buffer@ == old(self).buffer@ + data@.take(j as int),
                self.bytes_read == old(self).bytes_read,
                self.size == old(self).size,
                self.url == old(self).url,
                self.start == old(self).start,
                self.read_size == old(self).read_size,
                old(self).wf(),
            decreases data@.len() - j,
        {
            self.buffer.push(data[j]);
            j = j + 1;
        }
        assert(data@.take(data@.len() as int) =~= data@);
        self.bytes_read = self.bytes_read + data.len() as u32;
        if self.bytes_read == self.size {
            BurstStatus::Complete
        } else if data.len() == 0 {
            BurstStatus::Short
        } else {
            BurstStatus::More
        }
    }

    /// Hand the finished chunk out: exactly `size` bytes, the bursts in
    /// arrival order, nothing else. Only a complete fetch has a buffer to
    /// give.
    pub fn take_buffer(self) -> (r: Vec<u8>)
        requires
            self.wf(),
            self.bytes_read == self.size,
        ensures
            r@ == self.buffer@,
            r@.len() == self.size,
    {
        self.buffer
    }
}

} // verus!
