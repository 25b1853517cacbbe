//! A growable backing buffer for per-output canvases, sized once for the
//! largest output seen so far and never shrunk.

use vstd::prelude::*;
use crate::compositor::buf_len;

verus! {

/// Default backing capacity: a common full-screen canvas.
pub const DEFAULT_CAPACITY: usize = 1920 * 1080 * 4;

/// Owns a byte buffer that only ever grows, and hands out zeroed
/// destination canvases of exactly the requested pixel size.
pub struct CanvasAllocator {
    buf: Vec<u8>,
}

impl CanvasAllocator {
    /// Bytes currently backed.
    pub closed spec fn capacity(&self) -> int {
        self.buf.len() as int
    }

    /// The capacity, for callers that must check a request first.
    pub fn capacity_bytes(&self) -> (n: usize)
        ensures
            n as int == self.capacity(),
    {
        self.buf.len()
    }

    /// A fresh allocator at the generous default capacity, so first use at
    /// a common resolution does not reallocate.
    pub fn new() -> (r: Self)
        ensures
            r.capacity() == DEFAULT_CAPACITY as int,
    {
        let mut buf: Vec<u8> = Vec::new();
        while buf.len() < DEFAULT_CAPACITY
            invariant
                buf.len() <= DEFAULT_CAPACITY,
            decreases DEFAULT_CAPACITY - buf.len(),
        {
            buf.push(0);
        }
        CanvasAllocator { buf }
    }

    /// Grows (never shrinks) the backing buffer until a `width` by
    /// `height` canvas fits.
    pub fn ensure_capacity(&mut self, width: u32, height: u32)
        requires
            4 * ((width as int) * (height as int)) <= usize::MAX,
        ensures
            final(self).capacity() >= old(self).capacity(),
            final(self).capacity() >= buf_len(width as int, height as int),
    {
        let needed: usize = 4 * ((width as usize) * (height as usize));
        let ghost orig = self.buf.len() as int;
        while self.buf.len() < needed
            invariant
                orig <= self.buf.len() as int,
                self.buf.len() <= needed || orig == self.buf.len() as int,
            decreases needed - self.buf.len(),
        {
            self.buf.push(0);
        }
    }

    /// A zeroed destination canvas of exactly `width` by `height` pixels.
    /// The caller must have sized the allocator first.
    pub fn canvas(&self, width: u32, height: u32) -> (r: Vec<u8>)
        requires
            buf_len(width as int, height as int) <= self.capacity(),
        ensures
            r.len() == buf_len(width as int, height as int),
            forall|i: int| 0 <= i < r.len() ==> r@[i] == 0,
    {
        let needed: usize = 4 * ((width as usize) * (height as usize));
        let mut out: Vec<u8> = Vec::new();
        while out.len() < needed
            invariant
                out.len() <= needed,
                forall|i: int| 0 <= i < out.len() ==> out@[i] == 0,
            decreases needed - out.len(),
        {
            out.push(0);
        }
        out
    }
}

} // verus!
