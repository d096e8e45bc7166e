//! A pixel canvas: a row-major buffer of one packed RGBA value per
//! pixel, sized at construction.  Encoding the buffer to a file format
//! is left to callers.

use vstd::prelude::*;

verus! {

pub struct Canvas {
    pub size: (u16, u16),
    pub buffer: Vec<u32>,
}

/// The buffer holds exactly one entry per pixel.
pub open spec fn canvas_wf(c: Canvas) -> bool {
    c.buffer@.len() == c.size.0 as int * c.size.1 as int
}

/// The four bytes of `x` in reverse order: a color packed on the
/// little-endian layout becomes the big-endian byte sequence that
/// byte-oriented encoders expect.
pub open spec fn be_of(x: u32) -> u32 {
    ((x & 0xFF) << 24) | (((x >> 8) & 0xFF) << 16) | (((x >> 16) & 0xFF) << 8) | ((x >> 24) & 0xFF)
}

/// Reversing the byte order twice gives the original value back.
pub proof fn lemma_be_involution(x: u32)
    ensures
        be_of(be_of(x)) == x,
{
    assert(((((x & 0xFF) << 24) | (((x >> 8) & 0xFF) << 16) | (((x >> 16) & 0xFF) << 8) | ((x
        >> 24) & 0xFF)) & 0xFF) << 24 | ((((((x & 0xFF) << 24) | (((x >> 8) & 0xFF) << 16) | (((x
        >> 16) & 0xFF) << 8) | ((x >> 24) & 0xFF)) >> 8) & 0xFF) << 16) | ((((((x & 0xFF) << 24)
        | (((x >> 8) & 0xFF) << 16) | (((x >> 16) & 0xFF) << 8) | ((x >> 24) & 0xFF)) >> 16)
        & 0xFF) << 8) | (((((x & 0xFF) << 24) | (((x >> 8) & 0xFF) << 16) | (((x >> 16) & 0xFF)
        << 8) | ((x >> 24) & 0xFF)) >> 24) & 0xFF) == x) by (bit_vector);
}

impl Canvas {
    /// A canvas of `w` by `h` pixels, zero-filled.
    pub fn new(w: u16, h: u16) -> (c: Canvas)
        ensures
            c.size.0 == w,
            c.size.1 == h,
            canvas_wf(c),
            forall|i: int| 0 <= i < c.buffer@.len() ==> c.buffer@[i] == 0u32,
    {
        proof {
            assert(w as int * h as int <= 65535 * 65535) by (nonlinear_arith)
                requires w <= 65535, h <= 65535;
        }
        let n = (w as usize) * (h as usize);
        let mut buffer: Vec<u32> = Vec::new();
        let mut i: usize = 0;
        while i < n
            invariant
                i <= n,
                buffer@.len() == i,
                forall|j: int| 0 <= j < i ==> buffer@[j] == 0u32,
            decreases n - i,
        {
            buffer.push(0);
            i += 1;
        }
        Canvas { size: (w, h), buffer }
    }

    /// The packed color of the pixel at `(x, y)`.
    pub fn pixel_at(&self, x: u16, y: u16) -> (p: u32)
        requires
            canvas_wf(*self),
            x < self.size.0,
            y < self.size.1,
        ensures
            p == self.buffer@[y as int * self.size.0 as int + x as int],
    {
        proof {
            lemma_pixel_index(x as int, y as int, self.size.0 as int, self.size.1 as int);
        }
        self.buffer[(y as usize) * (self.size.0 as usize) + (x as usize)]
    }

    /// Overwrite the pixel at `(x, y)` with the packed color `v`.
    pub fn set_pixel(&mut self, x: u16, y: u16, v: u32)
        requires
            canvas_wf(*old(self)),
            x < old(self).size.0,
            y < old(self).size.1,
        ensures
            final(self).size == old(self).size,
            canvas_wf(*final(self)),
            final(self).buffer@ == old(self).buffer@.update(
                y as int * old(self).size.0 as int + x as int,
                v,
            ),
    {
        proof {
            lemma_pixel_index(x as int, y as int, self.size.0 as int, self.size.1 as int);
        }
        let idx = (y as usize) * (self.size.0 as usize) + (x as usize);
        self.buffer.set(idx, v);
    }

    /// Fill every pixel with the packed color `col`.
    pub fn fill_with(&mut self, col: u32)
        ensures
            final(self).size == old(self).size,
            final(self).buffer@.len() == old(self).buffer@.len(),
            forall|i: int| 0 <= i < final(self).buffer@.len() ==> final(self).buffer@[i] == col,
    {
        let n = self.buffer.len();
        let mut i: usize = 0;
        while i < n
            invariant
                i <= n,
                self.size == old(self).size,
                self.buffer@.len() == n,
                forall|j: int| 0 <= j < i ==> self.buffer@[j] == col,
            decreases n - i,
        {
            self.buffer.set(i, col);
            i += 1;
        }
    }

    /// Reverse the byte order of every pixel in place, turning the
    /// little-endian packing into the byte sequence an encoder reads.
    pub fn to_be(&mut self)
        ensures
            final(self).size == old(self).size,
            final(self).buffer@.len() == old(self).buffer@.len(),
            forall|i: int| 0 <= i < final(self).buffer@.len() ==> final(self).buffer@[i] == be_of(
                old(self).buffer@[i],
            ),
    {
        let n = self.buffer.len();
        let mut i: usize = 0;
        while i < n
            invariant
                i <= n,
                self.size == old(self).size,
                self.buffer@.len() == n,
                n == old(self).buffer@.len(),
                forall|j: int| 0 <= j < i ==> self.buffer@[j] == be_of(old(self).buffer@[j]),
                forall|j: int| i <= j < n ==> self.buffer@[j] == old(self).buffer@[j],
            decreases n - i,
        {
            let x = self.buffer[i];
            let swapped = ((x & 0xFF) << 24) | (((x >> 8) & 0xFF) << 16) | (((x >> 16) & 0xFF)
                << 8) | ((x >> 24) & 0xFF);
            self.buffer.set(i, swapped);
            i += 1;
        }
    }
}

/// Row-major pixel indices stay inside the buffer.
proof fn lemma_pixel_index(x: int, y: int, w: int, h: int)
    requires
        0 <= x < w,
        0 <= y < h,
        w <= 65535,
        h <= 65535,
    ensures
        0 <= y * w + x < h * w,
        y * w + x < w * h,
        y * w + x < 4294967295,
{
    assert(0 <= y * w + x < h * w && y * w + x < w * h && y * w + x < 4294967295)
        by (nonlinear_arith)
        requires 0 <= x < w, 0 <= y < h, w <= 65535, h <= 65535;
}

} // verus!
