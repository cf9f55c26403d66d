//! The pixel buffer: a rectangular, row-major array of packed 0xRRGGBB
//! colors with bounds-checked writes and bulk clear.
//!
//! `set_pixel` is the single bounds-safety gate used by every drawing
//! primitive: coordinates outside `[0, width) x [0, height)` leave the
//! buffer unchanged, they are never an error.

use vstd::prelude::*;

verus! {

/// A `width x height` pixel buffer. `buffer[y * width + x]` is the packed
/// 24-bit color of the pixel at column `x` of row `y`; the origin is the
/// top-left corner.
pub struct Framebuffer {
    pub width: usize,
    pub height: usize,
    pub buffer: Vec<u32>,
}

/// The buffer holds exactly one color per coordinate of the rectangle.
pub open spec fn fb_wf(fb: Framebuffer) -> bool {
    fb.buffer@.len() == fb.width * fb.height
}

/// Is `(x, y)` a coordinate of a `w x h` rectangle?
pub open spec fn in_bounds(w: int, h: int, x: int, y: int) -> bool {
    0 <= x < w && 0 <= y < h
}

/// Row-major index of `(x, y)`.
pub open spec fn pix_idx(w: int, x: int, y: int) -> int {
    y * w + x
}

/// The buffer after a bounds-checked write of `c` at `(x, y)`: updated in
/// bounds, unchanged otherwise. This is the model of `set_pixel`, and every
/// drawing primitive's contract is built from it.
pub open spec fn put_pixel(buf: Seq<u32>, w: int, h: int, x: int, y: int, c: u32) -> Seq<u32> {
    if in_bounds(w, h, x, y) {
        buf.update(pix_idx(w, x, y), c)
    } else {
        buf
    }
}

/// A coordinate of the rectangle has its row-major index inside the buffer.
pub proof fn lemma_pix_idx_in_range(w: int, h: int, x: int, y: int)
    requires
        in_bounds(w, h, x, y),
    ensures
        0 <= pix_idx(w, x, y) < w * h,
{
    assert(y * w + x < w * h && 0 <= y * w) by (nonlinear_arith)
        requires
            0 <= x < w,
            0 <= y < h,
    ;
}

impl Framebuffer {
    /// Creates a `width x height` buffer with every pixel black (zero).
    pub fn new(width: usize, height: usize) -> (fb: Framebuffer)
        requires
            width >= 1,
            height >= 1,
            width * height <= usize::MAX,
        ensures
            fb.width == width,
            fb.height == height,
            fb_wf(fb),
            forall|i: int| 0 <= i < fb.buffer@.len() ==> fb.buffer@[i] == 0u32,
    {
        let n = width * height;
        let mut buffer: Vec<u32> = Vec::new();
        let mut i: usize = 0;
        while i < n
            invariant
                i <= n,
                buffer@.len() == i,
                forall|j: int| 0 <= j < i ==> buffer@[j] == 0u32,
            decreases n - i,
        {
            buffer.push(0);
            i = i + 1;
        }
        Framebuffer { width, height, buffer }
    }

    /// Overwrites every pixel with `color`.
    pub fn clear(&mut self, color: u32)
        requires
            fb_wf(*old(self)),
        ensures
            fb_wf(*final(self)),
            final(self).width == old(self).width,
            final(self).height == old(self).height,
            final(self).buffer@.len() == old(self).buffer@.len(),
            forall|i: int| 0 <= i < final(self).buffer@.len() ==> final(self).buffer@[i] == color,
    {
        let n = self.buffer.len();
        let mut i: usize = 0;
        while i < n
            invariant
                i <= n,
                self.buffer@.len() == n,
                self.width == old(self).width,
                self.height == old(self).height,
                fb_wf(*self),
                forall|j: int| 0 <= j < i ==> self.buffer@[j] == color,
            decreases n - i,
        {
            self.buffer[i] = color;
            i = i + 1;
        }
    }

    /// Writes `color` at `(x, y)` if that lies inside the buffer; otherwise
    /// leaves the buffer exactly as it was. Signed coordinates are accepted
    /// so callers may pass off-buffer values safely.
    pub fn set_pixel(&mut self, x: isize, y: isize, color: u32)
        requires
            fb_wf(*old(self)),
        ensures
            fb_wf(*final(self)),
            final(self).width == old(self).width,
            final(self).height == old(self).height,
            final(self).buffer@ == put_pixel(
                old(self).buffer@,
                old(self).width as int,
                old(self).height as int,
                x as int,
                y as int,
                color,
            ),
            !in_bounds(old(self).width as int, old(self).height as int, x as int, y as int)
                ==> final(self).buffer@ == old(self).buffer@,
    {
        if x >= 0 && (x as usize) < self.width && y >= 0 && (y as usize) < self.height {
            let len = self.buffer.len();
            proof {
                lemma_pix_idx_in_range(
                    self.width as int,
                    self.height as int,
                    x as int,
                    y as int,
                );
                assert((y as int) * (self.width as int) + (x as int) < len as int);
            }
            let idx: usize = (y as usize) * self.width + (x as usize);
            self.buffer[idx] = color;
        }
    }
}

} // verus!
