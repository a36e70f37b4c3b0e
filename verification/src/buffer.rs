//! In-memory RGB pixel buffers.
//!
//! A buffer holds `width * height` pixels, three channel bytes per pixel,
//! rows top to bottom, pixels left to right within a row, channels
//! interleaved. The core only ever addresses a buffer through coordinates
//! and regions; decoding an image file into a buffer and encoding one back
//! belong to the binary around the library.

use vstd::prelude::*;
use vstd::slice::SliceAdditionalExecFns;
use crate::vec2::Vec2;

verus! {

/// An RGB image held as one flat byte vector.
#[derive(Debug, Clone, PartialEq, Eq)]
pub struct PixelBuffer {
    /// Width in pixels.
    pub width: usize,
    /// Height in pixels.
    pub height: usize,
    /// `width * height * 3` channel bytes in row-major, RGB-interleaved order.
    pub data: Vec<u8>,
}

impl PixelBuffer {
    /// The data length matches the dimensions.
    pub open spec fn wf(self) -> bool {
        self.data@.len() == self.width * self.height * 3
    }

    /// The flat index of channel `c` of the pixel at (`x`, `y`).
    pub open spec fn pix_index(self, x: int, y: int, c: int) -> int {
        (y * self.width + x) * 3 + c
    }

    /// Channel `c` of the pixel at (`x`, `y`).
    pub open spec fn pix(self, x: int, y: int, c: int) -> u8 {
        self.data@[self.pix_index(x, y, c)]
    }

    /// Whether (`x`, `y`) addresses a pixel of the buffer.
    pub open spec fn in_bounds(self, x: int, y: int) -> bool {
        0 <= x < self.width && 0 <= y < self.height
    }

    /// A flat channel index of an in-bounds pixel addresses the data vector.
    pub proof fn lemma_pix_index_bounds(self, x: int, y: int, c: int)
        requires
            self.wf(),
            self.in_bounds(x, y),
            0 <= c < 3,
        ensures
            0 <= self.pix_index(x, y, c) < self.data@.len(),
    {
        assert((y * self.width + x) * 3 + c < (self.width as int) * (self.height as int) * 3)
            by (nonlinear_arith)
            requires
                0 <= x < self.width,
                0 <= y < self.height,
                0 <= c < 3,
        ;
    }

    /// Distinct (pixel, channel) addresses have distinct flat indices.
    pub proof fn lemma_pix_index_injective(self, x1: int, y1: int, c1: int, x2: int, y2: int, c2: int)
        requires
            self.in_bounds(x1, y1),
            self.in_bounds(x2, y2),
            0 <= c1 < 3,
            0 <= c2 < 3,
            self.pix_index(x1, y1, c1) == self.pix_index(x2, y2, c2),
        ensures
            x1 == x2 && y1 == y2 && c1 == c2,
    {
        let w = self.width as int;
        let i = self.pix_index(x1, y1, c1);
        vstd::arithmetic::div_mod::lemma_fundamental_div_mod_converse_div(
            i,
            3,
            y1 * w + x1,
            c1,
        );
        vstd::arithmetic::div_mod::lemma_fundamental_div_mod_converse_mod(i, 3, y1 * w + x1, c1);
        vstd::arithmetic::div_mod::lemma_fundamental_div_mod_converse_div(
            i,
            3,
            y2 * w + x2,
            c2,
        );
        vstd::arithmetic::div_mod::lemma_fundamental_div_mod_converse_mod(i, 3, y2 * w + x2, c2);
        let p = y1 * w + x1;
        vstd::arithmetic::div_mod::lemma_fundamental_div_mod_converse_div(p, w, y1, x1);
        vstd::arithmetic::div_mod::lemma_fundamental_div_mod_converse_mod(p, w, y1, x1);
        vstd::arithmetic::div_mod::lemma_fundamental_div_mod_converse_div(p, w, y2, x2);
        vstd::arithmetic::div_mod::lemma_fundamental_div_mod_converse_mod(p, w, y2, x2);
    }

    /// A black buffer of the given dimensions. The dimensions must describe a
    /// data length that fits in `usize`.
    pub fn new(size: Vec2<usize>) -> (r: PixelBuffer)
        requires
            size.x * size.y * 3 <= usize::MAX,
        ensures
            r.wf(),
            r.width == size.x,
            r.height == size.y,
            forall|i: int| 0 <= i < r.data@.len() ==> r.data@[i] == 0u8,
    {
        proof {
            assert(size.x * size.y >= 0 && size.x * size.y * 3 >= 0) by (nonlinear_arith);
        }
        let n = size.x * size.y * 3;
        let mut data: Vec<u8> = Vec::new();
        let mut i: usize = 0;
        while i < n
            invariant
                0 <= i <= n,
                data@.len() == i,
                forall|j: int| 0 <= j < i ==> data@[j] == 0u8,
            decreases n - i,
        {
            data.push(0u8);
            i = i + 1;
        }
        PixelBuffer { width: size.x, height: size.y, data }
    }

    /// Wraps a raw channel vector as a buffer of the given dimensions; the
    /// vector's length must be exactly `width * height * 3`, else nothing is
    /// built. This is the doorway for pixel data decoded outside the core.
    pub fn from_raw(size: Vec2<usize>, data: Vec<u8>) -> (r: Option<PixelBuffer>)
        ensures
            match r {
                Some(b) => b.width == size.x && b.height == size.y && b.data@ == data@ && b.wf()
                    && data@.len() == size.x * size.y * 3,
                None => data@.len() != size.x * size.y * 3,
            },
    {
        proof {
            assert(data.len() == data@.len());
            assert(size.x * size.y >= 0 && size.x * size.y * 3 >= size.x * size.y)
                by (nonlinear_arith);
        }
        let px = match size.x.checked_mul(size.y) {
            Some(p) => p,
            None => {
                return None;
            },
        };
        let n = match px.checked_mul(3) {
            Some(n) => n,
            None => {
                return None;
            },
        };
        if data.len() == n {
            Some(PixelBuffer { width: size.x, height: size.y, data })
        } else {
            None
        }
    }

    /// The buffer's dimensions in pixels.
    pub fn size(&self) -> (r: Vec2<usize>)
        ensures
            r.x == self.width,
            r.y == self.height,
    {
        Vec2 { x: self.width, y: self.height }
    }

    /// The three channels of the pixel at `p`.
    pub fn get_pixel(&self, p: Vec2<usize>) -> (r: (u8, u8, u8))
        requires
            self.wf(),
            self.in_bounds(p.x as int, p.y as int),
        ensures
            r.0 == self.pix(p.x as int, p.y as int, 0),
            r.1 == self.pix(p.x as int, p.y as int, 1),
            r.2 == self.pix(p.x as int, p.y as int, 2),
    {
        proof {
            assert(self.data.len() == self.data@.len());
            self.lemma_pix_index_bounds(p.x as int, p.y as int, 0);
            self.lemma_pix_index_bounds(p.x as int, p.y as int, 2);
        }
        let base = (p.y * self.width + p.x) * 3;
        (self.data[base], self.data[base + 1], self.data[base + 2])
    }

    /// Overwrites the pixel at `p` with the three given channels; every other
    /// pixel keeps its value, and the dimensions do not change.
    pub fn set_pixel(&mut self, p: Vec2<usize>, v: (u8, u8, u8))
        requires
            old(self).wf(),
            old(self).in_bounds(p.x as int, p.y as int),
        ensures
            final(self).wf(),
            final(self).width == old(self).width,
            final(self).height == old(self).height,
            forall|x: int, y: int, c: int|
                final(self).in_bounds(x, y) && 0 <= c < 3 ==> final(self).pix(x, y, c) == (if x
                    == p.x as int && y == p.y as int {
                    (if c == 0 {
                        v.0
                    } else if c == 1 {
                        v.1
                    } else {
                        v.2
                    })
                } else {
                    old(self).pix(x, y, c)
                }),
    {
        proof {
            assert(self.data.len() == self.data@.len());
            self.lemma_pix_index_bounds(p.x as int, p.y as int, 0);
            self.lemma_pix_index_bounds(p.x as int, p.y as int, 2);
        }
        let base = (p.y * self.width + p.x) * 3;
        self.data.set(base, v.0);
        self.data.set(base + 1, v.1);
        self.data.set(base + 2, v.2);
        proof {
            let news = *self;
            let olds = *old(self);
            assert forall|x: int, y: int, c: int|
                news.in_bounds(x, y) && 0 <= c < 3 implies news.pix(x, y, c) == (if x == p.x as int
                && y == p.y as int {
                (if c == 0 {
                    v.0
                } else if c == 1 {
                    v.1
                } else {
                    v.2
                })
            } else {
                olds.pix(x, y, c)
            }) by {
                olds.lemma_pix_index_bounds(x, y, c);
                if x == p.x as int && y == p.y as int {
                } else {
                    if news.pix_index(x, y, c) == olds.pix_index(p.x as int, p.y as int, 0) {
                        olds.lemma_pix_index_injective(x, y, c, p.x as int, p.y as int, 0);
                    }
                    if news.pix_index(x, y, c) == olds.pix_index(p.x as int, p.y as int, 1) {
                        olds.lemma_pix_index_injective(x, y, c, p.x as int, p.y as int, 1);
                    }
                    if news.pix_index(x, y, c) == olds.pix_index(p.x as int, p.y as int, 2) {
                        olds.lemma_pix_index_injective(x, y, c, p.x as int, p.y as int, 2);
                    }
                }
            }
        }
    }

    /// Hands the raw channel bytes out, for encoding outside the core.
    pub fn into_raw(self) -> (r: Vec<u8>)
        ensures
            r@ == self.data@,
    {
        self.data
    }
}

} // verus!
