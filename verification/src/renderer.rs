//! A software frame buffer: one RGBA cell per pixel, with clearing, clipped
//! rectangle filling and clipped single-pixel writes. Out-of-bounds writes
//! are silently dropped, never an error. Presenting the buffer on a native
//! surface is the host's business; the drawing logic itself is here.

use vstd::prelude::*;

verus! {

/// A color: four 8-bit channels.
#[derive(Clone, Copy, Debug, PartialEq, Eq, Structural)]
pub struct Rgba {
    pub r: u8,
    pub g: u8,
    pub b: u8,
    pub a: u8,
}

/// Widest and tallest frame the renderer accepts.
pub const FRAME_DIM_MAX: u32 = 0x4000;

/// Index of pixel `(x, y)` in row-major order in a frame of width `w`.
pub open spec fn pix(w: int, x: int, y: int) -> int {
    y * w + x
}

/// A software frame buffer in row-major order.
pub struct Renderer {
    pub frame: Vec<Rgba>,
    pub width: u32,
    pub height: u32,
}

impl Renderer {
    /// The frame holds exactly one cell per pixel.
    pub open spec fn wf(&self) -> bool {
        &&& self.frame@.len() == self.width * self.height
        &&& self.width <= FRAME_DIM_MAX
        &&& self.height <= FRAME_DIM_MAX
    }

    /// Frame width in pixels.
    pub open spec fn spec_width(&self) -> int {
        self.width as int
    }

    /// Frame height in pixels.
    pub open spec fn spec_height(&self) -> int {
        self.height as int
    }

    /// The color currently stored for pixel `(x, y)`.
    pub open spec fn pixel(&self, x: int, y: int) -> Rgba {
        self.frame@[pix(self.width as int, x, y)]
    }

    /// Whether `(x, y)` lies inside the frame.
    pub open spec fn valid_pixel(&self, x: int, y: int) -> bool {
        0 <= x < self.width && 0 <= y < self.height
    }

    /// A frame of the given size, all pixels opaque black.
    pub fn new(width: u32, height: u32) -> (r: Renderer)
        requires
            width <= FRAME_DIM_MAX,
            height <= FRAME_DIM_MAX,
        ensures
            r.wf(),
            r.spec_width() == width,
            r.spec_height() == height,
            forall|x: int, y: int|
                r.valid_pixel(x, y) ==> r.pixel(x, y) == (Rgba { r: 0, g: 0, b: 0, a: 255 }),
    {
        proof {
            assert(width * height <= 0x1000_0000) by (nonlinear_arith)
                requires width <= 0x4000 && height <= 0x4000;
        }
        let n = (width as usize) * (height as usize);
        let mut frame: Vec<Rgba> = Vec::new();
        let mut i: usize = 0;
        while i < n
            invariant
                i <= n,
                n == width * height,
                frame@.len() == i,
                forall|k: int|
                    0 <= k < i ==> frame@[k] == (Rgba { r: 0, g: 0, b: 0, a: 255 }),
            decreases n - i,
        {
            frame.push(Rgba { r: 0, g: 0, b: 0, a: 255 });
            i = i + 1;
        }
        let r = Renderer { frame, width, height };
        proof {
            assert forall|x: int, y: int| r.valid_pixel(x, y) implies r.pixel(x, y) == (Rgba {
                r: 0,
                g: 0,
                b: 0,
                a: 255,
            }) by {
                lemma_pix_in_range(width as int, height as int, x, y);
            }
        }
        r
    }

    /// Width in pixels.
    pub fn width(&self) -> (w: u32)
        ensures
            w == self.spec_width(),
    {
        self.width
    }

    /// Height in pixels.
    pub fn height(&self) -> (h: u32)
        ensures
            h == self.spec_height(),
    {
        self.height
    }

    /// Read one pixel.
    pub fn get_pixel(&self, x: u32, y: u32) -> (c: Rgba)
        requires
            self.wf(),
            x < self.spec_width(),
            y < self.spec_height(),
        ensures
            c == self.pixel(x as int, y as int),
    {
        proof {
            lemma_pix_in_range(self.width as int, self.height as int, x as int, y as int);
        }
        let idx = (y as usize) * (self.width as usize) + (x as usize);
        self.frame[idx]
    }

    /// The whole frame in row-major order, for the host to present.
    pub fn frame(&self) -> (f: &Vec<Rgba>)
        ensures
            f@ == self.frame@,
            f@.len() == self.spec_width() * self.spec_height() || !self.wf(),
    {
        &self.frame
    }

    /// Fill the whole frame with one color.
    pub fn clear(&mut self, color: Rgba)
        requires
            old(self).wf(),
        ensures
            final(self).wf(),
            final(self).spec_width() == old(self).spec_width(),
            final(self).spec_height() == old(self).spec_height(),
            forall|x: int, y: int|
                final(self).valid_pixel(x, y) ==> final(self).pixel(x, y) == color,
    {
        let n = self.frame.len();
        let mut i: usize = 0;
        while i < n
            invariant
                i <= n,
                self.frame@.len() == n,
                self.width == old(self).width,
                self.height == old(self).height,
                n == self.width * self.height,
                old(self).wf(),
                forall|k: int| 0 <= k < i ==> self.frame@[k] == color,
            decreases n - i,
        {
            self.frame[i] = color;
            i = i + 1;
        }
        proof {
            assert forall|x: int, y: int| self.valid_pixel(x, y) implies self.pixel(x, y)
                == color by {
                lemma_pix_in_range(self.width as int, self.height as int, x, y);
            }
        }
    }

    /// Write one pixel, dropped silently when `(x, y)` is out of bounds.
    pub fn draw_pixel(&mut self, x: i32, y: i32, color: Rgba)
        requires
            old(self).wf(),
        ensures
            final(self).wf(),
            final(self).spec_width() == old(self).spec_width(),
            final(self).spec_height() == old(self).spec_height(),
            forall|px: int, py: int|
                final(self).valid_pixel(px, py) ==> final(self).pixel(px, py) == (if px == x && py
                    == y {
                    color
                } else {
                    old(self).pixel(px, py)
                }),
    {
        if x >= 0 && (x as i64) < (self.width as i64) && y >= 0 && (y as i64) < (
        self.height as i64) {
            proof {
                lemma_pix_in_range(self.width as int, self.height as int, x as int, y as int);
            }
            let idx = (y as usize) * (self.width as usize) + (x as usize);
            self.frame[idx] = color;
            proof {
                assert forall|px: int, py: int| self.valid_pixel(px, py) implies self.pixel(
                    px,
                    py,
                ) == (if px == x && py == y {
                    color
                } else {
                    old(self).pixel(px, py)
                }) by {
                    lemma_pix_in_range(self.width as int, self.height as int, px, py);
                    if !(px == x && py == y) {
                        lemma_pix_injective(self.width as int, self.height as int, px, py, x as int, y as int);
                    }
                }
            }
        }
    }

    /// Fill an axis-aligned rectangle, clipped to the frame.
    pub fn draw_rect(&mut self, x: i32, y: i32, width: u32, height: u32, color: Rgba)
        requires
            old(self).wf(),
        ensures
            final(self).wf(),
            final(self).spec_width() == old(self).spec_width(),
            final(self).spec_height() == old(self).spec_height(),
            forall|px: int, py: int|
                final(self).valid_pixel(px, py) ==> final(self).pixel(px, py) == (if x <= px < x
                    + width && y <= py < y + height {
                    color
                } else {
                    old(self).pixel(px, py)
                }),
    {
        let mut dy: u32 = 0;
        while dy < height
            invariant
                old(self).wf(),
                self.wf(),
                self.width == old(self).width,
                self.height == old(self).height,
                dy <= height,
                forall|px: int, py: int|
                    self.valid_pixel(px, py) ==> self.pixel(px, py) == (if x <= px < x + width && y
                        <= py < y + dy {
                        color
                    } else {
                        old(self).pixel(px, py)
                    }),
            decreases height - dy,
        {
            let ghost row_entry = *self;
            let mut dx: u32 = 0;
            while dx < width
                invariant
                    old(self).wf(),
                    self.wf(),
                    self.width == old(self).width,
                    self.height == old(self).height,
                    dx <= width,
                    dy < height,
                    forall|px: int, py: int|
                        self.valid_pixel(px, py) ==> self.pixel(px, py) == (if x <= px < x + width
                            && y <= py < y + dy {
                            color
                        } else if py == y + dy && x <= px < x + dx {
                            color
                        } else {
                            old(self).pixel(px, py)
                        }),
                decreases width - dx,
            {
                let px = (x as i64) + (dx as i64);
                let py = (y as i64) + (dy as i64);
                if px >= 0 && px < (self.width as i64) && py >= 0 && py < (self.height as i64) {
                    proof {
                        lemma_pix_in_range(
                            self.width as int,
                            self.height as int,
                            px as int,
                            py as int,
                        );
                    }
                    let idx = (py as usize) * (self.width as usize) + (px as usize);
                    let ghost before = *self;
                    self.frame[idx] = color;
                    proof {
                        assert forall|qx: int, qy: int| self.valid_pixel(qx, qy) implies
                            self.pixel(qx, qy) == (if qx == px && qy == py {
                            color
                        } else {
                            before.pixel(qx, qy)
                        }) by {
                            lemma_pix_in_range(self.width as int, self.height as int, qx, qy);
                            if !(qx == px && qy == py) {
                                lemma_pix_injective(
                                    self.width as int,
                                    self.height as int,
                                    qx,
                                    qy,
                                    px as int,
                                    py as int,
                                );
                            }
                        }
                    }
                }
                dx = dx + 1;
            }
            dy = dy + 1;
        }
    }
}

/// In-bounds pixel coordinates map to an in-bounds frame index, and every
/// quantity involved stays far below `usize` range.
proof fn lemma_pix_in_range(w: int, h: int, x: int, y: int)
    requires
        0 <= x < w <= FRAME_DIM_MAX,
        0 <= y < h <= FRAME_DIM_MAX,
    ensures
        0 <= pix(w, x, y) < w * h,
        0 <= y * w <= 0x1000_0000,
        w * h <= 0x1000_0000,
{
    assert(y * w + x < w * h && 0 <= y * w <= 0x1000_0000 && w * h <= 0x1000_0000)
        by (nonlinear_arith)
        requires 0 <= x < w <= 0x4000 && 0 <= y < h <= 0x4000;
}

/// Distinct in-bounds pixel coordinates map to distinct frame indices.
proof fn lemma_pix_injective(w: int, h: int, x1: int, y1: int, x2: int, y2: int)
    requires
        0 <= x1 < w,
        0 <= y1 < h,
        0 <= x2 < w,
        0 <= y2 < h,
        !(x1 == x2 && y1 == y2),
    ensures
        pix(w, x1, y1) != pix(w, x2, y2),
{
    assert(y1 * w + x1 != y2 * w + x2) by (nonlinear_arith)
        requires
            0 <= x1 < w && 0 <= y1 < h && 0 <= x2 < w && 0 <= y2 < h && !(x1 == x2 && y1 == y2);
}

} // verus!
