//! An owned width x height RGBA8 pixel buffer with bounds-checked pixel
//! access and clamped crop extraction.

use vstd::prelude::*;

verus! {

/// One RGBA8 pixel value.
#[derive(Clone, Copy, PartialEq, Eq, Structural, Debug)]
pub struct Rgba {
    pub r: u8,
    pub g: u8,
    pub b: u8,
    pub a: u8,
}

/// The pixel whose four bytes start at offset `off` of a raw RGBA8 byte
/// sequence.
pub open spec fn pixel_at(s: Seq<u8>, off: int) -> Rgba {
    Rgba { r: s[off], g: s[off + 1], b: s[off + 2], a: s[off + 3] }
}

/// Start of a crop rectangle along one axis, clamped into the canvas:
/// a start beyond the edge is pulled back to the last pixel.
pub open spec fn crop_start(dim: u32, pos: u32) -> int {
    if pos < dim {
        pos as int
    } else {
        dim - 1
    }
}

/// Extent of a crop rectangle along one axis: the requested extent
/// clamped to at least one pixel and to what lies between the clamped
/// start and the edge.
pub open spec fn crop_len(dim: u32, pos: u32, want: u32) -> int {
    let avail = dim - crop_start(dim, pos);
    if want == 0 {
        1
    } else if want <= avail {
        want as int
    } else {
        avail
    }
}

/// The pixel bytes of the clamped crop rectangle of an RGBA8 buffer of
/// dimensions `sw` x `sh`, rows top to bottom.
pub open spec fn cropped_pixels(src: Seq<u8>, sw: u32, sh: u32, x: u32, y: u32, w: u32, h: u32) -> Seq<
    u8,
> {
    let x0 = crop_start(sw, x);
    let y0 = crop_start(sh, y);
    let cw = crop_len(sw, x, w);
    let ch = crop_len(sh, y, h);
    Seq::new(
        (cw * ch * 4) as nat,
        |k: int|
            {
                let q = k / 4;
                let c = k % 4;
                let i = q % cw;
                let j = q / cw;
                src[((y0 + j) * sw + (x0 + i)) * 4 + c]
            },
    )
}

/// An owned pixel buffer. The `pixels` vector stores the rows top to
/// bottom, each pixel as four bytes in r, g, b, a order.
pub struct Canvas {
    pub width: u32,
    pub height: u32,
    pub pixels: Vec<u8>,
}

impl Canvas {
    /// Well-formedness: dimensions are nonzero and the buffer holds
    /// exactly `width * height` four-byte pixels.
    pub open spec fn wf(self) -> bool {
        1 <= self.width && 1 <= self.height
            && self.pixels@.len() == self.width * self.height * 4
            && self.width * self.height * 4 <= isize::MAX
    }

    pub open spec fn in_bounds(self, x: int, y: int) -> bool {
        0 <= x < self.width && 0 <= y < self.height
    }

    /// Byte offset of pixel (x, y).
    pub open spec fn off(self, x: int, y: int) -> int {
        (y * self.width + x) * 4
    }

    /// The pixel value stored at (x, y).
    pub open spec fn pix(self, x: int, y: int) -> Rgba {
        pixel_at(self.pixels@, self.off(x, y))
    }

    /// Two canvases agree pixel for pixel.
    pub open spec fn same_image(self, other: Canvas) -> bool {
        self.width == other.width && self.height == other.height
            && self.pixels@ == other.pixels@
    }

    proof fn lemma_off_in_range(self, x: int, y: int)
        requires
            self.wf(),
            self.in_bounds(x, y),
        ensures
            0 <= self.off(x, y),
            self.off(x, y) + 4 <= self.pixels@.len(),
            0 <= y * self.width + x,
            (y * self.width + x) * 4 + 4 <= self.pixels@.len(),
            self.pixels@.len() <= usize::MAX,
    {
        vstd::std_specs::vec::axiom_spec_len(&self.pixels);
        let w = self.width as int;
        let h = self.height as int;
        assert((y * w + x) * 4 + 4 <= w * h * 4) by (nonlinear_arith)
            requires
                0 <= x < w,
                0 <= y < h,
        ;
        assert(0 <= (y * w + x) * 4) by (nonlinear_arith)
            requires
                0 <= x,
                0 <= y,
                0 < w,
        ;
    }

    /// Create a canvas of the given dimensions with every pixel set to
    /// `fill`. Fails exactly on zero dimensions or on a buffer size that
    /// does not fit in memory.
    pub fn create(width: u32, height: u32, fill: Rgba) -> (r: Option<Canvas>)
        ensures
            r is Some <==> (1 <= width && 1 <= height && width * height * 4 <= isize::MAX),
            r matches Some(c) ==> {
                &&& c.wf()
                &&& c.width == width
                &&& c.height == height
                &&& forall|x: int, y: int|
                    c.in_bounds(x, y) ==> #[trigger] c.pix(x, y) == fill
            },
    {
        if width == 0 || height == 0 {
            return None;
        }
        let count_opt = (width as usize).checked_mul(height as usize);
        let total_opt = match count_opt {
            Some(count) => count.checked_mul(4),
            None => None,
        };
        let total = match total_opt {
            Some(t) => t,
            None => {
                proof {
                    assert(width * height * 4 > usize::MAX) by (nonlinear_arith)
                        requires
                            width * height > usize::MAX
                                || (width * height <= usize::MAX && width * height * 4 > usize::MAX),
                    ;
                }
                return None;
            },
        };
        if total > (isize::MAX as usize) {
            return None;
        }
        let mut pixels: Vec<u8> = Vec::new();
        let mut i: usize = 0;
        while i < total
            invariant
                total == width * height * 4,
                i % 4 == 0,
                i <= total,
                pixels@.len() == i,
                forall|k: int|
                    0 <= k < i ==> pixels@[k] == (if k % 4 == 0 {
                        fill.r
                    } else if k % 4 == 1 {
                        fill.g
                    } else if k % 4 == 2 {
                        fill.b
                    } else {
                        fill.a
                    }),
            decreases total - i,
        {
            pixels.push(fill.r);
            pixels.push(fill.g);
            pixels.push(fill.b);
            pixels.push(fill.a);
            i = i + 4;
        }
        let c = Canvas { width, height, pixels };
        proof {
            assert forall|x: int, y: int| c.in_bounds(x, y) implies #[trigger] c.pix(x, y)
                == fill by {
                c.lemma_off_in_range(x, y);
                assert(c.off(x, y) % 4 == 0) by (nonlinear_arith);
            }
        }
        Some(c)
    }

    pub fn get_width(&self) -> (r: u32)
        ensures
            r == self.width,
    {
        self.width
    }

    pub fn get_height(&self) -> (r: u32)
        ensures
            r == self.height,
    {
        self.height
    }

    /// Bounds-checked pixel read; `None` exactly when (x, y) lies outside
    /// the canvas.
    pub fn get_pixel(&self, x: u32, y: u32) -> (r: Option<Rgba>)
        requires
            self.wf(),
        ensures
            r is Some <==> self.in_bounds(x as int, y as int),
            r matches Some(p) ==> p == self.pix(x as int, y as int),
    {
        if x >= self.width || y >= self.height {
            return None;
        }
        proof {
            self.lemma_off_in_range(x as int, y as int);
        }
        let off = (y as usize * self.width as usize + x as usize) * 4;
        Some(
            Rgba {
                r: self.pixels[off],
                g: self.pixels[off + 1],
                b: self.pixels[off + 2],
                a: self.pixels[off + 3],
            },
        )
    }

    /// Bounds-checked pixel write; a write outside the canvas is a no-op.
    pub fn set_pixel(&mut self, x: u32, y: u32, color: Rgba)
        requires
            old(self).wf(),
        ensures
            final(self).wf(),
            final(self).width == old(self).width,
            final(self).height == old(self).height,
            old(self).in_bounds(x as int, y as int) ==> final(self).pix(x as int, y as int)
                == color,
            forall|i: int, j: int|
                old(self).in_bounds(i, j) && !(i == x && j == y) ==> #[trigger] final(self).pix(
                    i,
                    j,
                ) == old(self).pix(i, j),
            !old(self).in_bounds(x as int, y as int) ==> *final(self) == *old(self),
    {
        if x >= self.width || y >= self.height {
            return ;
        }
        proof {
            self.lemma_off_in_range(x as int, y as int);
        }
        let off = (y as usize * self.width as usize + x as usize) * 4;
        self.pixels[off] = color.r;
        self.pixels[off + 1] = color.g;
        self.pixels[off + 2] = color.b;
        self.pixels[off + 3] = color.a;
        proof {
            let c = *self;
            let o = *old(self);
            assert forall|i: int, j: int| o.in_bounds(i, j) && !(i == x && j == y) implies #[trigger] c.pix(
                i,
                j,
            ) == o.pix(i, j) by {
                o.lemma_off_in_range(i, j);
                o.lemma_off_distinct(i, j, x as int, y as int);
            }
        }
    }

    /// An identical, independently owned copy of the canvas.
    pub fn duplicate(&self) -> (r: Canvas)
        ensures
            r.same_image(*self),
            r.wf() == self.wf(),
    {
        let pixels = self.pixels.clone();
        proof {
            assert forall|i: int| 0 <= i < self.pixels@.len() implies pixels@[i]
                == self.pixels@[i] by {
                assert(vstd::pervasive::cloned::<u8>(self.pixels@[i], pixels@[i]));
            }
            assert(pixels@ =~= self.pixels@);
        }
        Canvas { width: self.width, height: self.height, pixels }
    }

    /// Horizontal start of the crop rectangle after clamping into the
    /// canvas.
    pub open spec fn crop_x0(self, x: u32) -> int {
        crop_start(self.width, x)
    }

    pub open spec fn crop_y0(self, y: u32) -> int {
        crop_start(self.height, y)
    }

    /// Width of the crop result: the requested width clamped to at least
    /// one pixel and to the part of the canvas right of the start.
    pub open spec fn crop_w(self, x: u32, w: u32) -> int {
        crop_len(self.width, x, w)
    }

    pub open spec fn crop_h(self, y: u32, h: u32) -> int {
        crop_len(self.height, y, h)
    }

    /// Extract the sub-rectangle at (x, y) of size w x h, clamped to the
    /// canvas bounds and to a nonzero size.
    pub fn crop(&self, x: u32, y: u32, w: u32, h: u32) -> (r: Canvas)
        requires
            self.wf(),
        ensures
            r.wf(),
            r.width == self.crop_w(x, w),
            r.height == self.crop_h(y, h),
            forall|i: int, j: int|
                r.in_bounds(i, j) ==> #[trigger] r.pix(i, j) == self.pix(
                    self.crop_x0(x) + i,
                    self.crop_y0(y) + j,
                ),
            r.pixels@ == cropped_pixels(self.pixels@, self.width, self.height, x, y, w, h),
    {
        let cx: u32 = if x < self.width {
            x
        } else {
            self.width - 1
        };
        let cy: u32 = if y < self.height {
            y
        } else {
            self.height - 1
        };
        let availw: u32 = self.width - cx;
        let availh: u32 = self.height - cy;
        let cw: u32 = if w == 0 {
            1
        } else if w <= availw {
            w
        } else {
            availw
        };
        let ch: u32 = if h == 0 {
            1
        } else if h <= availh {
            h
        } else {
            availh
        };
        let mut out: Vec<u8> = Vec::new();
        let mut j: u32 = 0;
        while j < ch
            invariant
                self.wf(),
                cx == self.crop_x0(x),
                cy == self.crop_y0(y),
                cw == self.crop_w(x, w),
                ch == self.crop_h(y, h),
                cx + cw <= self.width,
                cy + ch <= self.height,
                j <= ch,
                out@.len() == j * cw * 4,
                forall|jj: int, ii: int|
                    0 <= jj < j && 0 <= ii < cw ==> #[trigger] pixel_at(
                        out@,
                        (jj * cw + ii) * 4,
                    ) == self.pix(cx + ii, cy + jj),
            decreases ch - j,
        {
            let mut i: u32 = 0;
            while i < cw
                invariant
                    self.wf(),
                    cx == self.crop_x0(x),
                    cy == self.crop_y0(y),
                    cx + cw <= self.width,
                    cy + ch <= self.height,
                    j < ch,
                    i <= cw,
                    out@.len() == (j * cw + i) * 4,
                    forall|jj: int, ii: int|
                        0 <= jj < j && 0 <= ii < cw ==> #[trigger] pixel_at(
                            out@,
                            (jj * cw + ii) * 4,
                        ) == self.pix(cx + ii, cy + jj),
                    forall|ii: int|
                        0 <= ii < i ==> #[trigger] pixel_at(out@, (j * cw + ii) * 4) == self.pix(
                            cx + ii,
                            cy + j,
                        ),
                decreases cw - i,
            {
                let ghost out0 = out@;
                let p = match self.get_pixel(cx + i, cy + j) {
                    Some(p) => p,
                    None => {
                        proof {
                            assert(false);
                        }
                        Rgba { r: 0, g: 0, b: 0, a: 0 }
                    },
                };
                out.push(p.r);
                out.push(p.g);
                out.push(p.b);
                out.push(p.a);
                i = i + 1;
                proof {
                    assert(out@.len() == out0.len() + 4);
                    assert forall|ii: int| 0 <= ii < i implies #[trigger] pixel_at(
                        out@,
                        (j * cw + ii) * 4,
                    ) == self.pix(cx + ii, cy + j) by {
                        if ii == i - 1 {
                            assert((j * cw + ii) * 4 == out0.len());
                        } else {
                            assert((j * cw + ii) * 4 + 4 <= out0.len());
                            assert(pixel_at(out0, (j * cw + ii) * 4) == self.pix(
                                cx + ii,
                                cy + j,
                            ));
                        }
                    }
                    assert forall|jj: int, ii: int| 0 <= jj < j && 0 <= ii < cw implies #[trigger] pixel_at(
                        out@,
                        (jj * cw + ii) * 4,
                    ) == self.pix(cx + ii, cy + jj) by {
                        assert((jj * cw + ii) * 4 + 4 <= (j * cw) * 4) by (nonlinear_arith)
                            requires
                                0 <= jj < j,
                                0 <= ii < cw,
                                0 < cw,
                        ;
                        assert(pixel_at(out0, (jj * cw + ii) * 4) == self.pix(cx + ii, cy + jj));
                    }
                }
            }
            j = j + 1;
            proof {
                assert((j - 1) * cw + cw == j * cw) by (nonlinear_arith);
                assert forall|jj: int, ii: int| 0 <= jj < j && 0 <= ii < cw implies #[trigger] pixel_at(
                    out@,
                    (jj * cw + ii) * 4,
                ) == self.pix(cx + ii, cy + jj) by {
                }
            }
        }
        let r = Canvas { width: cw, height: ch, pixels: out };
        proof {
            assert(ch * cw * 4 == cw * ch * 4) by (nonlinear_arith);
            assert(cw * ch * 4 <= self.width * self.height * 4) by (nonlinear_arith)
                requires
                    0 < cw <= self.width,
                    0 < ch <= self.height,
            ;
            assert forall|i: int, j2: int| r.in_bounds(i, j2) implies #[trigger] r.pix(i, j2)
                == self.pix(cx + i, cy + j2) by {
                assert(r.off(i, j2) == (j2 * cw + i) * 4);
                assert(pixel_at(r.pixels@, (j2 * cw + i) * 4) == self.pix(cx + i, cy + j2));
            }
            let crp = cropped_pixels(self.pixels@, self.width, self.height, x, y, w, h);
            assert forall|k: int| 0 <= k < crp.len() implies r.pixels@[k] == crp[k] by {
                let q = k / 4;
                let c = k % 4;
                let i = q % (cw as int);
                let j = q / (cw as int);
                assert(0 <= c < 4 && q * 4 + c == k);
                assert(0 <= q < cw * ch) by (nonlinear_arith)
                    requires
                        0 <= k < cw * ch * 4,
                        q == k / 4,
                ;
                assert(0 <= i < cw && j * cw + i == q) by (nonlinear_arith)
                    requires
                        0 < cw,
                        0 <= q,
                        i == q % (cw as int),
                        j == q / (cw as int),
                ;
                assert(0 <= j < ch) by (nonlinear_arith)
                    requires
                        0 < cw,
                        0 <= q < cw * ch,
                        j == q / (cw as int),
                ;
                assert(r.in_bounds(i, j));
                assert(r.pix(i, j) == self.pix(cx + i, cy + j));
                assert(r.off(i, j) == (j * cw + i) * 4);
                assert(r.pixels@[q * 4 + c] == self.pixels@[((cy + j) * self.width + (cx + i)) * 4
                    + c]);
            }
            assert(r.pixels@ =~= crp);
        }
        r
    }

    /// Distinct in-bounds pixel coordinates occupy disjoint byte ranges.
    proof fn lemma_off_distinct(self, x0: int, y0: int, x1: int, y1: int)
        requires
            self.wf(),
            self.in_bounds(x0, y0),
            self.in_bounds(x1, y1),
            !(x0 == x1 && y0 == y1),
        ensures
            self.off(x0, y0) + 4 <= self.off(x1, y1) || self.off(x1, y1) + 4 <= self.off(x0, y0),
    {
        let w = self.width as int;
        assert((y0 * w + x0) + 1 <= y1 * w + x1 || (y1 * w + x1) + 1 <= y0 * w + x0)
            by (nonlinear_arith)
            requires
                0 <= x0 < w,
                0 <= x1 < w,
                0 <= y0,
                0 <= y1,
                !(x0 == x1 && y0 == y1),
        ;
    }
}

} // verus!
