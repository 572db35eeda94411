//! The tool state machine: the active tool with its color, thickness
//! and drag anchors, the dispatch of one drag step onto a canvas, and
//! the drag lifecycle against the history stack.

use vstd::prelude::*;
use crate::canvas::Canvas;
use crate::canvas::Rgba;
use crate::canvas::pixel_at;
use crate::history::Image;
use crate::history::ImageStack;
use crate::raster::arrow_covered;
use crate::raster::blend_over;
use crate::raster::draw_arrow;
use crate::raster::draw_filled_circle_mut;
use crate::raster::draw_filled_rect_mut;
use crate::raster::draw_thick_hollow_circle_mut;
use crate::raster::draw_thick_hollow_rect_mut;
use crate::raster::draw_thick_line;
use crate::raster::erase_thick_line;
use crate::raster::highlight_line;
use crate::raster::in_border;
use crate::raster::in_disk;
use crate::raster::in_rect;
use crate::raster::in_ring;
use crate::raster::isqrt;
use crate::raster::isqrt_spec;
use crate::raster::line_covered;
use crate::text::TextManager;

verus! {

/// The annotation tools. `NoTool` stands for no active tool.
#[derive(PartialEq, Eq, Clone, Copy, Structural, Debug)]
pub enum Tool {
    Drawing,
    HollowRect,
    FilledRect,
    Arrow,
    HollowCircle,
    FilledCircle,
    Eraser,
    Crop,
    Highlighter,
    Text,
    NoTool,
}

/// The state of the annotation tools: what is selected, the drag in
/// progress, and the nested text session.
pub struct PaintState {
    pub curr_tool: Tool,
    pub curr_color: Rgba,
    pub curr_thickness: u32,
    pub text_info: TextManager,
    pub painting: bool,
    pub last_ptr: (u32, u32),
    pub curr_ptr: (u32, u32),
}

impl PaintState {
    /// Width of the dragged selection, at least one pixel.
    pub open spec fn sel_w(self) -> int {
        let d = vstd::math::abs(self.curr_ptr.0 as int - self.last_ptr.0 as int) as int;
        if d == 0 {
            1
        } else {
            d
        }
    }

    /// Height of the dragged selection, at least one pixel.
    pub open spec fn sel_h(self) -> int {
        let d = vstd::math::abs(self.curr_ptr.1 as int - self.last_ptr.1 as int) as int;
        if d == 0 {
            1
        } else {
            d
        }
    }

    /// Whether the selection rectangle is re-anchored at its true
    /// top-left: for every tool but freehand drawing and the circles,
    /// dragging up or left moves the origin there.
    pub open spec fn normalizes(self) -> bool {
        self.curr_tool != Tool::Drawing && self.curr_tool != Tool::FilledCircle && self.curr_tool
            != Tool::HollowCircle
    }

    /// Horizontal origin of the dragged selection.
    pub open spec fn sel_x(self) -> int {
        if self.normalizes() && self.curr_ptr.0 < self.last_ptr.0 {
            self.curr_ptr.0 as int
        } else {
            self.last_ptr.0 as int
        }
    }

    /// Vertical origin of the dragged selection.
    pub open spec fn sel_y(self) -> int {
        if self.normalizes() && self.curr_ptr.1 < self.last_ptr.1 {
            self.curr_ptr.1 as int
        } else {
            self.last_ptr.1 as int
        }
    }

    /// Radius of a dragged circle: the distance between the anchors,
    /// clamped into the unsigned 32-bit range.
    pub open spec fn radius(self) -> int {
        let r = isqrt_spec((self.sel_w() * self.sel_w() + self.sel_h() * self.sel_h()) as nat)
            as int;
        if r > u32::MAX {
            u32::MAX as int
        } else {
            r
        }
    }

    /// A fresh state: no tool, opaque white, thickness one, no drag,
    /// and an idle text session over a blank placeholder image.
    pub fn new() -> (r: PaintState)
        ensures
            r.curr_tool == Tool::NoTool,
            r.curr_color == (Rgba { r: 255, g: 255, b: 255, a: 255 }),
            r.curr_thickness == 1,
            !r.painting,
            r.last_ptr == (0u32, 0u32),
            r.curr_ptr == (0u32, 0u32),
            !r.text_info.writing,
            !r.text_info.dirty,
            r.text_info.original_img.image.wf(),
    {
        let blank = match Canvas::create(1, 1, Rgba { r: 0, g: 0, b: 0, a: 0 }) {
            Some(c) => c,
            Option::None => {
                proof {
                    assert(false);
                }
                Canvas { width: 1, height: 1, pixels: Vec::new() }
            },
        };
        PaintState {
            curr_tool: Tool::NoTool,
            curr_color: Rgba { r: 255, g: 255, b: 255, a: 255 },
            curr_thickness: 1,
            text_info: TextManager::new(Image { image: blank, crop_index: 0 }),
            painting: false,
            last_ptr: (0, 0),
            curr_ptr: (0, 0),
        }
    }

    /// Stop the drag and forget the tool and color.
    pub fn reset(&mut self)
        ensures
            !final(self).painting,
            final(self).last_ptr == (0u32, 0u32),
            final(self).curr_ptr == (0u32, 0u32),
            final(self).curr_tool == Tool::NoTool,
            final(self).curr_color == (Rgba { r: 255, g: 255, b: 255, a: 255 }),
            final(self).curr_thickness == old(self).curr_thickness,
            final(self).text_info == old(self).text_info,
    {
        self.painting = false;
        self.last_ptr = (0, 0);
        self.curr_ptr = (0, 0);
        self.curr_tool = Tool::NoTool;
        self.curr_color = Rgba { r: 255, g: 255, b: 255, a: 255 };
    }

    /// Stop the drag but keep the tool and color.
    pub fn soft_reset(&mut self)
        ensures
            *final(self) == (PaintState {
                painting: false,
                last_ptr: (0u32, 0u32),
                curr_ptr: (0u32, 0u32),
                ..*old(self)
            }),
    {
        self.painting = false;
        self.last_ptr = (0, 0);
        self.curr_ptr = (0, 0);
    }
}

/// The pixel at (x, y) of a w x h canvas with bytes `base` after one
/// application of the state's tool; `refpix` is the reference image
/// (same dimensions) that the content-restoring and blending tools read.
pub open spec fn tool_pixel(
    p: PaintState,
    w: u32,
    h: u32,
    base: Seq<u8>,
    refpix: Seq<u8>,
    x: int,
    y: int,
) -> Rgba {
    let bp = pixel_at(base, (y * w + x) * 4);
    let rp = pixel_at(refpix, (y * w + x) * 4);
    let lx = p.last_ptr.0 as int;
    let ly = p.last_ptr.1 as int;
    let cx = p.curr_ptr.0 as int;
    let cy = p.curr_ptr.1 as int;
    let t = p.curr_thickness as int;
    match p.curr_tool {
        Tool::Drawing => if line_covered(lx, ly, cx, cy, t, x, y) {
            p.curr_color
        } else {
            bp
        },
        Tool::HollowRect => if in_border(
            p.sel_x(),
            p.sel_y(),
            p.sel_w(),
            p.sel_h(),
            vstd::math::max(2 * t, 1),
            x,
            y,
        ) {
            p.curr_color
        } else {
            bp
        },
        Tool::FilledRect => if in_rect(p.sel_x(), p.sel_y(), p.sel_w(), p.sel_h(), x, y) {
            p.curr_color
        } else {
            bp
        },
        Tool::HollowCircle => if in_ring(lx, ly, p.radius(), t, x, y) {
            p.curr_color
        } else {
            bp
        },
        Tool::FilledCircle => if in_disk(lx, ly, p.radius(), x, y) {
            p.curr_color
        } else {
            bp
        },
        Tool::Arrow => if arrow_covered(lx, ly, cx, cy, t, x, y) {
            p.curr_color
        } else {
            bp
        },
        Tool::Crop => if in_border(p.sel_x(), p.sel_y(), p.sel_w(), p.sel_h(), 1, x, y) {
            Rgba { r: 0, g: 0, b: 0, a: 0 }
        } else {
            bp
        },
        Tool::Eraser => if line_covered(lx, ly, cx, cy, t, x, y) {
            rp
        } else {
            bp
        },
        Tool::Highlighter => if line_covered(lx, ly, cx, cy, t, x, y) {
            blend_over(rp, p.curr_color)
        } else {
            bp
        },
        Tool::Text => bp,
        Tool::NoTool => bp,
    }
}

impl PaintState {
    /// Draw one step of the active tool onto the image, between the drag
    /// anchors. The content-restoring and blending tools read the
    /// reference canvas, which must match the image's dimensions; text is
    /// rendered by the host from the session state, never here.
    pub fn apply_tool(&self, img: &mut Image, reference: Option<&Canvas>)
        requires
            old(img).image.wf(),
            self.curr_tool != Tool::Text,
            self.curr_thickness <= 0x1000_0000,
            (self.curr_tool == Tool::Eraser || self.curr_tool == Tool::Highlighter)
                ==> (reference matches Some(r) && r.wf() && r.width == old(img).image.width
                && r.height == old(img).image.height),
        ensures
            final(img).image.wf(),
            final(img).image.width == old(img).image.width,
            final(img).image.height == old(img).image.height,
            final(img).crop_index == old(img).crop_index,
            forall|x: int, y: int|
                old(img).image.in_bounds(x, y) ==> #[trigger] final(img).image.pix(x, y)
                    == tool_pixel(
                    *self,
                    old(img).image.width,
                    old(img).image.height,
                    old(img).image.pixels@,
                    (match reference {
                        Some(r) => r.pixels@,
                        Option::None => old(img).image.pixels@,
                    }),
                    x,
                    y,
                ),
    {
        let lx = self.last_ptr.0;
        let ly = self.last_ptr.1;
        let cx = self.curr_ptr.0;
        let cy = self.curr_ptr.1;
        let dw: u32 = if cx >= lx {
            cx - lx
        } else {
            lx - cx
        };
        let dh: u32 = if cy >= ly {
            cy - ly
        } else {
            ly - cy
        };
        let w: u32 = if dw == 0 {
            1
        } else {
            dw
        };
        let h: u32 = if dh == 0 {
            1
        } else {
            dh
        };
        let normalizes = self.curr_tool != Tool::Drawing && self.curr_tool != Tool::FilledCircle
            && self.curr_tool != Tool::HollowCircle;
        let sx: u32 = if normalizes && cx < lx {
            cx
        } else {
            lx
        };
        let sy: u32 = if normalizes && cy < ly {
            cy
        } else {
            ly
        };
        proof {
            assert(w == self.sel_w() && h == self.sel_h());
            assert(sx == self.sel_x() && sy == self.sel_y());
        }
        match self.curr_tool {
            Tool::Drawing => {
                draw_thick_line(
                    &mut img.image,
                    lx,
                    ly,
                    cx,
                    cy,
                    self.curr_thickness,
                    self.curr_color,
                );
            },
            Tool::HollowRect => {
                draw_thick_hollow_rect_mut(
                    &mut img.image,
                    sx,
                    sy,
                    w,
                    h,
                    self.curr_thickness,
                    self.curr_color,
                );
            },
            Tool::FilledRect => {
                draw_filled_rect_mut(&mut img.image, sx, sy, w, h, self.curr_color);
            },
            Tool::HollowCircle => {
                let radius = self.circle_radius();
                draw_thick_hollow_circle_mut(
                    &mut img.image,
                    lx as i64,
                    ly as i64,
                    radius,
                    self.curr_thickness,
                    self.curr_color,
                );
            },
            Tool::FilledCircle => {
                let radius = self.circle_radius();
                draw_filled_circle_mut(&mut img.image, lx as i64, ly as i64, radius, self.curr_color);
            },
            Tool::Arrow => {
                draw_arrow(&mut img.image, lx, ly, cx, cy, self.curr_thickness, self.curr_color);
            },
            Tool::Crop => {
                draw_thick_hollow_rect_mut(
                    &mut img.image,
                    sx,
                    sy,
                    w,
                    h,
                    0,
                    Rgba { r: 0, g: 0, b: 0, a: 0 },
                );
            },
            Tool::Eraser => {
                match reference {
                    Some(r) => {
                        erase_thick_line(r, &mut img.image, lx, ly, cx, cy, self.curr_thickness);
                    },
                    Option::None => {
                        proof {
                            assert(false);
                        }
                    },
                }
            },
            Tool::Highlighter => {
                match reference {
                    Some(r) => {
                        highlight_line(
                            r,
                            &mut img.image,
                            lx,
                            ly,
                            cx,
                            cy,
                            self.curr_thickness,
                            self.curr_color,
                        );
                    },
                    Option::None => {
                        proof {
                            assert(false);
                        }
                    },
                }
            },
            Tool::Text => {
                proof {
                    assert(false);
                }
            },
            Tool::NoTool => {},
        }
    }

    /// The dragged circle's radius: the distance between the anchors,
    /// clamped into the unsigned 32-bit range.
    fn circle_radius(&self) -> (r: u32)
        ensures
            r == self.radius(),
    {
        let lx = self.last_ptr.0;
        let ly = self.last_ptr.1;
        let cx = self.curr_ptr.0;
        let cy = self.curr_ptr.1;
        let dw: u32 = if cx >= lx {
            cx - lx
        } else {
            lx - cx
        };
        let dh: u32 = if cy >= ly {
            cy - ly
        } else {
            ly - cy
        };
        let w: u64 = if dw == 0 {
            1
        } else {
            dw as u64
        };
        let h: u64 = if dh == 0 {
            1
        } else {
            dh as u64
        };
        proof {
            assert(w == self.sel_w() && h == self.sel_h());
            assert(0 <= w * w <= 0x1_0000_0000_0000_0000) by (nonlinear_arith)
                requires
                    0 <= w <= 0x1_0000_0000,
            ;
            assert(0 <= h * h <= 0x1_0000_0000_0000_0000) by (nonlinear_arith)
                requires
                    0 <= h <= 0x1_0000_0000,
            ;
        }
        let d2: u128 = (w as u128 * w as u128) + (h as u128 * h as u128);
        let r = isqrt(d2);
        if r > u32::MAX as u64 {
            u32::MAX
        } else {
            r as u32
        }
    }
}

/// The paint state as one drag step sees it: the drag is live, the
/// anchor stays where the drag began (or starts here on the first
/// event), and the current pointer moves to `pos`.
pub open spec fn applied_state(p: PaintState, pos: (u32, u32)) -> PaintState {
    PaintState {
        painting: true,
        last_ptr: if p.painting {
            p.last_ptr
        } else {
            pos
        },
        curr_ptr: pos,
        ..p
    }
}

/// Incremental tools draw each drag segment onto the live image itself,
/// so cost follows drag distance; the shape tools re-draw a preview
/// from the last committed snapshot instead.
pub open spec fn is_incremental(t: Tool) -> bool {
    t == Tool::Drawing || t == Tool::Eraser || t == Tool::Highlighter
}

/// One pointer-drag step of a pixel tool. The freehand, eraser and
/// highlighter strokes accumulate on the live image and the anchor
/// advances; every other tool re-renders its preview from the most
/// recent committed snapshot. The eraser reads the lineage generation
/// backing the most recent snapshot; the highlighter reads that
/// snapshot itself.
pub fn drag_update(paint: &mut PaintState, stack: &mut ImageStack, pos: (u32, u32))
    requires
        old(stack).wf(),
        old(stack).model().undo.len() >= 1,
        old(paint).curr_tool != Tool::NoTool,
        old(paint).curr_tool != Tool::Text,
        old(paint).curr_thickness <= 0x1000_0000,
        is_incremental(old(paint).curr_tool) ==> {
            &&& old(stack).model().tmp.width == old(stack).model().undo.last().width
            &&& old(stack).model().tmp.height == old(stack).model().undo.last().height
        },
    ensures
        final(stack).wf(),
        final(stack).model().undo == old(stack).model().undo,
        final(stack).model().redo == old(stack).model().redo,
        final(stack).model().fin == old(stack).model().fin,
        final(stack).model().crops == old(stack).model().crops,
        final(stack).crop_images@ == old(stack).crop_images@,
        ({
            let p1 = applied_state(*old(paint), pos);
            let m = old(stack).model();
            let base = if is_incremental(p1.curr_tool) {
                m.tmp
            } else {
                m.undo.last()
            };
            let refpix = if p1.curr_tool == Tool::Eraser {
                m.crops[m.undo.last().crop_index]
            } else if p1.curr_tool == Tool::Highlighter {
                m.undo.last().pixels
            } else {
                base.pixels
            };
            &&& *final(paint) == (PaintState {
                last_ptr: if is_incremental(p1.curr_tool) {
                    pos
                } else {
                    p1.last_ptr
                },
                ..p1
            })
            &&& final(stack).model().tmp.width == base.width
            &&& final(stack).model().tmp.height == base.height
            &&& final(stack).model().tmp.crop_index == base.crop_index
            &&& forall|x: int, y: int|
                0 <= x < base.width && 0 <= y < base.height ==> #[trigger] pixel_at(
                    final(stack).model().tmp.pixels,
                    (y * base.width + x) * 4,
                ) == tool_pixel(p1, base.width, base.height, base.pixels, refpix, x, y)
        }),
{
    if !paint.painting {
        paint.last_ptr = pos;
        paint.painting = true;
    }
    paint.curr_ptr = pos;
    proof {
        assert(*paint == applied_state(*old(paint), pos));
    }
    let ghost p1 = *paint;
    let ghost pre_stack = *stack;
    if matches!(paint.curr_tool, Tool::Eraser) || matches!(paint.curr_tool, Tool::Highlighter)
        || matches!(paint.curr_tool, Tool::Drawing) {
        proof {
            assert(pre_stack.entry_ok(pre_stack.images@.last()));
        }
        if matches!(paint.curr_tool, Tool::Eraser) {
            let idx = stack.get_last_image_as_ref().get_crop_index();
            let refc = stack.get_crop_image(idx);
            paint.apply_tool(&mut stack.tmp_image, Some(&refc));
        } else if matches!(paint.curr_tool, Tool::Highlighter) {
            let refc = stack.get_last_image();
            paint.apply_tool(&mut stack.tmp_image, Some(&refc.image));
        } else {
            paint.apply_tool(&mut stack.tmp_image, Option::None);
        }
        paint.last_ptr = paint.curr_ptr;
        proof {
            let n = *stack;
            let o = pre_stack;
            assert(n.images@ == o.images@ && n.redo_images@ == o.redo_images@ && n.crop_images@
                == o.crop_images@ && n.final_image == o.final_image);
            assert forall|i: int| 0 <= i < n.images@.len() implies n.entry_ok(
                #[trigger] n.images@[i],
            ) by {
                assert(o.entry_ok(o.images@[i]));
            }
            assert forall|i: int| 0 <= i < n.redo_images@.len() implies n.entry_ok(
                #[trigger] n.redo_images@[i],
            ) by {
                assert(o.entry_ok(o.redo_images@[i]));
            }
            assert(n.model().undo =~= o.model().undo);
            assert(n.model().redo =~= o.model().redo);
            assert(n.model().crops =~= o.model().crops);
            let m = o.model();
            let base = m.tmp;
            let refpix = if p1.curr_tool == Tool::Eraser {
                m.crops[m.undo.last().crop_index]
            } else if p1.curr_tool == Tool::Highlighter {
                m.undo.last().pixels
            } else {
                base.pixels
            };
            assert forall|x: int, y: int| 0 <= x < base.width && 0 <= y < base.height implies #[trigger] pixel_at(
                n.model().tmp.pixels,
                (y * base.width + x) * 4,
            ) == tool_pixel(p1, base.width, base.height, base.pixels, refpix, x, y) by {
                assert(o.tmp_image.image.in_bounds(x, y));
                assert(n.tmp_image.image.pix(x, y) == tool_pixel(
                    p1,
                    base.width,
                    base.height,
                    base.pixels,
                    refpix,
                    x,
                    y,
                ));
            }
        }
    } else {
        let mut screen = stack.get_last_image();
        let ghost screen0 = screen;
        paint.apply_tool(&mut screen, Option::None);
        let ghost screen_after = screen;
        stack.set_tmp_image(screen);
        proof {
            let o = pre_stack;
            let n = *stack;
            let m = o.model();
            let base = m.undo.last();
            assert(screen0.image.width == base.width && screen0.image.height == base.height
                && screen0.image.pixels@ == base.pixels);
            assert forall|x: int, y: int| 0 <= x < base.width && 0 <= y < base.height implies #[trigger] pixel_at(
                n.model().tmp.pixels,
                (y * base.width + x) * 4,
            ) == tool_pixel(p1, base.width, base.height, base.pixels, base.pixels, x, y) by {
                assert(screen0.image.in_bounds(x, y));
                assert(screen_after.image.pix(x, y) == tool_pixel(
                    p1,
                    base.width,
                    base.height,
                    base.pixels,
                    base.pixels,
                    x,
                    y,
                ));
                assert(n.model().tmp.pixels == screen_after.image.pixels@);
                assert(screen_after.image.off(x, y) == (y * base.width + x) * 4);
            }
        }
    }
}

/// Release the drag: a crop commits the dragged rectangle, any other
/// tool commits the live image as a new snapshot; no active tool leaves
/// the history untouched. The drag anchors always reset.
pub fn drag_release(paint: &mut PaintState, stack: &mut ImageStack)
    requires
        old(stack).wf(),
    ensures
        final(stack).wf(),
        *final(paint) == (PaintState {
            painting: false,
            last_ptr: (0u32, 0u32),
            curr_ptr: (0u32, 0u32),
            ..*old(paint)
        }),
        old(paint).curr_tool == Tool::Crop ==> crate::history::commit_crop_post(
            *old(stack),
            *final(stack),
            old(paint).sel_x() as u32,
            old(paint).sel_y() as u32,
            old(paint).sel_w() as u32,
            old(paint).sel_h() as u32,
        ),
        old(paint).curr_tool == Tool::NoTool ==> final(stack).model() == old(stack).model(),
        (old(paint).curr_tool != Tool::Crop && old(paint).curr_tool != Tool::NoTool) ==> {
            &&& final(stack).model().undo =~= old(stack).model().undo.push(
                old(stack).model().tmp,
            )
            &&& final(stack).model().redo =~= Seq::<crate::history::SnapModel>::empty()
            &&& final(stack).model().tmp == old(stack).model().tmp
            &&& final(stack).model().fin == old(stack).model().fin
            &&& final(stack).model().crops == old(stack).model().crops
        },
{
    match paint.curr_tool {
        Tool::Crop => {
            let lx = paint.last_ptr.0;
            let ly = paint.last_ptr.1;
            let cx = paint.curr_ptr.0;
            let cy = paint.curr_ptr.1;
            let dw: u32 = if cx >= lx {
                cx - lx
            } else {
                lx - cx
            };
            let dh: u32 = if cy >= ly {
                cy - ly
            } else {
                ly - cy
            };
            let w: u32 = if dw == 0 {
                1
            } else {
                dw
            };
            let h: u32 = if dh == 0 {
                1
            } else {
                dh
            };
            let sx: u32 = if cx < lx {
                cx
            } else {
                lx
            };
            let sy: u32 = if cy < ly {
                cy
            } else {
                ly
            };
            proof {
                assert(w == paint.sel_w() && h == paint.sel_h());
                assert(sx == paint.sel_x() && sy == paint.sel_y());
            }
            stack.commit_crop(sx, sy, w, h);
        },
        Tool::NoTool => {},
        _ => {
            let img = stack.get_tmp_image();
            stack.stack_image(img);
        },
    }
    paint.soft_reset();
}

/// Begin a text session at the clicked position: freeze the most recent
/// snapshot as the backing image (pushing a working copy of it so the
/// frame loop has an entry to replace), and size the session's writable
/// area from the text origin to the canvas edges.
pub fn start_text_session(paint: &mut PaintState, stack: &mut ImageStack, pos: (u32, u32))
    requires
        old(stack).wf(),
        pos.0 < old(stack).tmp_image.image.width,
        pos.1 < old(stack).tmp_image.image.height,
    ensures
        final(stack).wf(),
        ({
            let m = old(stack).model();
            let last = if m.undo.len() > 0 {
                m.undo.last()
            } else {
                m.fin
            };
            &&& final(stack).model().undo =~= m.undo.push(last)
            &&& final(stack).model().redo =~= Seq::<crate::history::SnapModel>::empty()
            &&& final(stack).model().tmp == m.tmp
            &&& final(stack).model().fin == m.fin
            &&& final(stack).model().crops == m.crops
            &&& crate::history::snap_of_image(final(paint).text_info.original_img) == last
        }),
        final(paint).text_info.writing,
        final(paint).text_info.dirty,
        final(paint).text_info.edge_x == pos.0,
        final(paint).text_info.edge_y == pos.1,
        final(paint).text_info.height == final(paint).text_info.curr_dim,
        final(paint).text_info.max_width == old(stack).tmp_image.image.width - pos.0,
        final(paint).text_info.max_height == old(stack).tmp_image.image.height - pos.1,
        final(paint).text_info.content@ == old(paint).text_info.content@,
        final(paint).text_info.cursor_x == old(paint).text_info.cursor_x,
        final(paint).curr_tool == old(paint).curr_tool,
        final(paint).curr_color == old(paint).curr_color,
        final(paint).curr_thickness == old(paint).curr_thickness,
{
    let last = stack.get_last_image();
    let tmp_w = stack.tmp_image.image.width;
    let tmp_h = stack.tmp_image.image.height;
    stack.stack_image(last.duplicate());
    paint.text_info.original_img = last;
    paint.text_info.dirty = true;
    paint.text_info.writing = true;
    paint.text_info.edge_x = pos.0;
    paint.text_info.edge_y = pos.1;
    paint.text_info.height = paint.text_info.curr_dim;
    paint.text_info.update_max_width(tmp_w);
    paint.text_info.update_max_height(tmp_h);
}

/// One frame of an active text session: the most recent snapshot is
/// replaced by the freshly rendered text (without cursor or guide box),
/// and the live image shows the rendered frame with them.
pub fn refresh_text_frame(stack: &mut ImageStack, rendered: Image, display: Image)
    requires
        old(stack).wf(),
        old(stack).model().undo.len() >= 1,
        old(stack).image_ok(rendered),
        old(stack).image_ok(display),
    ensures
        final(stack).wf(),
        final(stack).model().undo =~= old(stack).model().undo.drop_last().push(
            crate::history::snap_of_image(rendered),
        ),
        final(stack).model().redo =~= Seq::<crate::history::SnapModel>::empty(),
        final(stack).model().tmp == crate::history::snap_of_image(display),
        final(stack).model().fin == old(stack).model().fin,
        final(stack).model().crops == old(stack).model().crops,
        final(stack).crop_images@ == old(stack).crop_images@,
{
    let _popped = stack.pop_last_image();
    stack.stack_image(rendered);
    stack.set_tmp_image(display);
}

/// Leaving the text tool with a transient cursor or guide box still on
/// the live image: end the session and redraw the live image from the
/// most recent committed snapshot, so no artifact survives.
pub fn sync_text_exit(paint: &mut PaintState, stack: &mut ImageStack)
    requires
        old(stack).wf(),
    ensures
        final(stack).wf(),
        (old(paint).curr_tool != Tool::Text && old(paint).text_info.dirty) ==> {
            &&& final(paint).text_info.content@ =~= Seq::<char>::empty()
            &&& !final(paint).text_info.writing
            &&& !final(paint).text_info.dirty
            &&& final(stack).model().tmp == (if old(stack).model().undo.len() > 0 {
                old(stack).model().undo.last()
            } else {
                old(stack).model().fin
            })
            &&& final(stack).model().undo == old(stack).model().undo
            &&& final(stack).model().redo == old(stack).model().redo
            &&& final(stack).model().fin == old(stack).model().fin
            &&& final(stack).model().crops == old(stack).model().crops
        },
        !(old(paint).curr_tool != Tool::Text && old(paint).text_info.dirty) ==> {
            &&& *final(paint) == *old(paint)
            &&& final(stack).model() == old(stack).model()
        },
        final(paint).curr_tool == old(paint).curr_tool,
{
    if !matches!(paint.curr_tool, Tool::Text) && paint.text_info.dirty {
        paint.text_info.reset();
        let last = stack.get_last_image();
        stack.set_tmp_image(last);
    }
}

} // verus!
