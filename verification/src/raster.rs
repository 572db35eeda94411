//! Stateless rasterization over a `Canvas`: line point generation,
//! disk stamping, thick lines, rectangles, circles, arrowheads,
//! alpha-blended highlighting and content-restoring erasing.

use vstd::prelude::*;
use vstd::math::abs;
use crate::canvas::Canvas;
use crate::canvas::Rgba;

verus! {

/// The point sequence of one line, unrolled step by step: the error term
/// walks (x, y) toward (tx, ty), stepping by (sx, 0), (0, sy) or both
/// each time. `fuel` only bounds the unrolling; entered through
/// `bres_points` it never runs out before the target.
pub open spec fn bres_rec(
    tx: int,
    ty: int,
    dx: int,
    dy: int,
    sx: int,
    sy: int,
    x: int,
    y: int,
    err: int,
    fuel: nat,
) -> Seq<(int, int)>
    decreases fuel,
{
    if x == tx && y == ty {
        seq![(x, y)]
    } else if fuel == 0 {
        seq![(x, y)]
    } else {
        let e2 = 2 * err;
        let nx = if e2 > -dy {
            x + sx
        } else {
            x
        };
        let err1 = if e2 > -dy {
            err - dy
        } else {
            err
        };
        let ny = if e2 < dx {
            y + sy
        } else {
            y
        };
        let err2 = if e2 < dx {
            err1 + dx
        } else {
            err1
        };
        seq![(x, y)] + bres_rec(tx, ty, dx, dy, sx, sy, nx, ny, err2, (fuel - 1) as nat)
    }
}

/// The 8-connected line from (x0, y0) to (x1, y1), both endpoints
/// included, as the classic integer error-term walk produces it.
pub open spec fn bres_points(x0: int, y0: int, x1: int, y1: int) -> Seq<(int, int)> {
    let dx = abs(x1 - x0) as int;
    let dy = abs(y1 - y0) as int;
    let sx: int = if x1 > x0 {
        1
    } else {
        -1
    };
    let sy: int = if y1 > y0 {
        1
    } else {
        -1
    };
    bres_rec(x1, y1, dx, dy, sx, sy, x0, y0, dx - dy, (dx + dy) as nat)
}

/// Rasterize the 8-connected line between the two points, both endpoints
/// included, exactly as `bres_points` describes it.
#[verifier::rlimit(80)]
pub fn bresenham_line(x0: usize, y0: usize, x1: usize, y1: usize) -> (r: Vec<(usize, usize)>)
    requires
        x0 <= u32::MAX,
        y0 <= u32::MAX,
        x1 <= u32::MAX,
        y1 <= u32::MAX,
    ensures
        r@.map_values(|p: (usize, usize)| (p.0 as int, p.1 as int)) == bres_points(
            x0 as int,
            y0 as int,
            x1 as int,
            y1 as int,
        ),
        r@.len() >= 1,
        (r@[0].0 == x0 && r@[0].1 == y0),
        (r@[r@.len() - 1].0 == x1 && r@[r@.len() - 1].1 == y1),
        forall|k: int|
            0 <= k < r@.len() ==> {
                &&& vstd::math::min(x0 as int, x1 as int) <= (#[trigger] r@[k]).0 <= vstd::math::max(
                    x0 as int,
                    x1 as int,
                )
                &&& vstd::math::min(y0 as int, y1 as int) <= r@[k].1 <= vstd::math::max(
                    y0 as int,
                    y1 as int,
                )
            },
{
    let mut points: Vec<(usize, usize)> = Vec::new();

    let dx: i64 = if x1 >= x0 {
        x1 as i64 - x0 as i64
    } else {
        x0 as i64 - x1 as i64
    };
    let dy: i64 = if y1 >= y0 {
        y1 as i64 - y0 as i64
    } else {
        y0 as i64 - y1 as i64
    };

    let mut x: i64 = x0 as i64;
    let mut y: i64 = y0 as i64;

    let x_inc: i64 = if x1 > x0 {
        1
    } else {
        -1
    };
    let y_inc: i64 = if y1 > y0 {
        1
    } else {
        -1
    };

    let mut error: i64 = dx - dy;
    let ghost tx = x1 as int;
    let ghost ty = y1 as int;
    let ghost mut fuel: int = dx + dy;
    proof {
        assert(abs((x as int) - (x0 as int)) == 0);
        assert(abs((y as int) - (y0 as int)) == 0);
        assert(dx * (0 + 1) == dx && dy * (0 + 1) == dy) by (nonlinear_arith);
    }

    while x != x1 as i64 || y != y1 as i64
        invariant
            tx == x1 as int,
            ty == y1 as int,
            dx == abs(x1 as int - x0 as int),
            dy == abs(y1 as int - y0 as int),
            x_inc == (if x1 > x0 {
                1int
            } else {
                -1int
            }),
            y_inc == (if y1 > y0 {
                1int
            } else {
                -1int
            }),
            x0 <= u32::MAX,
            y0 <= u32::MAX,
            x1 <= u32::MAX,
            y1 <= u32::MAX,
            (if x1 >= x0 {
                x0 <= x <= x1 as i64
            } else {
                x1 as i64 <= x <= x0
            }),
            (if y1 >= y0 {
                y0 <= y <= y1 as i64
            } else {
                y1 as i64 <= y <= y0
            }),
            error == dx * (abs(y - y0 as int) + 1) - dy * (abs(x - x0 as int) + 1),
            -2 * dy <= error <= 2 * dx,
            abs(tx - x) + abs(ty - y) <= fuel,
            forall|k: int|
                0 <= k < points@.len() ==> {
                    &&& vstd::math::min(x0 as int, x1 as int) <= (#[trigger] points@[k]).0
                        <= vstd::math::max(x0 as int, x1 as int)
                    &&& vstd::math::min(y0 as int, y1 as int) <= points@[k].1 <= vstd::math::max(
                        y0 as int,
                        y1 as int,
                    )
                },
            bres_points(x0 as int, y0 as int, x1 as int, y1 as int) == points@.map_values(
                |p: (usize, usize)| (p.0 as int, p.1 as int),
            ) + bres_rec(
                tx,
                ty,
                dx as int,
                dy as int,
                x_inc as int,
                y_inc as int,
                x as int,
                y as int,
                error as int,
                fuel as nat,
            ),
            points@.len() <= dx + dy - fuel,
        decreases abs(tx - x) + abs(ty - y),
    {
        proof {
            lemma_bres_step(
                tx,
                ty,
                dx as int,
                dy as int,
                x_inc as int,
                y_inc as int,
                x as int,
                y as int,
                error as int,
                x0 as int,
                y0 as int,
            );
        }
        let ghost points0 = points@;
        let ghost xo = x as int;
        let ghost yo = y as int;
        let ghost erro = error as int;
        points.push((x as usize, y as usize));

        let error2: i64 = error * 2;

        if error2 > -dy {
            error = error - dy;
            x = x + x_inc;
        }
        if error2 < dx {
            error = error + dx;
            y = y + y_inc;
        }
        proof {
            fuel = fuel - 1;
            assert(x as int == (if 2 * erro > -dy {
                xo + x_inc
            } else {
                xo
            }));
            assert(y as int == (if 2 * erro < dx {
                yo + y_inc
            } else {
                yo
            }));
            assert(error as int == erro + (if 2 * erro > -dy {
                -(dy as int)
            } else {
                0
            }) + (if 2 * erro < dx {
                dx as int
            } else {
                0
            }));
            if 2 * erro > -dy {
                assert(abs(tx - (x as int)) == abs(tx - xo) - 1);
            }
            if 2 * erro < dx {
                assert(abs(ty - (y as int)) == abs(ty - yo) - 1);
            }
            assert(points@.map_values(|p: (usize, usize)| (p.0 as int, p.1 as int))
                =~= points0.map_values(|p: (usize, usize)| (p.0 as int, p.1 as int)).push(
                (points@.last().0 as int, points@.last().1 as int),
            ));
        }
    }
    let ghost points0 = points@;
    points.push((x1, y1));
    proof {
        assert(points@.map_values(|p: (usize, usize)| (p.0 as int, p.1 as int)) =~= points0.map_values(
            |p: (usize, usize)| (p.0 as int, p.1 as int),
        ).push((x1 as int, y1 as int)));
        assert(bres_rec(tx, ty, dx as int, dy as int, x_inc as int, y_inc as int, tx, ty, error as int, fuel as nat)
            =~= seq![(tx, ty)]);
        assert(points@.map_values(|p: (usize, usize)| (p.0 as int, p.1 as int))[0] == (
            x0 as int,
            y0 as int,
        )) by {
            lemma_bres_first(x0 as int, y0 as int, x1 as int, y1 as int);
        }
    }
    points
}

/// One step of the error-term walk preserves the loop's invariants: the
/// walk never overshoots the target, always makes progress, keeps the
/// linear relation between the error term and the distances walked, and
/// keeps the error term small.
proof fn lemma_bres_step(
    tx: int,
    ty: int,
    dx: int,
    dy: int,
    sx: int,
    sy: int,
    x: int,
    y: int,
    err: int,
    x0: int,
    y0: int,
)
    requires
        !(x == tx && y == ty),
        dx == abs(tx - x0),
        dy == abs(ty - y0),
        sx == (if tx > x0 {
            1int
        } else {
            -1int
        }),
        sy == (if ty > y0 {
            1int
        } else {
            -1int
        }),
        (if tx >= x0 {
            x0 <= x <= tx
        } else {
            tx <= x <= x0
        }),
        (if ty >= y0 {
            y0 <= y <= ty
        } else {
            ty <= y <= y0
        }),
        err == dx * (abs(y - y0) + 1) - dy * (abs(x - x0) + 1),
        -2 * dy <= err <= 2 * dx,
    ensures
        2 * err > -dy || 2 * err < dx,
        2 * err > -dy ==> x != tx && abs(tx - (x + sx)) == abs(tx - x) - 1,
        2 * err < dx ==> y != ty && abs(ty - (y + sy)) == abs(ty - y) - 1,
        ({
            let nx = if 2 * err > -dy {
                x + sx
            } else {
                x
            };
            let ny = if 2 * err < dx {
                y + sy
            } else {
                y
            };
            let nerr = err + (if 2 * err > -dy {
                -dy
            } else {
                0
            }) + (if 2 * err < dx {
                dx
            } else {
                0
            });
            &&& nerr == dx * (abs(ny - y0) + 1) - dy * (abs(nx - x0) + 1)
            &&& -2 * dy <= nerr <= 2 * dx
        }),
{
    let a = abs(x - x0) as int;
    let b = abs(y - y0) as int;
    assert(0 <= a <= dx);
    assert(0 <= b <= dy);
    assert(x == tx <==> a == dx);
    assert(y == ty <==> b == dy);
    // Progress: with neither step enabled the line would be degenerate.
    if !(2 * err > -dy) && !(2 * err < dx) {
        assert(dx <= 2 * err <= -dy);
        assert(dx == 0 && dy == 0);
        assert(a == dx && b == dy);
        assert(false);
    }
    // No overshoot in x: at the target column the x step is disabled.
    if a == dx {
        assert(b < dy);
        assert(2 * err == 2 * (dx * (b + 1) - dy * (dx + 1)));
        assert(2 * (dx * (b + 1) - dy * (dx + 1)) <= -dy) by (nonlinear_arith)
            requires
                0 <= b,
                b + 1 <= dy,
                0 <= dx,
        ;
    }
    // No overshoot in y: on the target row the y step is disabled.
    if b == dy {
        assert(a < dx);
        assert(2 * err == 2 * (dx * (dy + 1) - dy * (a + 1)));
        assert(2 * (dx * (dy + 1) - dy * (a + 1)) >= dx) by (nonlinear_arith)
            requires
                0 <= a,
                a + 1 <= dx,
                0 <= dy,
        ;
    }
    let stepx = 2 * err > -dy;
    let stepy = 2 * err < dx;
    let na = if stepx {
        a + 1
    } else {
        a
    };
    let nb = if stepy {
        b + 1
    } else {
        b
    };
    let nx = if stepx {
        x + sx
    } else {
        x
    };
    let ny = if stepy {
        y + sy
    } else {
        y
    };
    assert(abs(nx - x0) == na);
    assert(abs(ny - y0) == nb);
    if stepx {
        assert(x != tx);
        assert(abs(tx - nx) == abs(tx - x) - 1);
    }
    if stepy {
        assert(y != ty);
        assert(abs(ty - ny) == abs(ty - y) - 1);
    }
    let nerr = err + (if stepx {
        -dy
    } else {
        0
    }) + (if stepy {
        dx
    } else {
        0
    });
    assert(nerr == dx * (nb + 1) - dy * (na + 1)) by (nonlinear_arith)
        requires
            err == dx * (b + 1) - dy * (a + 1),
            na == (if stepx {
                a + 1
            } else {
                a
            }),
            nb == (if stepy {
                b + 1
            } else {
                b
            }),
            nerr == err + (if stepx {
                -dy
            } else {
                0
            }) + (if stepy {
                dx
            } else {
                0
            }),
    ;
    // The error term stays within one band of the deltas.
    if stepx && stepy {
        assert(-dy < 2 * err < dx);
        assert(-2 * dy <= nerr <= 2 * dx);
    } else if stepx {
        assert(2 * err >= dx);
        assert(nerr == err - dy);
        assert(-2 * dy <= nerr <= 2 * dx);
    } else {
        assert(2 * err <= -dy);
        assert(nerr == err + dx);
        assert(-2 * dy <= nerr <= 2 * dx);
    }
}

/// The first point of the line is its start.
proof fn lemma_bres_first(x0: int, y0: int, x1: int, y1: int)
    ensures
        bres_points(x0, y0, x1, y1).len() >= 1,
        bres_points(x0, y0, x1, y1)[0] == (x0, y0),
{
}

/// (x, y) lies in the closed disk of radius `r` around (cx, cy).
pub open spec fn in_disk(cx: int, cy: int, r: int, x: int, y: int) -> bool {
    (x - cx) * (x - cx) + (y - cy) * (y - cy) <= r * r
}

/// A point in the disk is within `r` of the center on each axis.
proof fn lemma_disk_box(cx: int, cy: int, r: int, x: int, y: int)
    requires
        0 <= r,
        in_disk(cx, cy, r, x, y),
    ensures
        cx - r <= x <= cx + r,
        cy - r <= y <= cy + r,
{
    assert((x - cx) * (x - cx) + (y - cy) * (y - cy) <= r * r && (cx - r <= x <= cx + r) && (cy - r
        <= y <= cy + r) || !in_disk(cx, cy, r, x, y)) by (nonlinear_arith)
        requires
            0 <= r,
    ;
}

/// Fill the closed disk of the given radius around the center with
/// `color`; the center may lie outside the canvas, and the disk is
/// clipped to it. Every other pixel keeps its value.
pub fn draw_filled_circle_mut(img: &mut Canvas, cx: i64, cy: i64, radius: u32, color: Rgba)
    requires
        old(img).wf(),
        -0x1_0000_0000 <= cx <= 0x1_0000_0000,
        -0x1_0000_0000 <= cy <= 0x1_0000_0000,
    ensures
        final(img).wf(),
        final(img).width == old(img).width,
        final(img).height == old(img).height,
        forall|x: int, y: int|
            old(img).in_bounds(x, y) ==> #[trigger] final(img).pix(x, y) == (if in_disk(
                cx as int,
                cy as int,
                radius as int,
                x,
                y,
            ) {
                color
            } else {
                old(img).pix(x, y)
            }),
{
    let r = radius as i64;
    let h = img.height as i64;
    let w = img.width as i64;
    let y_lo: i64 = if cy - r > 0 {
        cy - r
    } else {
        0
    };
    let y_hi: i64 = if cy + r < h - 1 {
        cy + r
    } else {
        h - 1
    };
    let x_lo: i64 = if cx - r > 0 {
        cx - r
    } else {
        0
    };
    let x_hi: i64 = if cx + r < w - 1 {
        cx + r
    } else {
        w - 1
    };
    let mut yy: i64 = y_lo;
    proof {
        assert forall|x: int, y: int|
            old(img).in_bounds(x, y) && y < y_lo && in_disk(
                cx as int,
                cy as int,
                r as int,
                x,
                y,
            ) implies false by {
            lemma_disk_box(cx as int, cy as int, r as int, x, y);
        }
    }
    while yy <= y_hi
        invariant
            img.wf(),
            img.width == old(img).width,
            img.height == old(img).height,
            w == img.width,
            h == img.height,
            r == radius,
            -0x1_0000_0000 <= cx <= 0x1_0000_0000,
            -0x1_0000_0000 <= cy <= 0x1_0000_0000,
            y_lo == vstd::math::max(cy - r, 0),
            y_hi == vstd::math::min(cy + r, h - 1),
            x_lo == vstd::math::max(cx - r, 0),
            x_hi == vstd::math::min(cx + r, w - 1),
            y_lo <= yy,
            yy <= y_hi + 1 || yy == y_lo,
            forall|x: int, y: int|
                old(img).in_bounds(x, y) ==> #[trigger] img.pix(x, y) == (if y < yy && in_disk(
                    cx as int,
                    cy as int,
                    r as int,
                    x,
                    y,
                ) {
                    color
                } else {
                    old(img).pix(x, y)
                }),
        decreases y_hi + 1 - yy,
    {
        let mut xx: i64 = x_lo;
        proof {
            assert forall|x: int, y: int|
                old(img).in_bounds(x, y) && y == yy && x < x_lo && in_disk(
                    cx as int,
                    cy as int,
                    r as int,
                    x,
                    y,
                ) implies false by {
                lemma_disk_box(cx as int, cy as int, r as int, x, y);
            }
        }
        while xx <= x_hi
            invariant
                img.wf(),
                img.width == old(img).width,
                img.height == old(img).height,
                w == img.width,
                h == img.height,
                r == radius,
                -0x1_0000_0000 <= cx <= 0x1_0000_0000,
                -0x1_0000_0000 <= cy <= 0x1_0000_0000,
                x_lo == vstd::math::max(cx - r, 0),
                x_hi == vstd::math::min(cx + r, w - 1),
                y_lo == vstd::math::max(cy - r, 0),
                y_hi == vstd::math::min(cy + r, h - 1),
                y_lo <= yy <= y_hi,
                y_hi <= h - 1,
                x_lo <= xx,
                xx <= x_hi + 1 || xx == x_lo,
                forall|x: int, y: int|
                    old(img).in_bounds(x, y) ==> #[trigger] img.pix(x, y) == (if (y < yy || (y
                        == yy && x < xx)) && in_disk(cx as int, cy as int, r as int, x, y) {
                        color
                    } else {
                        old(img).pix(x, y)
                    }),
            decreases x_hi + 1 - xx,
        {
            let dxs: i64 = xx - cx;
            let dys: i64 = yy - cy;
            proof {
                assert(0 <= dxs * dxs <= 0x400_0000_0000_0000_0000) by (nonlinear_arith)
                    requires
                        -0x10_0000_0000 <= dxs <= 0x10_0000_0000,
                ;
                assert(0 <= dys * dys <= 0x400_0000_0000_0000_0000) by (nonlinear_arith)
                    requires
                        -0x10_0000_0000 <= dys <= 0x10_0000_0000,
                ;
                assert(r as u128 * r as u128 == r * r && r * r <= 0x1_0000_0000_0000_0000)
                    by (nonlinear_arith)
                    requires
                        0 <= r <= 0x1_0000_0000,
                ;
            }
            let d2: u128 = (dxs as i128 * dxs as i128) as u128 + (dys as i128 * dys as i128)
                as u128;
            let ghost prev = *img;
            if d2 <= r as u128 * r as u128 {
                img.set_pixel(xx as u32, yy as u32, color);
            }
            xx = xx + 1;
            proof {
                assert forall|x: int, y: int| old(img).in_bounds(x, y) implies #[trigger] img.pix(
                    x,
                    y,
                ) == (if (y < yy || (y == yy && x < xx)) && in_disk(
                    cx as int,
                    cy as int,
                    r as int,
                    x,
                    y,
                ) {
                    color
                } else {
                    old(img).pix(x, y)
                }) by {
                    if x == xx - 1 && y == yy {
                        assert(in_disk(cx as int, cy as int, r as int, x, y) <==> d2 <= r as u128
                            * r as u128);
                    }
                }
            }
        }
        yy = yy + 1;
        proof {
            assert forall|x: int, y: int| old(img).in_bounds(x, y) implies #[trigger] img.pix(x, y)
                == (if y < yy && in_disk(cx as int, cy as int, r as int, x, y) {
                color
            } else {
                old(img).pix(x, y)
            }) by {
                if y == yy - 1 && in_disk(cx as int, cy as int, r as int, x, y) {
                    lemma_disk_box(cx as int, cy as int, r as int, x, y);
                }
            }
        }
    }
    proof {
        assert forall|x: int, y: int| old(img).in_bounds(x, y) implies #[trigger] img.pix(x, y)
            == (if in_disk(cx as int, cy as int, radius as int, x, y) {
            color
        } else {
            old(img).pix(x, y)
        }) by {
            if in_disk(cx as int, cy as int, radius as int, x, y) {
                lemma_disk_box(cx as int, cy as int, radius as int, x, y);
            }
        }
    }
}

/// (x, y) lies within distance `t` of some point of the line from
/// (x0, y0) to (x1, y1).
pub open spec fn line_covered(x0: int, y0: int, x1: int, y1: int, t: int, x: int, y: int) -> bool {
    exists|k: int|
        0 <= k < bres_points(x0, y0, x1, y1).len() && in_disk(
            (#[trigger] bres_points(x0, y0, x1, y1)[k]).0,
            bres_points(x0, y0, x1, y1)[k].1,
            t,
            x,
            y,
        )
}

/// Draw a thick line: a filled disk of radius `t` stamped at every point
/// of the rasterized line between the two endpoints. Pixels beyond
/// distance `t` of the line keep their value.
pub fn draw_thick_line(img: &mut Canvas, x0: u32, y0: u32, x1: u32, y1: u32, t: u32, color: Rgba)
    requires
        old(img).wf(),
    ensures
        final(img).wf(),
        final(img).width == old(img).width,
        final(img).height == old(img).height,
        forall|x: int, y: int|
            old(img).in_bounds(x, y) ==> #[trigger] final(img).pix(x, y) == (if line_covered(
                x0 as int,
                y0 as int,
                x1 as int,
                y1 as int,
                t as int,
                x,
                y,
            ) {
                color
            } else {
                old(img).pix(x, y)
            }),
{
    let pts = bresenham_line(x0 as usize, y0 as usize, x1 as usize, y1 as usize);
    let ghost lpts = bres_points(x0 as int, y0 as int, x1 as int, y1 as int);
    let mut i: usize = 0;
    while i < pts.len()
        invariant
            img.wf(),
            img.width == old(img).width,
            img.height == old(img).height,
            i <= pts@.len(),
            lpts == bres_points(x0 as int, y0 as int, x1 as int, y1 as int),
            pts@.map_values(|p: (usize, usize)| (p.0 as int, p.1 as int)) == lpts,
            forall|k: int|
                0 <= k < pts@.len() ==> (#[trigger] pts@[k]).0 <= u32::MAX && pts@[k].1
                    <= u32::MAX,
            forall|x: int, y: int|
                old(img).in_bounds(x, y) ==> #[trigger] img.pix(x, y) == (if (exists|k: int|
                    0 <= k < i && in_disk(
                        (#[trigger] lpts[k]).0,
                        lpts[k].1,
                        t as int,
                        x,
                        y,
                    )) {
                    color
                } else {
                    old(img).pix(x, y)
                }),
        decreases pts@.len() - i,
    {
        let p = pts[i];
        let ghost prev = *img;
        proof {
            assert(lpts[i as int] == (p.0 as int, p.1 as int));
        }
        draw_filled_circle_mut(img, p.0 as i64, p.1 as i64, t, color);
        i = i + 1;
        proof {
            assert forall|x: int, y: int| old(img).in_bounds(x, y) implies #[trigger] img.pix(
                x,
                y,
            ) == (if (exists|k: int|
                0 <= k < i && in_disk((#[trigger] lpts[k]).0, lpts[k].1, t as int, x, y)) {
                color
            } else {
                old(img).pix(x, y)
            }) by {
                if in_disk(lpts[i - 1].0, lpts[i - 1].1, t as int, x, y) {
                    assert(0 <= i - 1 < i && in_disk(
                        (lpts[i - 1]).0,
                        lpts[i - 1].1,
                        t as int,
                        x,
                        y,
                    ));
                } else {
                    assert(img.pix(x, y) == prev.pix(x, y));
                    if exists|k: int|
                        0 <= k < i && in_disk((#[trigger] lpts[k]).0, lpts[k].1, t as int, x, y) {
                        let k = choose|k: int|
                            0 <= k < i && in_disk(
                                (#[trigger] lpts[k]).0,
                                lpts[k].1,
                                t as int,
                                x,
                                y,
                            );
                        assert(0 <= k < i - 1);
                    }
                }
            }
        }
    }
    proof {
        assert forall|x: int, y: int| old(img).in_bounds(x, y) implies #[trigger] img.pix(x, y)
            == (if line_covered(x0 as int, y0 as int, x1 as int, y1 as int, t as int, x, y) {
            color
        } else {
            old(img).pix(x, y)
        }) by {
            assert(i == lpts.len());
        }
    }
}

/// (px, py) lies in the axis-aligned rectangle with corner (x, y) and
/// the given extent.
pub open spec fn in_rect(x: int, y: int, w: int, h: int, px: int, py: int) -> bool {
    x <= px < x + w && y <= py < y + h
}

/// Fill the rectangle with corner (x, y) and size w x h, clipped to the
/// canvas, with `color`. Every other pixel keeps its value.
pub fn draw_filled_rect_mut(img: &mut Canvas, x: u32, y: u32, w: u32, h: u32, color: Rgba)
    requires
        old(img).wf(),
    ensures
        final(img).wf(),
        final(img).width == old(img).width,
        final(img).height == old(img).height,
        forall|px: int, py: int|
            old(img).in_bounds(px, py) ==> #[trigger] final(img).pix(px, py) == (if in_rect(
                x as int,
                y as int,
                w as int,
                h as int,
                px,
                py,
            ) {
                color
            } else {
                old(img).pix(px, py)
            }),
{
    let iw = img.width;
    let ih = img.height;
    let x_end: u64 = if (x as u64) + (w as u64) < iw as u64 {
        (x as u64) + (w as u64)
    } else {
        iw as u64
    };
    let y_end: u64 = if (y as u64) + (h as u64) < ih as u64 {
        (y as u64) + (h as u64)
    } else {
        ih as u64
    };
    let mut yy: u64 = y as u64;
    while yy < y_end
        invariant
            img.wf(),
            img.width == old(img).width,
            img.height == old(img).height,
            iw == img.width,
            ih == img.height,
            x_end == vstd::math::min(x + w, iw as int),
            y_end == vstd::math::min(y + h, ih as int),
            y <= yy,
            yy <= y_end || yy == y,
            forall|px: int, py: int|
                old(img).in_bounds(px, py) ==> #[trigger] img.pix(px, py) == (if py < yy
                    && in_rect(x as int, y as int, w as int, h as int, px, py) {
                    color
                } else {
                    old(img).pix(px, py)
                }),
        decreases y_end - yy,
    {
        let mut xx: u64 = x as u64;
        while xx < x_end
            invariant
                img.wf(),
                img.width == old(img).width,
                img.height == old(img).height,
                iw == img.width,
                ih == img.height,
                x_end == vstd::math::min(x + w, iw as int),
                y_end == vstd::math::min(y + h, ih as int),
                y <= yy < y_end,
                x <= xx,
                xx <= x_end || xx == x,
                forall|px: int, py: int|
                    old(img).in_bounds(px, py) ==> #[trigger] img.pix(px, py) == (if (py < yy || (
                    py == yy && px < xx)) && in_rect(x as int, y as int, w as int, h as int, px, py) {
                        color
                    } else {
                        old(img).pix(px, py)
                    }),
            decreases x_end - xx,
        {
            img.set_pixel(xx as u32, yy as u32, color);
            xx = xx + 1;
        }
        yy = yy + 1;
    }
}

/// The attenuated blend alpha of the highlighter: one tenth of the
/// underlying pixel's alpha.
pub open spec fn highlight_alpha(a: u8) -> int {
    a as int / 10
}

/// One channel of alpha-over compositing with blend alpha `fa`:
/// the channel moves from `bc` toward `fc` by the fraction fa / 255.
pub open spec fn blend_channel(bc: u8, fc: u8, fa: int) -> u8 {
    (((fc as int) * fa + (bc as int) * (255 - fa)) / 255) as u8
}

/// The alpha channel after compositing: the background alpha raised
/// toward full opacity by the fraction fa / 255.
pub open spec fn alpha_over(ba: u8, fa: int) -> u8 {
    (ba + (255 - ba) * fa / 255) as u8
}

/// The highlighter's translucent marker blend: the draw color composited
/// over the reference pixel with a blend alpha of one tenth of the
/// reference pixel's own alpha, so opacity is data-dependent.
pub open spec fn blend_over(bg: Rgba, fg: Rgba) -> Rgba {
    let fa = highlight_alpha(bg.a);
    Rgba {
        r: blend_channel(bg.r, fg.r, fa),
        g: blend_channel(bg.g, fg.g, fa),
        b: blend_channel(bg.b, fg.b, fa),
        a: alpha_over(bg.a, fa),
    }
}

/// The numerator of one blended channel stays within one byte's range
/// after the division.
proof fn lemma_blend_channel_range(bc: u8, fc: u8, fa: int)
    requires
        0 <= fa <= 255,
    ensures
        0 <= (fc as int) * fa + (bc as int) * (255 - fa) <= 255 * 255,
        0 <= ((fc as int) * fa + (bc as int) * (255 - fa)) / 255 <= 255,
        0 <= (255 - bc as int) * fa / 255 <= 255 - bc as int,
{
    assert(0 <= (fc as int) * fa + (bc as int) * (255 - fa) <= 255 * 255) by (nonlinear_arith)
        requires
            0 <= fa <= 255,
            0 <= fc <= 255,
            0 <= bc <= 255,
    ;
    assert(0 <= (255 - bc as int) * fa <= (255 - bc as int) * 255) by (nonlinear_arith)
        requires
            0 <= fa <= 255,
            0 <= bc <= 255,
    ;
}

/// Composite `fg` over `bg` with the highlighter's attenuated alpha.
fn blend_pixel(bg: Rgba, fg: Rgba) -> (r: Rgba)
    ensures
        r == blend_over(bg, fg),
{
    let fa: u32 = bg.a as u32 / 10;
    proof {
        lemma_blend_channel_range(bg.r, fg.r, fa as int);
        lemma_blend_channel_range(bg.g, fg.g, fa as int);
        lemma_blend_channel_range(bg.b, fg.b, fa as int);
        lemma_blend_channel_range(bg.a, fg.a, fa as int);
    }
    let nr: u32 = (fg.r as u32 * fa + bg.r as u32 * (255 - fa)) / 255;
    let ng: u32 = (fg.g as u32 * fa + bg.g as u32 * (255 - fa)) / 255;
    let nb: u32 = (fg.b as u32 * fa + bg.b as u32 * (255 - fa)) / 255;
    let na: u32 = bg.a as u32 + (255 - bg.a as u32) * fa / 255;
    Rgba { r: nr as u8, g: ng as u8, b: nb as u8, a: na as u8 }
}

/// What a reference-based stamp writes at (x, y): the reference pixel
/// itself (content-restoring erase) or the draw color blended over it
/// (highlight).
pub open spec fn src_value(refc: Canvas, blend: bool, color: Rgba, x: int, y: int) -> Rgba {
    if blend {
        blend_over(refc.pix(x, y), color)
    } else {
        refc.pix(x, y)
    }
}

/// Stamp a disk whose pixels are computed from the same position of a
/// reference canvas of identical dimensions.
fn stamp_src_disk(
    img: &mut Canvas,
    refc: &Canvas,
    cx: i64,
    cy: i64,
    radius: u32,
    blend: bool,
    color: Rgba,
)
    requires
        old(img).wf(),
        refc.wf(),
        refc.width == old(img).width,
        refc.height == old(img).height,
        -0x1_0000_0000 <= cx <= 0x1_0000_0000,
        -0x1_0000_0000 <= cy <= 0x1_0000_0000,
    ensures
        final(img).wf(),
        final(img).width == old(img).width,
        final(img).height == old(img).height,
        forall|x: int, y: int|
            old(img).in_bounds(x, y) ==> #[trigger] final(img).pix(x, y) == (if in_disk(
                cx as int,
                cy as int,
                radius as int,
                x,
                y,
            ) {
                src_value(*refc, blend, color, x, y)
            } else {
                old(img).pix(x, y)
            }),
{
    let r = radius as i64;
    let h = img.height as i64;
    let w = img.width as i64;
    let y_lo: i64 = if cy - r > 0 {
        cy - r
    } else {
        0
    };
    let y_hi: i64 = if cy + r < h - 1 {
        cy + r
    } else {
        h - 1
    };
    let x_lo: i64 = if cx - r > 0 {
        cx - r
    } else {
        0
    };
    let x_hi: i64 = if cx + r < w - 1 {
        cx + r
    } else {
        w - 1
    };
    let mut yy: i64 = y_lo;
    proof {
        assert forall|x: int, y: int|
            old(img).in_bounds(x, y) && y < y_lo && in_disk(
                cx as int,
                cy as int,
                r as int,
                x,
                y,
            ) implies false by {
            lemma_disk_box(cx as int, cy as int, r as int, x, y);
        }
    }
    while yy <= y_hi
        invariant
            img.wf(),
            img.width == old(img).width,
            img.height == old(img).height,
            refc.wf(),
            refc.width == old(img).width,
            refc.height == old(img).height,
            w == img.width,
            h == img.height,
            r == radius,
            -0x1_0000_0000 <= cx <= 0x1_0000_0000,
            -0x1_0000_0000 <= cy <= 0x1_0000_0000,
            y_lo == vstd::math::max(cy - r, 0),
            y_hi == vstd::math::min(cy + r, h - 1),
            x_lo == vstd::math::max(cx - r, 0),
            x_hi == vstd::math::min(cx + r, w - 1),
            y_lo <= yy,
            yy <= y_hi + 1 || yy == y_lo,
            forall|x: int, y: int|
                old(img).in_bounds(x, y) ==> #[trigger] img.pix(x, y) == (if y < yy && in_disk(
                    cx as int,
                    cy as int,
                    r as int,
                    x,
                    y,
                ) {
                    src_value(*refc, blend, color, x, y)
                } else {
                    old(img).pix(x, y)
                }),
        decreases y_hi + 1 - yy,
    {
        let mut xx: i64 = x_lo;
        proof {
            assert forall|x: int, y: int|
                old(img).in_bounds(x, y) && y == yy && x < x_lo && in_disk(
                    cx as int,
                    cy as int,
                    r as int,
                    x,
                    y,
                ) implies false by {
                lemma_disk_box(cx as int, cy as int, r as int, x, y);
            }
        }
        while xx <= x_hi
            invariant
                img.wf(),
                img.width == old(img).width,
                img.height == old(img).height,
                refc.wf(),
                refc.width == old(img).width,
                refc.height == old(img).height,
                w == img.width,
                h == img.height,
                r == radius,
                -0x1_0000_0000 <= cx <= 0x1_0000_0000,
                -0x1_0000_0000 <= cy <= 0x1_0000_0000,
                x_lo == vstd::math::max(cx - r, 0),
                x_hi == vstd::math::min(cx + r, w - 1),
                y_lo == vstd::math::max(cy - r, 0),
                y_hi == vstd::math::min(cy + r, h - 1),
                y_lo <= yy <= y_hi,
                y_hi <= h - 1,
                x_lo <= xx,
                xx <= x_hi + 1 || xx == x_lo,
                forall|x: int, y: int|
                    old(img).in_bounds(x, y) ==> #[trigger] img.pix(x, y) == (if (y < yy || (y
                        == yy && x < xx)) && in_disk(cx as int, cy as int, r as int, x, y) {
                        src_value(*refc, blend, color, x, y)
                    } else {
                        old(img).pix(x, y)
                    }),
            decreases x_hi + 1 - xx,
        {
            let dxs: i64 = xx - cx;
            let dys: i64 = yy - cy;
            proof {
                assert(0 <= dxs * dxs <= 0x400_0000_0000_0000_0000) by (nonlinear_arith)
                    requires
                        -0x10_0000_0000 <= dxs <= 0x10_0000_0000,
                ;
                assert(0 <= dys * dys <= 0x400_0000_0000_0000_0000) by (nonlinear_arith)
                    requires
                        -0x10_0000_0000 <= dys <= 0x10_0000_0000,
                ;
                assert(r as u128 * r as u128 == r * r && r * r <= 0x1_0000_0000_0000_0000)
                    by (nonlinear_arith)
                    requires
                        0 <= r <= 0x1_0000_0000,
                ;
            }
            let d2: u128 = (dxs as i128 * dxs as i128) as u128 + (dys as i128 * dys as i128)
                as u128;
            if d2 <= r as u128 * r as u128 {
                let bg = match refc.get_pixel(xx as u32, yy as u32) {
                    Some(p) => p,
                    None => {
                        proof {
                            assert(false);
                        }
                        color
                    },
                };
                let v = if blend {
                    blend_pixel(bg, color)
                } else {
                    bg
                };
                img.set_pixel(xx as u32, yy as u32, v);
            }
            xx = xx + 1;
            proof {
                assert forall|x: int, y: int| old(img).in_bounds(x, y) implies #[trigger] img.pix(
                    x,
                    y,
                ) == (if (y < yy || (y == yy && x < xx)) && in_disk(
                    cx as int,
                    cy as int,
                    r as int,
                    x,
                    y,
                ) {
                    src_value(*refc, blend, color, x, y)
                } else {
                    old(img).pix(x, y)
                }) by {
                    if x == xx - 1 && y == yy {
                        assert(in_disk(cx as int, cy as int, r as int, x, y) <==> d2 <= r as u128
                            * r as u128);
                    }
                }
            }
        }
        yy = yy + 1;
        proof {
            assert forall|x: int, y: int| old(img).in_bounds(x, y) implies #[trigger] img.pix(x, y)
                == (if y < yy && in_disk(cx as int, cy as int, r as int, x, y) {
                src_value(*refc, blend, color, x, y)
            } else {
                old(img).pix(x, y)
            }) by {
                if y == yy - 1 && in_disk(cx as int, cy as int, r as int, x, y) {
                    lemma_disk_box(cx as int, cy as int, r as int, x, y);
                }
            }
        }
    }
    proof {
        assert forall|x: int, y: int| old(img).in_bounds(x, y) implies #[trigger] img.pix(x, y)
            == (if in_disk(cx as int, cy as int, radius as int, x, y) {
            src_value(*refc, blend, color, x, y)
        } else {
            old(img).pix(x, y)
        }) by {
            if in_disk(cx as int, cy as int, radius as int, x, y) {
                lemma_disk_box(cx as int, cy as int, radius as int, x, y);
            }
        }
    }
}

/// Erase a filled disk: every pixel of the disk is restored verbatim
/// from the same position of the reference canvas.
pub fn erase_filled_circle_mut(refc: &Canvas, img: &mut Canvas, cx: i64, cy: i64, radius: u32)
    requires
        old(img).wf(),
        refc.wf(),
        refc.width == old(img).width,
        refc.height == old(img).height,
        -0x1_0000_0000 <= cx <= 0x1_0000_0000,
        -0x1_0000_0000 <= cy <= 0x1_0000_0000,
    ensures
        final(img).wf(),
        final(img).width == old(img).width,
        final(img).height == old(img).height,
        forall|x: int, y: int|
            old(img).in_bounds(x, y) ==> #[trigger] final(img).pix(x, y) == (if in_disk(
                cx as int,
                cy as int,
                radius as int,
                x,
                y,
            ) {
                refc.pix(x, y)
            } else {
                old(img).pix(x, y)
            }),
{
    stamp_src_disk(img, refc, cx, cy, radius, false, Rgba { r: 0, g: 0, b: 0, a: 0 });
}

/// Blend the draw color over a filled disk, reading the underlying
/// pixels from the reference canvas with the highlighter's attenuated
/// alpha.
pub fn draw_blended_filled_circle_mut(
    refc: &Canvas,
    img: &mut Canvas,
    cx: i64,
    cy: i64,
    radius: u32,
    color: Rgba,
)
    requires
        old(img).wf(),
        refc.wf(),
        refc.width == old(img).width,
        refc.height == old(img).height,
        -0x1_0000_0000 <= cx <= 0x1_0000_0000,
        -0x1_0000_0000 <= cy <= 0x1_0000_0000,
    ensures
        final(img).wf(),
        final(img).width == old(img).width,
        final(img).height == old(img).height,
        forall|x: int, y: int|
            old(img).in_bounds(x, y) ==> #[trigger] final(img).pix(x, y) == (if in_disk(
                cx as int,
                cy as int,
                radius as int,
                x,
                y,
            ) {
                blend_over(refc.pix(x, y), color)
            } else {
                old(img).pix(x, y)
            }),
{
    stamp_src_disk(img, refc, cx, cy, radius, true, color);
}

/// (x, y) is itself a point of the rasterized line between the two
/// endpoints.
pub open spec fn on_line(x0: int, y0: int, x1: int, y1: int, x: int, y: int) -> bool {
    exists|k: int|
        0 <= k < bres_points(x0, y0, x1, y1).len() && (#[trigger] bres_points(x0, y0, x1, y1)[k])
            == (x, y)
}

/// Write the reference-derived value at every point of the rasterized
/// line between the two endpoints.
fn stamp_src_segment(
    img: &mut Canvas,
    refc: &Canvas,
    x0: u32,
    y0: u32,
    x1: u32,
    y1: u32,
    blend: bool,
    color: Rgba,
)
    requires
        old(img).wf(),
        refc.wf(),
        refc.width == old(img).width,
        refc.height == old(img).height,
    ensures
        final(img).wf(),
        final(img).width == old(img).width,
        final(img).height == old(img).height,
        forall|x: int, y: int|
            old(img).in_bounds(x, y) ==> #[trigger] final(img).pix(x, y) == (if on_line(
                x0 as int,
                y0 as int,
                x1 as int,
                y1 as int,
                x,
                y,
            ) {
                src_value(*refc, blend, color, x, y)
            } else {
                old(img).pix(x, y)
            }),
{
    let pts = bresenham_line(x0 as usize, y0 as usize, x1 as usize, y1 as usize);
    let ghost lpts = bres_points(x0 as int, y0 as int, x1 as int, y1 as int);
    let mut i: usize = 0;
    while i < pts.len()
        invariant
            img.wf(),
            img.width == old(img).width,
            img.height == old(img).height,
            refc.wf(),
            refc.width == old(img).width,
            refc.height == old(img).height,
            i <= pts@.len(),
            lpts == bres_points(x0 as int, y0 as int, x1 as int, y1 as int),
            pts@.map_values(|p: (usize, usize)| (p.0 as int, p.1 as int)) == lpts,
            forall|k: int|
                0 <= k < pts@.len() ==> (#[trigger] pts@[k]).0 <= u32::MAX && pts@[k].1
                    <= u32::MAX,
            forall|x: int, y: int|
                old(img).in_bounds(x, y) ==> #[trigger] img.pix(x, y) == (if (exists|k: int|
                    0 <= k < i && (#[trigger] lpts[k]) == (x, y)) {
                    src_value(*refc, blend, color, x, y)
                } else {
                    old(img).pix(x, y)
                }),
        decreases pts@.len() - i,
    {
        let p = pts[i];
        let ghost prev = *img;
        proof {
            assert(lpts[i as int] == (p.0 as int, p.1 as int));
        }
        if p.0 < img.width as usize && p.1 < img.height as usize {
            let bg = match refc.get_pixel(p.0 as u32, p.1 as u32) {
                Some(q) => q,
                None => {
                    proof {
                        assert(false);
                    }
                    color
                },
            };
            let v = if blend {
                blend_pixel(bg, color)
            } else {
                bg
            };
            img.set_pixel(p.0 as u32, p.1 as u32, v);
        }
        i = i + 1;
        proof {
            assert forall|x: int, y: int| old(img).in_bounds(x, y) implies #[trigger] img.pix(
                x,
                y,
            ) == (if (exists|k: int| 0 <= k < i && (#[trigger] lpts[k]) == (x, y)) {
                src_value(*refc, blend, color, x, y)
            } else {
                old(img).pix(x, y)
            }) by {
                if lpts[i - 1] == (x, y) {
                    assert(0 <= i - 1 < i && (lpts[i - 1]) == (x, y));
                    assert(img.pix(x, y) == src_value(*refc, blend, color, x, y));
                } else {
                    assert(img.pix(x, y) == prev.pix(x, y));
                    if exists|k: int| 0 <= k < i && (#[trigger] lpts[k]) == (x, y) {
                        let k = choose|k: int| 0 <= k < i && (#[trigger] lpts[k]) == (x, y);
                        assert(0 <= k < i - 1);
                    }
                }
            }
        }
    }
    proof {
        assert(i == lpts.len());
    }
}

/// Restore the pixels of one rasterized line segment verbatim from the
/// reference canvas.
pub fn erase_line_segment_mut(refc: &Canvas, img: &mut Canvas, x0: u32, y0: u32, x1: u32, y1: u32)
    requires
        old(img).wf(),
        refc.wf(),
        refc.width == old(img).width,
        refc.height == old(img).height,
    ensures
        final(img).wf(),
        final(img).width == old(img).width,
        final(img).height == old(img).height,
        forall|x: int, y: int|
            old(img).in_bounds(x, y) ==> #[trigger] final(img).pix(x, y) == (if on_line(
                x0 as int,
                y0 as int,
                x1 as int,
                y1 as int,
                x,
                y,
            ) {
                refc.pix(x, y)
            } else {
                old(img).pix(x, y)
            }),
{
    stamp_src_segment(img, refc, x0, y0, x1, y1, false, Rgba { r: 0, g: 0, b: 0, a: 0 });
}

/// Blend the draw color over the pixels of one rasterized line segment,
/// reading the underlying pixels from the reference canvas.
pub fn draw_blended_line_segment_mut(
    refc: &Canvas,
    img: &mut Canvas,
    x0: u32,
    y0: u32,
    x1: u32,
    y1: u32,
    color: Rgba,
)
    requires
        old(img).wf(),
        refc.wf(),
        refc.width == old(img).width,
        refc.height == old(img).height,
    ensures
        final(img).wf(),
        final(img).width == old(img).width,
        final(img).height == old(img).height,
        forall|x: int, y: int|
            old(img).in_bounds(x, y) ==> #[trigger] final(img).pix(x, y) == (if on_line(
                x0 as int,
                y0 as int,
                x1 as int,
                y1 as int,
                x,
                y,
            ) {
                blend_over(refc.pix(x, y), color)
            } else {
                old(img).pix(x, y)
            }),
{
    stamp_src_segment(img, refc, x0, y0, x1, y1, true, color);
}

/// Stamp reference-derived disks at every point of the rasterized line.
fn stamp_src_thick_line(
    img: &mut Canvas,
    refc: &Canvas,
    x0: u32,
    y0: u32,
    x1: u32,
    y1: u32,
    t: u32,
    blend: bool,
    color: Rgba,
)
    requires
        old(img).wf(),
        refc.wf(),
        refc.width == old(img).width,
        refc.height == old(img).height,
    ensures
        final(img).wf(),
        final(img).width == old(img).width,
        final(img).height == old(img).height,
        forall|x: int, y: int|
            old(img).in_bounds(x, y) ==> #[trigger] final(img).pix(x, y) == (if line_covered(
                x0 as int,
                y0 as int,
                x1 as int,
                y1 as int,
                t as int,
                x,
                y,
            ) {
                src_value(*refc, blend, color, x, y)
            } else {
                old(img).pix(x, y)
            }),
{
    let pts = bresenham_line(x0 as usize, y0 as usize, x1 as usize, y1 as usize);
    let ghost lpts = bres_points(x0 as int, y0 as int, x1 as int, y1 as int);
    let mut i: usize = 0;
    while i < pts.len()
        invariant
            img.wf(),
            img.width == old(img).width,
            img.height == old(img).height,
            refc.wf(),
            refc.width == old(img).width,
            refc.height == old(img).height,
            i <= pts@.len(),
            lpts == bres_points(x0 as int, y0 as int, x1 as int, y1 as int),
            pts@.map_values(|p: (usize, usize)| (p.0 as int, p.1 as int)) == lpts,
            forall|k: int|
                0 <= k < pts@.len() ==> (#[trigger] pts@[k]).0 <= u32::MAX && pts@[k].1
                    <= u32::MAX,
            forall|x: int, y: int|
                old(img).in_bounds(x, y) ==> #[trigger] img.pix(x, y) == (if (exists|k: int|
                    0 <= k < i && in_disk(
                        (#[trigger] lpts[k]).0,
                        lpts[k].1,
                        t as int,
                        x,
                        y,
                    )) {
                    src_value(*refc, blend, color, x, y)
                } else {
                    old(img).pix(x, y)
                }),
        decreases pts@.len() - i,
    {
        let p = pts[i];
        let ghost prev = *img;
        proof {
            assert(lpts[i as int] == (p.0 as int, p.1 as int));
        }
        stamp_src_disk(img, refc, p.0 as i64, p.1 as i64, t, blend, color);
        i = i + 1;
        proof {
            assert forall|x: int, y: int| old(img).in_bounds(x, y) implies #[trigger] img.pix(
                x,
                y,
            ) == (if (exists|k: int|
                0 <= k < i && in_disk((#[trigger] lpts[k]).0, lpts[k].1, t as int, x, y)) {
                src_value(*refc, blend, color, x, y)
            } else {
                old(img).pix(x, y)
            }) by {
                if in_disk(lpts[i - 1].0, lpts[i - 1].1, t as int, x, y) {
                    assert(0 <= i - 1 < i && in_disk(
                        (lpts[i - 1]).0,
                        lpts[i - 1].1,
                        t as int,
                        x,
                        y,
                    ));
                } else {
                    assert(img.pix(x, y) == prev.pix(x, y));
                    if exists|k: int|
                        0 <= k < i && in_disk((#[trigger] lpts[k]).0, lpts[k].1, t as int, x, y) {
                        let k = choose|k: int|
                            0 <= k < i && in_disk(
                                (#[trigger] lpts[k]).0,
                                lpts[k].1,
                                t as int,
                                x,
                                y,
                            );
                        assert(0 <= k < i - 1);
                    }
                }
            }
        }
    }
    proof {
        assert(i == lpts.len());
    }
}

/// Content-restoring erase along a thick line: every pixel within
/// distance `t` of the rasterized line is restored verbatim from the
/// reference canvas.
pub fn erase_thick_line(
    refc: &Canvas,
    img: &mut Canvas,
    x0: u32,
    y0: u32,
    x1: u32,
    y1: u32,
    t: u32,
)
    requires
        old(img).wf(),
        refc.wf(),
        refc.width == old(img).width,
        refc.height == old(img).height,
    ensures
        final(img).wf(),
        final(img).width == old(img).width,
        final(img).height == old(img).height,
        forall|x: int, y: int|
            old(img).in_bounds(x, y) ==> #[trigger] final(img).pix(x, y) == (if line_covered(
                x0 as int,
                y0 as int,
                x1 as int,
                y1 as int,
                t as int,
                x,
                y,
            ) {
                refc.pix(x, y)
            } else {
                old(img).pix(x, y)
            }),
{
    stamp_src_thick_line(img, refc, x0, y0, x1, y1, t, false, Rgba { r: 0, g: 0, b: 0, a: 0 });
}

/// Highlight along a thick line: every pixel within distance `t` of the
/// rasterized line becomes the draw color blended over the reference
/// canvas's pixel with the attenuated alpha.
pub fn highlight_line(
    refc: &Canvas,
    img: &mut Canvas,
    x0: u32,
    y0: u32,
    x1: u32,
    y1: u32,
    t: u32,
    color: Rgba,
)
    requires
        old(img).wf(),
        refc.wf(),
        refc.width == old(img).width,
        refc.height == old(img).height,
    ensures
        final(img).wf(),
        final(img).width == old(img).width,
        final(img).height == old(img).height,
        forall|x: int, y: int|
            old(img).in_bounds(x, y) ==> #[trigger] final(img).pix(x, y) == (if line_covered(
                x0 as int,
                y0 as int,
                x1 as int,
                y1 as int,
                t as int,
                x,
                y,
            ) {
                blend_over(refc.pix(x, y), color)
            } else {
                old(img).pix(x, y)
            }),
{
    stamp_src_thick_line(img, refc, x0, y0, x1, y1, t, true, color);
}

/// (px, py) lies on the border of thickness `t` of the rectangle:
/// inside the rectangle but not in its interior once `t` pixels are
/// peeled from every side.
pub open spec fn in_border(x: int, y: int, w: int, h: int, t: int, px: int, py: int) -> bool {
    in_rect(x, y, w, h, px, py) && !in_rect(x + t, y + t, w - 2 * t, h - 2 * t, px, py)
}

/// Draw the hollow rectangle with corner (x, y) and size w x h as a
/// border band of thickness `2 * thickness`, clamped to at least one
/// pixel, clipped to the canvas.
pub fn draw_thick_hollow_rect_mut(
    img: &mut Canvas,
    x: u32,
    y: u32,
    w: u32,
    h: u32,
    thickness: u32,
    color: Rgba,
)
    requires
        old(img).wf(),
        thickness <= 0x1000_0000,
    ensures
        final(img).wf(),
        final(img).width == old(img).width,
        final(img).height == old(img).height,
        forall|px: int, py: int|
            old(img).in_bounds(px, py) ==> #[trigger] final(img).pix(px, py) == (if in_border(
                x as int,
                y as int,
                w as int,
                h as int,
                vstd::math::max(2 * thickness, 1),
                px,
                py,
            ) {
                color
            } else {
                old(img).pix(px, py)
            }),
{
    let t: u32 = if thickness == 0 {
        1
    } else {
        2 * thickness
    };
    let iw = img.width;
    let ih = img.height;
    let x_end: u64 = if (x as u64) + (w as u64) < iw as u64 {
        (x as u64) + (w as u64)
    } else {
        iw as u64
    };
    let y_end: u64 = if (y as u64) + (h as u64) < ih as u64 {
        (y as u64) + (h as u64)
    } else {
        ih as u64
    };
    let mut yy: u64 = y as u64;
    while yy < y_end
        invariant
            img.wf(),
            img.width == old(img).width,
            img.height == old(img).height,
            iw == img.width,
            ih == img.height,
            t == vstd::math::max(2 * thickness, 1),
            t <= 0x2000_0000,
            x_end == vstd::math::min(x + w, iw as int),
            y_end == vstd::math::min(y + h, ih as int),
            y <= yy,
            yy <= y_end || yy == y,
            forall|px: int, py: int|
                old(img).in_bounds(px, py) ==> #[trigger] img.pix(px, py) == (if py < yy
                    && in_border(x as int, y as int, w as int, h as int, t as int, px, py) {
                    color
                } else {
                    old(img).pix(px, py)
                }),
        decreases y_end - yy,
    {
        let mut xx: u64 = x as u64;
        while xx < x_end
            invariant
                img.wf(),
                img.width == old(img).width,
                img.height == old(img).height,
                iw == img.width,
                ih == img.height,
                t == vstd::math::max(2 * thickness, 1),
                t <= 0x2000_0000,
                x_end == vstd::math::min(x + w, iw as int),
                y_end == vstd::math::min(y + h, ih as int),
                y <= yy < y_end,
                x <= xx,
                xx <= x_end || xx == x,
                forall|px: int, py: int|
                    old(img).in_bounds(px, py) ==> #[trigger] img.pix(px, py) == (if (py < yy || (
                    py == yy && px < xx)) && in_border(
                        x as int,
                        y as int,
                        w as int,
                        h as int,
                        t as int,
                        px,
                        py,
                    ) {
                        color
                    } else {
                        old(img).pix(px, py)
                    }),
            decreases x_end - xx,
        {
            let inner = (x as u64 + t as u64) <= xx && xx < (x as u64 + w as u64).saturating_sub(
                t as u64,
            ) && (y as u64 + t as u64) <= yy && yy < (y as u64 + h as u64).saturating_sub(
                t as u64,
            );
            if !inner {
                img.set_pixel(xx as u32, yy as u32, color);
            }
            xx = xx + 1;
        }
        yy = yy + 1;
    }
}

/// (x, y) lies in the ring of the circle of the given radius and stroke
/// thickness around (cx, cy): at least `radius - t` and at most
/// `radius + t` away from the center.
pub open spec fn in_ring(cx: int, cy: int, radius: int, t: int, x: int, y: int) -> bool {
    let d2 = (x - cx) * (x - cx) + (y - cy) * (y - cy);
    let inner = if radius >= t {
        radius - t
    } else {
        0
    };
    inner * inner <= d2 <= (radius + t) * (radius + t)
}

/// A point of the ring is within `radius + t` of the center on each
/// axis.
proof fn lemma_ring_box(cx: int, cy: int, radius: int, t: int, x: int, y: int)
    requires
        0 <= radius,
        0 <= t,
        in_ring(cx, cy, radius, t, x, y),
    ensures
        cx - (radius + t) <= x <= cx + (radius + t),
        cy - (radius + t) <= y <= cy + (radius + t),
{
    assert((x - cx) * (x - cx) + (y - cy) * (y - cy) <= (radius + t) * (radius + t) && (cx - (
    radius + t) <= x <= cx + (radius + t)) && (cy - (radius + t) <= y <= cy + (radius + t))
        || !in_ring(cx, cy, radius, t, x, y)) by (nonlinear_arith)
        requires
            0 <= radius,
            0 <= t,
    ;
}

/// Draw the outline of the circle of the given radius around the center
/// as a ring of stroke thickness `t`: every pixel whose distance from
/// the center lies between `radius - t` and `radius + t` becomes
/// `color`; every other pixel keeps its value.
pub fn draw_thick_hollow_circle_mut(
    img: &mut Canvas,
    cx: i64,
    cy: i64,
    radius: u32,
    t: u32,
    color: Rgba,
)
    requires
        old(img).wf(),
        -0x1_0000_0000 <= cx <= 0x1_0000_0000,
        -0x1_0000_0000 <= cy <= 0x1_0000_0000,
    ensures
        final(img).wf(),
        final(img).width == old(img).width,
        final(img).height == old(img).height,
        forall|x: int, y: int|
            old(img).in_bounds(x, y) ==> #[trigger] final(img).pix(x, y) == (if in_ring(
                cx as int,
                cy as int,
                radius as int,
                t as int,
                x,
                y,
            ) {
                color
            } else {
                old(img).pix(x, y)
            }),
{
    let r: i64 = radius as i64 + t as i64;
    let inner: u64 = if radius >= t {
        (radius - t) as u64
    } else {
        0
    };
    let h = img.height as i64;
    let w = img.width as i64;
    let y_lo: i64 = if cy - r > 0 {
        cy - r
    } else {
        0
    };
    let y_hi: i64 = if cy + r < h - 1 {
        cy + r
    } else {
        h - 1
    };
    let x_lo: i64 = if cx - r > 0 {
        cx - r
    } else {
        0
    };
    let x_hi: i64 = if cx + r < w - 1 {
        cx + r
    } else {
        w - 1
    };
    let mut yy: i64 = y_lo;
    proof {
        assert forall|x: int, y: int|
            old(img).in_bounds(x, y) && y < y_lo && in_ring(
                cx as int,
                cy as int,
                radius as int,
                t as int,
                x,
                y,
            ) implies false by {
            lemma_ring_box(cx as int, cy as int, radius as int, t as int, x, y);
        }
    }
    while yy <= y_hi
        invariant
            img.wf(),
            img.width == old(img).width,
            img.height == old(img).height,
            w == img.width,
            h == img.height,
            r == radius + t,
            inner == (if radius >= t {
                radius - t
            } else {
                0int
            }),
            -0x1_0000_0000 <= cx <= 0x1_0000_0000,
            -0x1_0000_0000 <= cy <= 0x1_0000_0000,
            y_lo == vstd::math::max(cy - r, 0),
            y_hi == vstd::math::min(cy + r, h - 1),
            x_lo == vstd::math::max(cx - r, 0),
            x_hi == vstd::math::min(cx + r, w - 1),
            y_lo <= yy,
            yy <= y_hi + 1 || yy == y_lo,
            forall|x: int, y: int|
                old(img).in_bounds(x, y) ==> #[trigger] img.pix(x, y) == (if y < yy && in_ring(
                    cx as int,
                    cy as int,
                    radius as int,
                    t as int,
                    x,
                    y,
                ) {
                    color
                } else {
                    old(img).pix(x, y)
                }),
        decreases y_hi + 1 - yy,
    {
        let mut xx: i64 = x_lo;
        proof {
            assert forall|x: int, y: int|
                old(img).in_bounds(x, y) && y == yy && x < x_lo && in_ring(
                    cx as int,
                    cy as int,
                    radius as int,
                    t as int,
                    x,
                    y,
                ) implies false by {
                lemma_ring_box(cx as int, cy as int, radius as int, t as int, x, y);
            }
        }
        while xx <= x_hi
            invariant
                img.wf(),
                img.width == old(img).width,
                img.height == old(img).height,
                w == img.width,
                h == img.height,
                r == radius + t,
                inner == (if radius >= t {
                    radius - t
                } else {
                    0int
                }),
                -0x1_0000_0000 <= cx <= 0x1_0000_0000,
                -0x1_0000_0000 <= cy <= 0x1_0000_0000,
                x_lo == vstd::math::max(cx - r, 0),
                x_hi == vstd::math::min(cx + r, w - 1),
                y_lo == vstd::math::max(cy - r, 0),
                y_hi == vstd::math::min(cy + r, h - 1),
                y_lo <= yy <= y_hi,
                y_hi <= h - 1,
                x_lo <= xx,
                xx <= x_hi + 1 || xx == x_lo,
                forall|x: int, y: int|
                    old(img).in_bounds(x, y) ==> #[trigger] img.pix(x, y) == (if (y < yy || (y
                        == yy && x < xx)) && in_ring(
                        cx as int,
                        cy as int,
                        radius as int,
                        t as int,
                        x,
                        y,
                    ) {
                        color
                    } else {
                        old(img).pix(x, y)
                    }),
            decreases x_hi + 1 - xx,
        {
            let dxs: i64 = xx - cx;
            let dys: i64 = yy - cy;
            proof {
                assert(0 <= dxs * dxs <= 0x400_0000_0000_0000_0000) by (nonlinear_arith)
                    requires
                        -0x10_0000_0000 <= dxs <= 0x10_0000_0000,
                ;
                assert(0 <= dys * dys <= 0x400_0000_0000_0000_0000) by (nonlinear_arith)
                    requires
                        -0x10_0000_0000 <= dys <= 0x10_0000_0000,
                ;
                assert(r as u128 * r as u128 == r * r && r * r <= 0x4_0000_0000_0000_0000)
                    by (nonlinear_arith)
                    requires
                        0 <= r <= 0x2_0000_0000,
                ;
                assert(inner as u128 * inner as u128 == inner * inner && inner * inner
                    <= 0x1_0000_0000_0000_0000) by (nonlinear_arith)
                    requires
                        0 <= inner <= 0x1_0000_0000,
                ;
            }
            let d2: u128 = (dxs as i128 * dxs as i128) as u128 + (dys as i128 * dys as i128)
                as u128;
            if inner as u128 * inner as u128 <= d2 && d2 <= r as u128 * r as u128 {
                img.set_pixel(xx as u32, yy as u32, color);
            }
            xx = xx + 1;
            proof {
                assert forall|x: int, y: int| old(img).in_bounds(x, y) implies #[trigger] img.pix(
                    x,
                    y,
                ) == (if (y < yy || (y == yy && x < xx)) && in_ring(
                    cx as int,
                    cy as int,
                    radius as int,
                    t as int,
                    x,
                    y,
                ) {
                    color
                } else {
                    old(img).pix(x, y)
                }) by {
                    if x == xx - 1 && y == yy {
                        assert(in_ring(cx as int, cy as int, radius as int, t as int, x, y) <==> (
                        inner as u128 * inner as u128 <= d2 && d2 <= r as u128 * r as u128));
                    }
                }
            }
        }
        yy = yy + 1;
        proof {
            assert forall|x: int, y: int| old(img).in_bounds(x, y) implies #[trigger] img.pix(x, y)
                == (if y < yy && in_ring(cx as int, cy as int, radius as int, t as int, x, y) {
                color
            } else {
                old(img).pix(x, y)
            }) by {
                if y == yy - 1 && in_ring(cx as int, cy as int, radius as int, t as int, x, y) {
                    lemma_ring_box(cx as int, cy as int, radius as int, t as int, x, y);
                }
            }
        }
    }
    proof {
        assert forall|x: int, y: int| old(img).in_bounds(x, y) implies #[trigger] img.pix(x, y)
            == (if in_ring(cx as int, cy as int, radius as int, t as int, x, y) {
            color
        } else {
            old(img).pix(x, y)
        }) by {
            if in_ring(cx as int, cy as int, radius as int, t as int, x, y) {
                lemma_ring_box(cx as int, cy as int, radius as int, t as int, x, y);
            }
        }
    }
}

/// The integer square root, built up one step at a time.
pub open spec fn isqrt_spec(n: nat) -> nat
    decreases n,
{
    if n == 0 {
        0
    } else {
        let r = isqrt_spec((n - 1) as nat);
        if (r + 1) * (r + 1) <= n {
            r + 1
        } else {
            r
        }
    }
}

/// `isqrt_spec(n)` is the floor of the square root of `n`.
pub proof fn lemma_isqrt_bounds(n: nat)
    ensures
        isqrt_spec(n) * isqrt_spec(n) <= n,
        n < (isqrt_spec(n) + 1) * (isqrt_spec(n) + 1),
    decreases n,
{
    if n == 0 {
        assert(isqrt_spec(0) == 0);
        assert(0 * 0 <= 0 && 0 < (0 + 1) * (0 + 1)) by (nonlinear_arith);
    } else {
        lemma_isqrt_bounds((n - 1) as nat);
        let r = isqrt_spec((n - 1) as nat);
        assert(isqrt_spec(n) == if (r + 1) * (r + 1) <= n {
            r + 1
        } else {
            r
        });
        if (r + 1) * (r + 1) <= n {
            assert(n < ((r + 1) + 1) * ((r + 1) + 1)) by (nonlinear_arith)
                requires
                    (n - 1) < (r + 1) * (r + 1),
                    (r + 1) * (r + 1) <= n,
                    0 <= r,
            ;
        } else {
            assert(r * r <= n - 1 <= n);
        }
    }
}

/// Only one value can be the floor of the square root.
proof fn lemma_isqrt_unique(n: nat, r: nat)
    requires
        r * r <= n,
        n < (r + 1) * (r + 1),
    ensures
        r == isqrt_spec(n),
{
    lemma_isqrt_bounds(n);
    let s = isqrt_spec(n);
    assert(r == s) by (nonlinear_arith)
        requires
            r * r <= n < (r + 1) * (r + 1),
            s * s <= n < (s + 1) * (s + 1),
            0 <= r,
            0 <= s,
    ;
}

/// Any value whose square is at most `n` is at most the integer square
/// root of `n`.
proof fn lemma_isqrt_ge(a: nat, n: nat)
    requires
        a * a <= n,
    ensures
        a <= isqrt_spec(n),
{
    lemma_isqrt_bounds(n);
    let r = isqrt_spec(n);
    assert(a <= r) by (nonlinear_arith)
        requires
            a * a <= n,
            n < (r + 1) * (r + 1),
            0 <= a,
            0 <= r,
    ;
}

/// The integer square root, by binary search.
pub fn isqrt(n: u128) -> (r: u64)
    requires
        n <= 0xFFFF_FFFF_FFFF_FFFF_FFFF_FFFF_FFFF_FFFEu128,
    ensures
        r == isqrt_spec(n as nat),
        r * r <= n,
        n < (r + 1) * (r + 1),
{
    let mut lo: u64 = 0;
    let mut hi: u64 = u64::MAX;
    while lo < hi
        invariant
            lo <= hi,
            lo as int * lo as int <= n,
            n < (hi as int + 1) * (hi as int + 1),
        decreases hi - lo,
    {
        let mid: u64 = hi - (hi - lo) / 2;
        proof {
            assert(lo < mid <= hi);
            assert(mid as u128 * mid as u128 == mid as int * mid as int && mid as int * mid as int
                <= 0xFFFF_FFFF_FFFF_FFFE_0000_0000_0000_0001) by (nonlinear_arith)
                requires
                    0 <= mid <= 0xFFFF_FFFF_FFFF_FFFF,
            ;
        }
        if mid as u128 * mid as u128 <= n {
            lo = mid;
        } else {
            hi = mid - 1;
            proof {
                assert(n < (hi as int + 1) * (hi as int + 1));
            }
        }
    }
    proof {
        lemma_isqrt_unique(n as nat, lo as nat);
    }
    lo
}

/// Clamp a computed coordinate into the unsigned 32-bit range, as the
/// saturating conversions at the engine boundary do.
pub open spec fn clamp_coord(v: int) -> int {
    if v < 0 {
        0
    } else if v > u32::MAX {
        u32::MAX as int
    } else {
        v
    }
}

/// `d` scaled by `off / len` in integer arithmetic, rounding the
/// magnitude down.
pub open spec fn scaled(d: int, off: int, len: int) -> int {
    if d >= 0 {
        d * off / len
    } else {
        -((-d) * off / len)
    }
}

/// Length of the arrow shaft from (x0, y0) to (x1, y1): the floor of
/// the Euclidean distance.
pub open spec fn shaft_len(x0: int, y0: int, x1: int, y1: int) -> int {
    isqrt_spec(((x1 - x0) * (x1 - x0) + (y1 - y0) * (y1 - y0)) as nat) as int
}

/// How far the arrowhead wings reach back from the tip: a fixed
/// multiple of the stroke thickness.
pub open spec fn wing_offset(t: int) -> int {
    10 * (t / 3 + 1)
}

/// The free endpoint of one arrowhead wing: from the tip, back along
/// the shaft direction and sideways along its perpendicular, each by
/// the wing offset, in integer arithmetic, clamped to the coordinate
/// range. `side` is 1 for one wing and -1 for the other.
pub open spec fn wing_point(x0: int, y0: int, x1: int, y1: int, t: int, side: int) -> (int, int) {
    let dx = x1 - x0;
    let dy = y1 - y0;
    let len = shaft_len(x0, y0, x1, y1);
    let off = wing_offset(t);
    let vx = scaled(dx, off, len);
    let vy = scaled(dy, off, len);
    let px = scaled(dy, off, len);
    let py = scaled(-dx, off, len);
    (clamp_coord(x1 - vx + side * px), clamp_coord(y1 - vy + side * py))
}

/// (x, y) is covered by an arrow from (x0, y0) to (x1, y1): within `t`
/// of the shaft or, unless the shaft is degenerate, of one of the two
/// wing segments leaning back from the tip.
pub open spec fn arrow_covered(x0: int, y0: int, x1: int, y1: int, t: int, x: int, y: int) -> bool {
    line_covered(x0, y0, x1, y1, t, x, y) || (shaft_len(x0, y0, x1, y1) > 0 && (line_covered(
        wing_point(x0, y0, x1, y1, t, -1).0,
        wing_point(x0, y0, x1, y1, t, -1).1,
        x1,
        y1,
        t,
        x,
        y,
    ) || line_covered(
        wing_point(x0, y0, x1, y1, t, 1).0,
        wing_point(x0, y0, x1, y1, t, 1).1,
        x1,
        y1,
        t,
        x,
        y,
    )))
}

/// Draw an arrow from (x0, y0) to (x1, y1): the shaft as a thick line,
/// and, unless the shaft is degenerate, two wing segments leaning back
/// from the tip. A pixel is painted exactly when it is within `t` of
/// the shaft or of one of the wings.
pub fn draw_arrow(img: &mut Canvas, x0: u32, y0: u32, x1: u32, y1: u32, t: u32, color: Rgba)
    requires
        old(img).wf(),
    ensures
        final(img).wf(),
        final(img).width == old(img).width,
        final(img).height == old(img).height,
        forall|x: int, y: int|
            old(img).in_bounds(x, y) ==> #[trigger] final(img).pix(x, y) == (if arrow_covered(
                x0 as int,
                y0 as int,
                x1 as int,
                y1 as int,
                t as int,
                x,
                y,
            ) {
                color
            } else {
                old(img).pix(x, y)
            }),
{
    let ghost gx0 = x0 as int;
    let ghost gy0 = y0 as int;
    let ghost gx1 = x1 as int;
    let ghost gy1 = y1 as int;
    let ghost prev0 = *img;
    draw_thick_line(img, x0, y0, x1, y1, t, color);
    let dx: i64 = x1 as i64 - x0 as i64;
    let dy: i64 = y1 as i64 - y0 as i64;
    proof {
        assert(0 <= dx * dx < 0x1_0000_0000_0000_0000) by (nonlinear_arith)
            requires
                -0x1_0000_0000 < dx < 0x1_0000_0000,
        ;
        assert(0 <= dy * dy < 0x1_0000_0000_0000_0000) by (nonlinear_arith)
            requires
                -0x1_0000_0000 < dy < 0x1_0000_0000,
        ;
    }
    let len2: u128 = (dx as i128 * dx as i128) as u128 + (dy as i128 * dy as i128) as u128;
    let len: u64 = isqrt(len2);
    if len == 0 {
        proof {
            assert(shaft_len(gx0, gy0, gx1, gy1) == 0);
        }
        return ;
    }
    let off: u64 = 10 * (t as u64 / 3 + 1);
    proof {
        assert(dx * dx <= dx * dx + dy * dy) by (nonlinear_arith);
        assert(dy * dy <= dx * dx + dy * dy) by (nonlinear_arith);
        assert(vstd::math::abs(dx as int) * vstd::math::abs(dx as int) == dx * dx)
            by (nonlinear_arith);
        assert(vstd::math::abs(dy as int) * vstd::math::abs(dy as int) == dy * dy)
            by (nonlinear_arith);
        lemma_isqrt_ge(vstd::math::abs(dx as int), len2 as nat);
        lemma_isqrt_ge(vstd::math::abs(dy as int), len2 as nat);
        assert(vstd::math::abs((-dx) as int) == vstd::math::abs(dx as int));
        assert(vstd::math::abs(dx as int) <= len);
        assert(vstd::math::abs(dy as int) <= len);
    }
    let vx: i64 = scale_toward(dx, off, len);
    let vy: i64 = scale_toward(dy, off, len);
    let px: i64 = scale_toward(dy, off, len);
    let py: i64 = scale_toward(-dx, off, len);
    let w1x: u32 = clamp_to_u32(x1 as i64 - vx - px);
    let w1y: u32 = clamp_to_u32(y1 as i64 - vy - py);
    let w2x: u32 = clamp_to_u32(x1 as i64 - vx + px);
    let w2y: u32 = clamp_to_u32(y1 as i64 - vy + py);
    proof {
        assert(wing_point(gx0, gy0, gx1, gy1, t as int, -1) == (w1x as int, w1y as int));
        assert(wing_point(gx0, gy0, gx1, gy1, t as int, 1) == (w2x as int, w2y as int));
    }
    let ghost prev1 = *img;
    draw_thick_line(img, w1x, w1y, x1, y1, t, color);
    let ghost prev2 = *img;
    draw_thick_line(img, w2x, w2y, x1, y1, t, color);
}

/// `d * off / len` with the magnitude rounded down, matching `scaled`.
/// Because `len` is at least the magnitude of `d`, the result is at
/// most `off` in magnitude.
fn scale_toward(d: i64, off: u64, len: u64) -> (r: i64)
    requires
        -0x1_0000_0000 <= d <= 0x1_0000_0000,
        0 < len,
        off <= 0x4_0000_0000,
        vstd::math::abs(d as int) <= len,
    ensures
        r == scaled(d as int, off as int, len as int),
        -(off as int) <= r <= off as int,
{
    let lenu: u128 = len as u128;
    let offu: u128 = off as u128;
    let nd: i64 = if d >= 0 {
        d
    } else {
        -d
    };
    let du: u128 = nd as u128;
    proof {
        assert(0 <= du * offu && du * offu <= lenu * offu) by (nonlinear_arith)
            requires
                0 <= du <= lenu,
                0 <= offu,
        ;
        assert(lenu * offu <= 0x400_0000_0000_0000_0000_0000_0000) by (nonlinear_arith)
            requires
                0 <= lenu <= 0x1_0000_0000_0000_0000,
                0 <= offu <= 0x4_0000_0000,
        ;
    }
    let num: u128 = du * offu;
    let q: u128 = num / lenu;
    proof {
        vstd::arithmetic::div_mod::lemma_div_is_ordered(
            num as int,
            lenu as int * offu as int,
            lenu as int,
        );
        vstd::arithmetic::div_mod::lemma_div_by_multiple(offu as int, lenu as int);
        assert(lenu as int * offu as int == offu as int * lenu as int) by (nonlinear_arith);
        assert(q <= offu);
    }
    let qi: i64 = q as i64;
    if d >= 0 {
        qi
    } else {
        proof {
            assert(scaled(d as int, off as int, len as int) == -((-(d as int)) * (off as int) / (
            len as int)));
        }
        -qi
    }
}

/// Clamp into the unsigned 32-bit range, matching `clamp_coord`.
fn clamp_to_u32(v: i64) -> (r: u32)
    ensures
        r == clamp_coord(v as int),
{
    if v < 0 {
        0
    } else if v > u32::MAX as i64 {
        u32::MAX
    } else {
        v as u32
    }
}

/// One composited channel never overshoots the draw color, strictly
/// approaches it while it is above it, and stays strictly above it when
/// it starts at least two steps above it.
proof fn lemma_blend_channel_step(bc: u8, fc: u8, fa: int)
    requires
        1 <= fa <= 25,
    ensures
        fc < bc ==> fc <= blend_channel(bc, fc, fa) < bc,
        fc + 2 <= bc ==> fc < blend_channel(bc, fc, fa),
{
    let n = (fc as int) * fa + (bc as int) * (255 - fa);
    if fc < bc {
        assert(255 * (fc as int) <= n <= 255 * (bc as int) - 1) by (nonlinear_arith)
            requires
                1 <= fa <= 25,
                fc < bc,
                0 <= fc,
                bc <= 255,
                n == (fc as int) * fa + (bc as int) * (255 - fa),
        ;
        vstd::arithmetic::div_mod::lemma_div_is_ordered(255 * (fc as int), n, 255);
        vstd::arithmetic::div_mod::lemma_div_is_ordered(n, 255 * (bc as int) - 1, 255);
        vstd::arithmetic::div_mod::lemma_fundamental_div_mod_converse(
            255 * (fc as int),
            255,
            fc as int,
            0,
        );
        vstd::arithmetic::div_mod::lemma_fundamental_div_mod_converse(
            255 * (bc as int) - 1,
            255,
            bc as int - 1,
            254,
        );
        assert(fc <= blend_channel(bc, fc, fa) < bc);
    }
    if fc + 2 <= bc {
        assert(255 * (fc as int + 1) <= n) by (nonlinear_arith)
            requires
                1 <= fa <= 25,
                fc + 2 <= bc,
                0 <= fc,
                bc <= 255,
                n == (fc as int) * fa + (bc as int) * (255 - fa),
        ;
        vstd::arithmetic::div_mod::lemma_div_is_ordered(255 * (fc as int + 1), n, 255);
        vstd::arithmetic::div_mod::lemma_fundamental_div_mod_converse(
            255 * (fc as int + 1),
            255,
            fc as int + 1,
            0,
        );
    }
}

/// Compositing never lowers the alpha channel.
proof fn lemma_alpha_over_grows(ba: u8, fa: int)
    requires
        0 <= fa <= 25,
    ensures
        ba <= alpha_over(ba, fa),
        alpha_over(ba, fa) <= 255,
{
    let add = (255 - ba as int) * fa;
    assert(0 <= add <= (255 - ba as int) * 255) by (nonlinear_arith)
        requires
            0 <= fa <= 255,
            ba <= 255,
            add == (255 - ba as int) * fa,
    ;
    vstd::arithmetic::div_mod::lemma_div_is_ordered(0, add, 255);
    vstd::arithmetic::div_mod::lemma_div_is_ordered(add, (255 - ba as int) * 255, 255);
    vstd::arithmetic::div_mod::lemma_fundamental_div_mod_converse(0, 255, 0, 0);
    vstd::arithmetic::div_mod::lemma_fundamental_div_mod_converse(
        (255 - ba as int) * 255,
        255,
        255 - ba as int,
        0,
    );
}

/// The highlighter's marker effect on a sufficiently opaque pixel:
/// the blend alpha is bounded by a tenth of the underlying alpha and
/// never exceeds a tenth of full opacity, so a single pass cannot reach
/// the draw color; compositing never lowers the alpha; and on any
/// channel that sits at least two steps above the draw color, applying
/// the highlighter twice lands strictly closer to the draw color than
/// applying it once, while never overshooting it.
pub proof fn lemma_highlight_darkens(bg: Rgba, fg: Rgba)
    requires
        10 <= bg.a,
    ensures
        1 <= highlight_alpha(bg.a) <= 25,
        bg.a <= blend_over(bg, fg).a,
        fg.r + 2 <= bg.r ==> fg.r <= blend_over(blend_over(bg, fg), fg).r < blend_over(bg, fg).r
            < bg.r,
        fg.g + 2 <= bg.g ==> fg.g <= blend_over(blend_over(bg, fg), fg).g < blend_over(bg, fg).g
            < bg.g,
        fg.b + 2 <= bg.b ==> fg.b <= blend_over(blend_over(bg, fg), fg).b < blend_over(bg, fg).b
            < bg.b,
{
    let fa1 = highlight_alpha(bg.a);
    vstd::arithmetic::div_mod::lemma_div_is_ordered(10, bg.a as int, 10);
    vstd::arithmetic::div_mod::lemma_div_is_ordered(bg.a as int, 255, 10);
    vstd::arithmetic::div_mod::lemma_fundamental_div_mod_converse(10, 10, 1, 0);
    vstd::arithmetic::div_mod::lemma_fundamental_div_mod_converse(255, 10, 25, 5);
    let b1 = blend_over(bg, fg);
    lemma_alpha_over_grows(bg.a, fa1);
    let fa2 = highlight_alpha(b1.a);
    vstd::arithmetic::div_mod::lemma_div_is_ordered(bg.a as int, b1.a as int, 10);
    vstd::arithmetic::div_mod::lemma_div_is_ordered(b1.a as int, 255, 10);
    lemma_blend_channel_step(bg.r, fg.r, fa1);
    lemma_blend_channel_step(bg.g, fg.g, fa1);
    lemma_blend_channel_step(bg.b, fg.b, fa1);
    lemma_blend_channel_step(b1.r, fg.r, fa2);
    lemma_blend_channel_step(b1.g, fg.g, fa2);
    lemma_blend_channel_step(b1.b, fg.b, fa2);
}

/// (x, y) lies in one of the t x t squares stamped at the points of the
/// rasterized line between the two endpoints; each square hangs down
/// and right from its line point, and a zero thickness still stamps one
/// pixel.
pub open spec fn square_line_covered(
    x0: int,
    y0: int,
    x1: int,
    y1: int,
    t: int,
    x: int,
    y: int,
) -> bool {
    exists|k: int|
        0 <= k < bres_points(x0, y0, x1, y1).len() && in_rect(
            (#[trigger] bres_points(x0, y0, x1, y1)[k]).0,
            bres_points(x0, y0, x1, y1)[k].1,
            vstd::math::max(t, 1),
            vstd::math::max(t, 1),
            x,
            y,
        )
}

/// Draw a thick line by stamping a filled t x t square at every point
/// of the rasterized line between the two endpoints.
pub fn draw_thick_line_with_rect(
    img: &mut Canvas,
    x0: u32,
    y0: u32,
    x1: u32,
    y1: u32,
    t: u32,
    color: Rgba,
)
    requires
        old(img).wf(),
    ensures
        final(img).wf(),
        final(img).width == old(img).width,
        final(img).height == old(img).height,
        forall|x: int, y: int|
            old(img).in_bounds(x, y) ==> #[trigger] final(img).pix(x, y) == (if square_line_covered(
                x0 as int,
                y0 as int,
                x1 as int,
                y1 as int,
                t as int,
                x,
                y,
            ) {
                color
            } else {
                old(img).pix(x, y)
            }),
{
    let tt: u32 = if t == 0 {
        1
    } else {
        t
    };
    let pts = bresenham_line(x0 as usize, y0 as usize, x1 as usize, y1 as usize);
    let ghost lpts = bres_points(x0 as int, y0 as int, x1 as int, y1 as int);
    let mut i: usize = 0;
    while i < pts.len()
        invariant
            img.wf(),
            img.width == old(img).width,
            img.height == old(img).height,
            tt == vstd::math::max(t as int, 1),
            i <= pts@.len(),
            lpts == bres_points(x0 as int, y0 as int, x1 as int, y1 as int),
            pts@.map_values(|p: (usize, usize)| (p.0 as int, p.1 as int)) == lpts,
            forall|k: int|
                0 <= k < pts@.len() ==> (#[trigger] pts@[k]).0 <= u32::MAX && pts@[k].1
                    <= u32::MAX,
            forall|x: int, y: int|
                old(img).in_bounds(x, y) ==> #[trigger] img.pix(x, y) == (if (exists|k: int|
                    0 <= k < i && in_rect(
                        (#[trigger] lpts[k]).0,
                        lpts[k].1,
                        tt as int,
                        tt as int,
                        x,
                        y,
                    )) {
                    color
                } else {
                    old(img).pix(x, y)
                }),
        decreases pts@.len() - i,
    {
        let p = pts[i];
        let ghost prev = *img;
        proof {
            assert(lpts[i as int] == (p.0 as int, p.1 as int));
        }
        draw_filled_rect_mut(img, p.0 as u32, p.1 as u32, tt, tt, color);
        i = i + 1;
        proof {
            assert forall|x: int, y: int| old(img).in_bounds(x, y) implies #[trigger] img.pix(
                x,
                y,
            ) == (if (exists|k: int|
                0 <= k < i && in_rect(
                    (#[trigger] lpts[k]).0,
                    lpts[k].1,
                    tt as int,
                    tt as int,
                    x,
                    y,
                )) {
                color
            } else {
                old(img).pix(x, y)
            }) by {
                if in_rect(lpts[i - 1].0, lpts[i - 1].1, tt as int, tt as int, x, y) {
                    assert(0 <= i - 1 < i && in_rect(
                        (lpts[i - 1]).0,
                        lpts[i - 1].1,
                        tt as int,
                        tt as int,
                        x,
                        y,
                    ));
                } else {
                    assert(img.pix(x, y) == prev.pix(x, y));
                    if exists|k: int|
                        0 <= k < i && in_rect(
                            (#[trigger] lpts[k]).0,
                            lpts[k].1,
                            tt as int,
                            tt as int,
                            x,
                            y,
                        ) {
                        let k = choose|k: int|
                            0 <= k < i && in_rect(
                                (#[trigger] lpts[k]).0,
                                lpts[k].1,
                                tt as int,
                                tt as int,
                                x,
                                y,
                            );
                        assert(0 <= k < i - 1);
                    }
                }
            }
        }
    }
    proof {
        assert(i == lpts.len());
    }
}

} // verus!
