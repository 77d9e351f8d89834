//! Line rasterization: an integer DDA that steps one pixel at a time along
//! the major axis and interpolates the minor axis with truncating division.

use vstd::prelude::*;

use crate::data::Color;
use crate::data::PointScreen;
use crate::draw::Screen;
use crate::draw::fill_col;
use crate::draw::px_colored;
use crate::draw::px_idx;
use crate::draw::px_pad_unchanged;
use crate::draw::px_unchanged;
use crate::draw::same_dims;
use crate::draw::set_px_safe;

verus! {

/// Truncating (round-toward-zero) division, for positive divisors. This is
/// the division the stepping loops perform, as distinct from the Euclidean
/// `/` of specifications.
pub open spec fn tdiv(a: int, b: int) -> int {
    if a >= 0 {
        a / b
    } else {
        -((-a) / b)
    }
}

/// Minor-axis coordinate of an x-major line at column `x`: the line runs
/// from `(ax, ay)` to `(bx, by)` with `ax < bx`.
pub open spec fn xmajor_y(ax: int, ay: int, bx: int, by: int, x: int) -> int {
    ay + tdiv((x - ax) * (by - ay), bx - ax)
}

/// Minor-axis coordinate of a y-major line at row `y`: the line runs from
/// `(sx, sy)` to `(ex, ey)` with `sy < ey`.
pub open spec fn ymajor_x(sx: int, sy: int, ex: int, ey: int, y: int) -> int {
    sx + tdiv((y - sy) * (ex - sx), ey - sy)
}

/// The pixels a line from `p1` to `p2` rasterizes to. Endpoints are first
/// ordered by `x`; if the span is wider than tall, the line steps along `x`,
/// otherwise it steps along `y` starting from the endpoint with the smaller
/// `y`. A line of two equal endpoints is the single pixel at them.
pub open spec fn line_covers(p1: PointScreen, p2: PointScreen, x: int, y: int) -> bool {
    let a = if p2.x < p1.x {
        p2
    } else {
        p1
    };
    let b = if p2.x < p1.x {
        p1
    } else {
        p2
    };
    let dx = b.x - a.x;
    let ady = if b.y >= a.y {
        b.y - a.y
    } else {
        a.y - b.y
    };
    if dx >= ady {
        if dx == 0 {
            x == a.x && y == a.y
        } else {
            a.x <= x <= b.x && y == xmajor_y(a.x as int, a.y as int, b.x as int, b.y as int, x)
        }
    } else {
        let s = if b.y < a.y {
            b
        } else {
            a
        };
        let e = if b.y < a.y {
            a
        } else {
            b
        };
        s.y <= y <= e.y && x == ymajor_x(s.x as int, s.y as int, e.x as int, e.y as int, y)
    }
}

/// A nonnegative numerator at most `d` times `m` divides by `d` to at most
/// `m`.
pub proof fn lemma_div_le(t: int, m: int, d: int)
    requires
        0 <= t <= d,
        0 < d,
        0 <= m,
    ensures
        0 <= (t * m) / d <= m,
{
    assert(0 <= (t * m) / d <= m) by (nonlinear_arith)
        requires
            0 <= t <= d,
            0 < d,
            0 <= m,
    ;
}

/// Law: a line whose two endpoints are equal covers exactly the single
/// pixel at them, so drawing it sets at least that pixel when in bounds.
pub proof fn lemma_line_single_point(p: PointScreen)
    ensures
        line_covers(p, p, p.x as int, p.y as int),
        forall|x: int, y: int| #[trigger] line_covers(p, p, x, y) ==> x == p.x && y == p.y,
{
}

/// Law: line rasterization is endpoint-order-independent — the two endpoint
/// orders cover exactly the same pixels.
pub proof fn lemma_line_symmetric(p1: PointScreen, p2: PointScreen, x: int, y: int)
    ensures
        line_covers(p1, p2, x, y) == line_covers(p2, p1, x, y),
{
}

/// Draws the line from `p1` to `p2` with `color`, clipped to the buffer:
/// exactly the pixels of `line_covers` that are in bounds are set, every
/// other pixel is untouched, and the fourth byte of each pixel is never
/// written.
pub fn draw_line(screen: &mut Screen, p1: PointScreen, p2: PointScreen, color: Color)
    requires
        old(screen).wf(),
    ensures
        same_dims(*old(screen), *final(screen)),
        final(screen).wf(),
        forall|x: int, y: int| #![trigger px_idx(old(screen).w as int, x, y)]
            0 <= x < old(screen).w && 0 <= y < old(screen).h ==> {
                if line_covers(p1, p2, x, y) {
                    &&& px_colored(final(screen).data@, old(screen).w as int, x, y, color)
                    &&& px_pad_unchanged(
                        old(screen).data@,
                        final(screen).data@,
                        old(screen).w as int,
                        x,
                        y,
                    )
                } else {
                    px_unchanged(old(screen).data@, final(screen).data@, old(screen).w as int, x, y)
                }
            },
{
    let a = if p2.x < p1.x {
        p2
    } else {
        p1
    };
    let b = if p2.x < p1.x {
        p1
    } else {
        p2
    };
    let dx = b.x as i128 - a.x as i128;
    let ady = if b.y >= a.y {
        b.y as i128 - a.y as i128
    } else {
        a.y as i128 - b.y as i128
    };
    if dx >= ady {
        if dx == 0 {
            fill_col(screen, a.x, a.y, b.y, color);
        } else {
            line_xmajor(screen, a, b, color);
        }
    } else {
        if b.y < a.y {
            line_ymajor(screen, b, a, color);
        } else {
            line_ymajor(screen, a, b, color);
        }
    }
}

/// Steps along `x` from `a` to `b` (with `a.x < b.x`), writing the pixel at
/// the interpolated `y` of every column, clipped to the buffer.
fn line_xmajor(screen: &mut Screen, a: PointScreen, b: PointScreen, color: Color)
    requires
        old(screen).wf(),
        a.x < b.x,
    ensures
        same_dims(*old(screen), *final(screen)),
        final(screen).wf(),
        forall|x: int, y: int| #![trigger px_idx(old(screen).w as int, x, y)]
            0 <= x < old(screen).w && 0 <= y < old(screen).h ==> {
                if a.x <= x <= b.x && y == xmajor_y(a.x as int, a.y as int, b.x as int, b.y as int, x) {
                    &&& px_colored(final(screen).data@, old(screen).w as int, x, y, color)
                    &&& px_pad_unchanged(
                        old(screen).data@,
                        final(screen).data@,
                        old(screen).w as int,
                        x,
                        y,
                    )
                } else {
                    px_unchanged(old(screen).data@, final(screen).data@, old(screen).w as int, x, y)
                }
            },
{
    let ax = a.x as i128;
    let ay = a.y as i128;
    let bx = b.x as i128;
    let by = b.y as i128;
    let dx = bx - ax;
    let ady = if by >= ay {
        by - ay
    } else {
        ay - by
    };
    let ydir_neg = by < ay;
    let dxu = dx as u128;
    let adyu = ady as u128;
    let mut xc = ax;
    while xc <= bx
        invariant
            ax <= xc <= bx + 1,
            same_dims(*old(screen), *screen),
            screen.wf(),
            forall|x: int, y: int| #![trigger px_idx(old(screen).w as int, x, y)]
                0 <= x < screen.w && 0 <= y < screen.h ==> {
                    if ax <= x < xc && y == xmajor_y(a.x as int, a.y as int, b.x as int, b.y as int, x) {
                        &&& px_colored(screen.data@, old(screen).w as int, x, y, color)
                        &&& px_pad_unchanged(
                            old(screen).data@,
                            screen.data@,
                            old(screen).w as int,
                            x,
                            y,
                        )
                    } else {
                        px_unchanged(old(screen).data@, screen.data@, old(screen).w as int, x, y)
                    }
                },
        decreases bx + 1 - xc,
    {
        let t = (xc - ax) as u128;
        proof {
            assert(t * adyu <= dxu * adyu) by (nonlinear_arith)
                requires
                    0 <= t <= dxu,
                    0 <= adyu,
            ;
            assert(dxu * adyu < 0x10000000000000000u128 * 0x10000000000000000u128)
                by (nonlinear_arith)
                requires
                    0 <= dxu < 0x10000000000000000u128,
                    0 <= adyu < 0x10000000000000000u128,
            ;
            lemma_div_le(t as int, adyu as int, dxu as int);
        }
        let q = t * adyu / dxu;
        let qi = q as i128;
        let yc = if ydir_neg {
            ay - qi
        } else {
            ay + qi
        };
        proof {
            let ti = t as int;
            let dys = by as int - ay as int;
            if ydir_neg {
                assert(ti * dys == -(ti * (ady as int))) by (nonlinear_arith)
                    requires
                        dys == -(ady as int),
                ;
            } else {
                assert(ti * dys == ti * (ady as int)) by (nonlinear_arith)
                    requires
                        dys == ady as int,
                ;
            }
            assert(yc == xmajor_y(a.x as int, a.y as int, b.x as int, b.y as int, xc as int));
        }
        set_px_clip_i(screen, xc, yc, color);
        xc = xc + 1;
    }
}

/// Steps along `y` from `s` to `e` (with `s.y < e.y`), writing the pixel at
/// the interpolated `x` of every row, clipped to the buffer.
fn line_ymajor(screen: &mut Screen, s: PointScreen, e: PointScreen, color: Color)
    requires
        old(screen).wf(),
        s.y < e.y,
    ensures
        same_dims(*old(screen), *final(screen)),
        final(screen).wf(),
        forall|x: int, y: int| #![trigger px_idx(old(screen).w as int, x, y)]
            0 <= x < old(screen).w && 0 <= y < old(screen).h ==> {
                if s.y <= y <= e.y && x == ymajor_x(s.x as int, s.y as int, e.x as int, e.y as int, y) {
                    &&& px_colored(final(screen).data@, old(screen).w as int, x, y, color)
                    &&& px_pad_unchanged(
                        old(screen).data@,
                        final(screen).data@,
                        old(screen).w as int,
                        x,
                        y,
                    )
                } else {
                    px_unchanged(old(screen).data@, final(screen).data@, old(screen).w as int, x, y)
                }
            },
{
    let sx = s.x as i128;
    let sy = s.y as i128;
    let ex = e.x as i128;
    let ey = e.y as i128;
    let dy = ey - sy;
    let adx = if ex >= sx {
        ex - sx
    } else {
        sx - ex
    };
    let xdir_neg = ex < sx;
    let dyu = dy as u128;
    let adxu = adx as u128;
    let mut yc = sy;
    while yc <= ey
        invariant
            sy <= yc <= ey + 1,
            same_dims(*old(screen), *screen),
            screen.wf(),
            forall|x: int, y: int| #![trigger px_idx(old(screen).w as int, x, y)]
                0 <= x < screen.w && 0 <= y < screen.h ==> {
                    if sy <= y < yc && x == ymajor_x(s.x as int, s.y as int, e.x as int, e.y as int, y) {
                        &&& px_colored(screen.data@, old(screen).w as int, x, y, color)
                        &&& px_pad_unchanged(
                            old(screen).data@,
                            screen.data@,
                            old(screen).w as int,
                            x,
                            y,
                        )
                    } else {
                        px_unchanged(old(screen).data@, screen.data@, old(screen).w as int, x, y)
                    }
                },
        decreases ey + 1 - yc,
    {
        let t = (yc - sy) as u128;
        proof {
            assert(t * adxu <= dyu * adxu) by (nonlinear_arith)
                requires
                    0 <= t <= dyu,
                    0 <= adxu,
            ;
            assert(dyu * adxu < 0x10000000000000000u128 * 0x10000000000000000u128)
                by (nonlinear_arith)
                requires
                    0 <= dyu < 0x10000000000000000u128,
                    0 <= adxu < 0x10000000000000000u128,
            ;
            lemma_div_le(t as int, adxu as int, dyu as int);
        }
        let q = t * adxu / dyu;
        let qi = q as i128;
        let xc = if xdir_neg {
            sx - qi
        } else {
            sx + qi
        };
        proof {
            let ti = t as int;
            let dxs = ex as int - sx as int;
            if xdir_neg {
                assert(ti * dxs == -(ti * (adx as int))) by (nonlinear_arith)
                    requires
                        dxs == -(adx as int),
                ;
            } else {
                assert(ti * dxs == ti * (adx as int)) by (nonlinear_arith)
                    requires
                        dxs == adx as int,
                ;
            }
            assert(xc == ymajor_x(s.x as int, s.y as int, e.x as int, e.y as int, yc as int));
        }
        set_px_clip_i(screen, xc, yc, color);
        yc = yc + 1;
    }
}

/// Writes `color` to pixel `(x, y)` if it lies inside the buffer; leaves
/// the buffer untouched otherwise.
fn set_px_clip_i(screen: &mut Screen, x: i128, y: i128, color: Color)
    requires
        old(screen).wf(),
    ensures
        same_dims(*old(screen), *final(screen)),
        final(screen).wf(),
        forall|a: int, b: int| #![trigger px_idx(old(screen).w as int, a, b)]
            0 <= a < old(screen).w && 0 <= b < old(screen).h ==> {
                if a == x && b == y {
                    &&& px_colored(final(screen).data@, old(screen).w as int, a, b, color)
                    &&& px_pad_unchanged(
                        old(screen).data@,
                        final(screen).data@,
                        old(screen).w as int,
                        a,
                        b,
                    )
                } else {
                    px_unchanged(old(screen).data@, final(screen).data@, old(screen).w as int, a, b)
                }
            },
{
    if x < 0 || y < 0 {
        return ;
    }
    if x >= screen.w as i128 || y >= screen.h as i128 {
        return ;
    }
    let len = screen.data.len();
    proof {
        let w = screen.w as int;
        let h = screen.h as int;
        assert(4 * w <= w * h * 4 && 4 * h <= w * h * 4) by (nonlinear_arith)
            requires
                1 <= w,
                1 <= h,
        ;
    }
    set_px_safe(screen, color, PointScreen { x: x as isize, y: y as isize });
}

} // verus!
