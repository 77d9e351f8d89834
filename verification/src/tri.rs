//! Triangle rasterization by flat-top/flat-bottom decomposition: the three
//! vertices are sorted by descending `y`, a fourth vertex is interpolated on
//! the long edge at the middle vertex's row, and the two resulting
//! flat-edged sub-triangles are filled scanline by scanline.

use vstd::prelude::*;

use crate::data::Color;
use crate::data::PointScreen;
use crate::draw::Screen;
use crate::draw::fill_row_i;
use crate::draw::px_colored;
use crate::draw::px_idx;
use crate::draw::px_pad_unchanged;
use crate::draw::px_unchanged;
use crate::draw::same_dims;
use crate::line::tdiv;

verus! {

/// Sorts three vertices into (bottom, middle, top) by descending `y`, with
/// ties broken by preferring the earlier-named vertex.
pub open spec fn tri_sort(p1: PointScreen, p2: PointScreen, p3: PointScreen) -> (PointScreen,
    PointScreen,
    PointScreen,
) {
    if p1.y >= p2.y {
        if p1.y >= p3.y {
            if p2.y >= p3.y {
                (p1, p2, p3)
            } else {
                (p1, p3, p2)
            }
        } else {
            (p3, p1, p2)
        }
    } else {
        if p2.y >= p3.y {
            if p1.y >= p3.y {
                (p2, p1, p3)
            } else {
                (p2, p3, p1)
            }
        } else {
            (p3, p2, p1)
        }
    }
}

/// The pixels filled for the sub-triangle between the middle vertices
/// (`mx`, `my`), (`m2x`, `m2y`) and the bottom vertex (`bx`, `by`): one
/// scanline per row from the flat edge down to the bottom vertex, with the
/// row's span interpolated along the two non-horizontal edges.
pub open spec fn flat_top_covers(
    bx: int,
    by: int,
    mx: int,
    my: int,
    m2x: int,
    m2y: int,
    x: int,
    y: int,
) -> bool {
    let ax = if mx > m2x {
        m2x
    } else {
        mx
    };
    let ay = if mx > m2x {
        m2y
    } else {
        my
    };
    let cx = if mx > m2x {
        mx
    } else {
        m2x
    };
    let dy = by - ay;
    &&& dy > 0
    &&& ay <= y <= by
    &&& ax + tdiv((y - ay) * (bx - ax), dy) <= x
    &&& x <= cx + tdiv((y - ay) * (bx - cx), dy)
}

/// The pixels filled for the sub-triangle between the top vertex
/// (`tx`, `ty`) and the middle vertices (`mx`, `my`), (`m2x`, `m2y`): one
/// scanline per row from the top vertex down to the flat edge.
pub open spec fn flat_bot_covers(
    tx: int,
    ty: int,
    mx: int,
    my: int,
    m2x: int,
    m2y: int,
    x: int,
    y: int,
) -> bool {
    let ax = if mx > m2x {
        m2x
    } else {
        mx
    };
    let ay = if mx > m2x {
        m2y
    } else {
        my
    };
    let cx = if mx > m2x {
        mx
    } else {
        m2x
    };
    let dy = ay - ty;
    &&& dy > 0
    &&& ty <= y <= ay
    &&& tx + tdiv((y - ty) * (ax - tx), dy) <= x
    &&& x <= tx + tdiv((y - ty) * (cx - tx), dy)
}

/// The pixels a triangle over `p1`, `p2`, `p3` rasterizes to. A triangle
/// whose vertices share one row is degenerate and covers nothing.
pub open spec fn tri_covers(
    p1: PointScreen,
    p2: PointScreen,
    p3: PointScreen,
    x: int,
    y: int,
) -> bool {
    let (bot, mid, top) = tri_sort(p1, p2, p3);
    let dy = bot.y - top.y;
    if dy == 0 {
        false
    } else {
        let m2x = top.x + tdiv((mid.y - top.y) * (bot.x - top.x), dy);
        ||| flat_top_covers(bot.x as int, bot.y as int, mid.x as int, mid.y as int, m2x, mid.y as int, x, y)
        ||| flat_bot_covers(top.x as int, top.y as int, mid.x as int, mid.y as int, m2x, mid.y as int, x, y)
    }
}

/// Law: a triangle whose three vertices coincide covers no pixel at all, so
/// drawing it neither errors nor fills anything.
pub proof fn lemma_triangle_degenerate(p: PointScreen)
    ensures
        forall|x: int, y: int| !(#[trigger] tri_covers(p, p, p, x, y)),
{
}

/// Linear interpolation step shared by the scanline fills: the value
/// `base + (i * delta) / dy` with truncating division, which always lies
/// between `base` and `base + delta`.
fn interp_i(base: i128, delta: i128, i: i128, dy: i128) -> (r: i128)
    requires
        0 <= i <= dy,
        0 < dy < 0x10000000000000000,
        -0x10000000000000000 < delta < 0x10000000000000000,
        -0x10000000000000000 < base < 0x10000000000000000,
    ensures
        r == base + tdiv(i * delta, dy as int),
        delta >= 0 ==> base <= r <= base + delta,
        delta < 0 ==> base + delta <= r <= base,
{
    let adel = if delta >= 0 {
        delta
    } else {
        -delta
    };
    let iu = i as u128;
    let adelu = adel as u128;
    let dyu = dy as u128;
    proof {
        assert(iu * adelu <= dyu * adelu) by (nonlinear_arith)
            requires
                0 <= iu <= dyu,
                0 <= adelu,
        ;
        assert(dyu * adelu < 0x10000000000000000u128 * 0x10000000000000000u128)
            by (nonlinear_arith)
            requires
                0 <= dyu < 0x10000000000000000u128,
                0 <= adelu < 0x10000000000000000u128,
        ;
        crate::line::lemma_div_le(iu as int, adelu as int, dyu as int);
    }
    let q = iu * adelu / dyu;
    let qi = q as i128;
    let r = if delta < 0 {
        base - qi
    } else {
        base + qi
    };
    proof {
        let ti = i as int;
        if delta < 0 {
            assert(ti * (delta as int) == -(ti * (adel as int))) by (nonlinear_arith)
                requires
                    delta as int == -(adel as int),
            ;
        } else {
            assert(ti * (delta as int) == ti * (adel as int));
        }
    }
    r
}

/// Fills the flat-top sub-triangle: scanlines from the shared horizontal
/// edge through `mid` and `mid2` down to the apex `bot`, clipped to the
/// buffer; every other pixel is untouched.
pub fn fill_flat_top_tri(
    screen: &mut Screen,
    bot: PointScreen,
    mid: PointScreen,
    mid2: PointScreen,
    color: Color,
)
    requires
        old(screen).wf(),
    ensures
        same_dims(*old(screen), *final(screen)),
        final(screen).wf(),
        forall|x: int, y: int| #![trigger px_idx(old(screen).w as int, x, y)]
            0 <= x < old(screen).w && 0 <= y < old(screen).h ==> {
                if flat_top_covers(
                    bot.x as int,
                    bot.y as int,
                    mid.x as int,
                    mid.y as int,
                    mid2.x as int,
                    mid2.y as int,
                    x,
                    y,
                ) {
                    &&& px_colored(final(screen).data@, old(screen).w as int, x, y, color)
                    &&& px_pad_unchanged(
                        old(screen).data@,
                        final(screen).data@,
                        old(screen).w as int,
                        x,
                        y,
                    )
                } else {
                    px_unchanged(old(screen).data@, final(screen).data@, old(screen).w as int, x, y)
                }
            },
{
    let m = if mid.x > mid2.x {
        mid2
    } else {
        mid
    };
    let m2 = if mid.x > mid2.x {
        mid
    } else {
        mid2
    };
    let ax = m.x as i128;
    let ay = m.y as i128;
    let cx = m2.x as i128;
    let bx = bot.x as i128;
    let by = bot.y as i128;
    let dy = by - ay;
    if dy <= 0 {
        return ;
    }
    let mut i: i128 = 0;
    while i <= dy
        invariant
            0 <= i <= dy + 1,
            same_dims(*old(screen), *screen),
            screen.wf(),
            forall|x: int, y: int| #![trigger px_idx(old(screen).w as int, x, y)]
                0 <= x < screen.w && 0 <= y < screen.h ==> {
                    if flat_top_covers(
                        bot.x as int,
                        bot.y as int,
                        mid.x as int,
                        mid.y as int,
                        mid2.x as int,
                        mid2.y as int,
                        x,
                        y,
                    ) && y < ay + i {
                        &&& px_colored(screen.data@, old(screen).w as int, x, y, color)
                        &&& px_pad_unchanged(
                            old(screen).data@,
                            screen.data@,
                            old(screen).w as int,
                            x,
                            y,
                        )
                    } else {
                        px_unchanged(old(screen).data@, screen.data@, old(screen).w as int, x, y)
                    }
                },
        decreases dy + 1 - i,
    {
        let lt = interp_i(ax, bx - ax, i, dy);
        let rt = interp_i(cx, bx - cx, i, dy);
        fill_row_i(screen, ay + i, lt, rt, color);
        i = i + 1;
    }
}

/// Fills the flat-bottom sub-triangle: scanlines from the apex `top` down
/// to the shared horizontal edge through `mid` and `mid2`, clipped to the
/// buffer; every other pixel is untouched.
pub fn fill_flat_bot_tri(
    screen: &mut Screen,
    top: PointScreen,
    mid: PointScreen,
    mid2: PointScreen,
    color: Color,
)
    requires
        old(screen).wf(),
    ensures
        same_dims(*old(screen), *final(screen)),
        final(screen).wf(),
        forall|x: int, y: int| #![trigger px_idx(old(screen).w as int, x, y)]
            0 <= x < old(screen).w && 0 <= y < old(screen).h ==> {
                if flat_bot_covers(
                    top.x as int,
                    top.y as int,
                    mid.x as int,
                    mid.y as int,
                    mid2.x as int,
                    mid2.y as int,
                    x,
                    y,
                ) {
                    &&& px_colored(final(screen).data@, old(screen).w as int, x, y, color)
                    &&& px_pad_unchanged(
                        old(screen).data@,
                        final(screen).data@,
                        old(screen).w as int,
                        x,
                        y,
                    )
                } else {
                    px_unchanged(old(screen).data@, final(screen).data@, old(screen).w as int, x, y)
                }
            },
{
    let m = if mid.x > mid2.x {
        mid2
    } else {
        mid
    };
    let m2 = if mid.x > mid2.x {
        mid
    } else {
        mid2
    };
    let ax = m.x as i128;
    let ay = m.y as i128;
    let cx = m2.x as i128;
    let tx = top.x as i128;
    let ty = top.y as i128;
    let dy = ay - ty;
    if dy <= 0 {
        return ;
    }
    let mut i: i128 = 0;
    while i <= dy
        invariant
            0 <= i <= dy + 1,
            same_dims(*old(screen), *screen),
            screen.wf(),
            forall|x: int, y: int| #![trigger px_idx(old(screen).w as int, x, y)]
                0 <= x < screen.w && 0 <= y < screen.h ==> {
                    if flat_bot_covers(
                        top.x as int,
                        top.y as int,
                        mid.x as int,
                        mid.y as int,
                        mid2.x as int,
                        mid2.y as int,
                        x,
                        y,
                    ) && y < ty + i {
                        &&& px_colored(screen.data@, old(screen).w as int, x, y, color)
                        &&& px_pad_unchanged(
                            old(screen).data@,
                            screen.data@,
                            old(screen).w as int,
                            x,
                            y,
                        )
                    } else {
                        px_unchanged(old(screen).data@, screen.data@, old(screen).w as int, x, y)
                    }
                },
        decreases dy + 1 - i,
    {
        let lt = interp_i(tx, ax - tx, i, dy);
        let rt = interp_i(tx, cx - tx, i, dy);
        fill_row_i(screen, ty + i, lt, rt, color);
        i = i + 1;
    }
}

/// Whether the `k`-th index triple of a mesh rasterizes to pixel `(x, y)`.
pub open spec fn mesh_tri_covers(
    pts: Seq<PointScreen>,
    tris: Seq<usize>,
    k: int,
    x: int,
    y: int,
) -> bool {
    &&& 0 <= k < tris.len() / 3
    &&& tri_covers(
        pts[tris[3 * k] as int],
        pts[tris[3 * k + 1] as int],
        pts[tris[3 * k + 2] as int],
        x,
        y,
    )
}

/// The pixels a mesh rasterizes to: the union over its index triples. A
/// trailing partial triple is ignored.
pub open spec fn mesh_covers(pts: Seq<PointScreen>, tris: Seq<usize>, x: int, y: int) -> bool {
    exists|k: int| #[trigger] mesh_tri_covers(pts, tris, k, x, y)
}

/// Draws a triangle for each consecutive index triple of `tris` over the
/// already-transformed vertices `pts`, clipped to the buffer: exactly the
/// pixels of `mesh_covers` that are in bounds are set, every other pixel is
/// untouched, and the fourth byte of each pixel is never written. Indices
/// must be in range.
pub fn draw_mesh_triangles(
    screen: &mut Screen,
    pts: &Vec<PointScreen>,
    tris: &Vec<usize>,
    color: Color,
)
    requires
        old(screen).wf(),
        forall|i: int| 0 <= i < tris@.len() ==> #[trigger] tris@[i] < pts@.len(),
    ensures
        same_dims(*old(screen), *final(screen)),
        final(screen).wf(),
        forall|x: int, y: int| #![trigger px_idx(old(screen).w as int, x, y)]
            0 <= x < old(screen).w && 0 <= y < old(screen).h ==> {
                if mesh_covers(pts@, tris@, x, y) {
                    &&& px_colored(final(screen).data@, old(screen).w as int, x, y, color)
                    &&& px_pad_unchanged(
                        old(screen).data@,
                        final(screen).data@,
                        old(screen).w as int,
                        x,
                        y,
                    )
                } else {
                    px_unchanged(old(screen).data@, final(screen).data@, old(screen).w as int, x, y)
                }
            },
{
    let n = tris.len() / 3;
    let mut k: usize = 0;
    while k < n
        invariant
            k <= n,
            n == tris@.len() / 3,
            same_dims(*old(screen), *screen),
            screen.wf(),
            forall|x: int, y: int| #![trigger px_idx(old(screen).w as int, x, y)]
                0 <= x < screen.w && 0 <= y < screen.h ==> {
                    if exists|j: int| j < k && #[trigger] mesh_tri_covers(pts@, tris@, j, x, y) {
                        &&& px_colored(screen.data@, old(screen).w as int, x, y, color)
                        &&& px_pad_unchanged(
                            old(screen).data@,
                            screen.data@,
                            old(screen).w as int,
                            x,
                            y,
                        )
                    } else {
                        px_unchanged(old(screen).data@, screen.data@, old(screen).w as int, x, y)
                    }
                },
        decreases n - k,
    {
        proof {
            assert(3 * k + 2 < tris@.len());
        }
        let a = pts[tris[3 * k]];
        let b = pts[tris[3 * k + 1]];
        let c = pts[tris[3 * k + 2]];
        let ghost pre = *screen;
        draw_triangle(screen, a, b, c, color);
        proof {
            let w = old(screen).w as int;
            assert forall|x: int, y: int| #![trigger px_idx(w, x, y)]
                0 <= x < screen.w && 0 <= y < screen.h implies {
                if exists|j: int| j < k + 1 && #[trigger] mesh_tri_covers(pts@, tris@, j, x, y) {
                    &&& px_colored(screen.data@, w, x, y, color)
                    &&& px_pad_unchanged(old(screen).data@, screen.data@, w, x, y)
                } else {
                    px_unchanged(old(screen).data@, screen.data@, w, x, y)
                }
            } by {
                if tri_covers(a, b, c, x, y) {
                    assert(mesh_tri_covers(pts@, tris@, k as int, x, y));
                } else {
                    if exists|j: int| j < k + 1 && #[trigger] mesh_tri_covers(pts@, tris@, j, x, y) {
                        let j = choose|j: int| j < k + 1 && #[trigger] mesh_tri_covers(
                            pts@,
                            tris@,
                            j,
                            x,
                            y,
                        );
                        assert(j != k);
                        assert(mesh_tri_covers(pts@, tris@, j, x, y) && j < k);
                    }
                }
            }
        }
        k = k + 1;
    }
    proof {
        assert forall|x: int, y: int| #![trigger px_idx(old(screen).w as int, x, y)]
            0 <= x < screen.w && 0 <= y < screen.h implies (mesh_covers(pts@, tris@, x, y)
            == exists|j: int| j < n && #[trigger] mesh_tri_covers(pts@, tris@, j, x, y)) by {
            if mesh_covers(pts@, tris@, x, y) {
                let j = choose|j: int| #[trigger] mesh_tri_covers(pts@, tris@, j, x, y);
                assert(j < n && mesh_tri_covers(pts@, tris@, j, x, y));
            }
        }
    }
}

/// Draws the triangle over `p1`, `p2`, `p3` with `color`, clipped to the
/// buffer: exactly the pixels of `tri_covers` that are in bounds are set,
/// every other pixel is untouched, and the fourth byte of each pixel is
/// never written.
pub fn draw_triangle(
    screen: &mut Screen,
    p1: PointScreen,
    p2: PointScreen,
    p3: PointScreen,
    color: Color,
)
    requires
        old(screen).wf(),
    ensures
        same_dims(*old(screen), *final(screen)),
        final(screen).wf(),
        forall|x: int, y: int| #![trigger px_idx(old(screen).w as int, x, y)]
            0 <= x < old(screen).w && 0 <= y < old(screen).h ==> {
                if tri_covers(p1, p2, p3, x, y) {
                    &&& px_colored(final(screen).data@, old(screen).w as int, x, y, color)
                    &&& px_pad_unchanged(
                        old(screen).data@,
                        final(screen).data@,
                        old(screen).w as int,
                        x,
                        y,
                    )
                } else {
                    px_unchanged(old(screen).data@, final(screen).data@, old(screen).w as int, x, y)
                }
            },
{
    let (bot, mid, top) = if p1.y >= p2.y {
        if p1.y >= p3.y {
            if p2.y >= p3.y {
                (p1, p2, p3)
            } else {
                (p1, p3, p2)
            }
        } else {
            (p3, p1, p2)
        }
    } else {
        if p2.y >= p3.y {
            if p1.y >= p3.y {
                (p2, p1, p3)
            } else {
                (p2, p3, p1)
            }
        } else {
            (p3, p2, p1)
        }
    };
    let dy = bot.y as i128 - top.y as i128;
    if dy == 0 {
        return ;
    }
    let i = mid.y as i128 - top.y as i128;
    let mid2x = interp_i(top.x as i128, bot.x as i128 - top.x as i128, i, dy);
    let mid2 = PointScreen { x: mid2x as isize, y: mid.y };
    fill_flat_top_tri(screen, bot, mid, mid2, color);
    fill_flat_bot_tri(screen, top, mid, mid2, color);
}

} // verus!
