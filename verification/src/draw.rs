//! The rasterizer: a fixed-size RGBA byte buffer and the point, line and
//! triangle drawing primitives that write into it.
//!
//! Pixel layout is the rasterizer's output contract: each pixel occupies four
//! consecutive bytes in row-major order with origin top-left; the first three
//! bytes are written in B, G, R order and the fourth byte is never touched.
//! Drawing never fails: geometry that falls outside the buffer is clipped.

use vstd::prelude::*;

use crate::data::Color;
use crate::data::PointScreen;

verus! {

/// A pixel buffer of `w * h` pixels, four bytes per pixel.
pub struct Screen {
    pub w: usize,
    pub h: usize,
    pub data: Vec<u8>,
}

/// Byte index of the first (blue) channel of pixel `(x, y)` in a buffer
/// `w` pixels wide.
pub open spec fn px_idx(w: int, x: int, y: int) -> int {
    4 * (y * w + x)
}

/// The three color channels of pixel `(x, y)` hold `c`, in B, G, R order.
pub open spec fn px_colored(data: Seq<u8>, w: int, x: int, y: int, c: Color) -> bool {
    &&& data[px_idx(w, x, y)] == c.b
    &&& data[px_idx(w, x, y) + 1] == c.g
    &&& data[px_idx(w, x, y) + 2] == c.r
}

/// All four bytes of pixel `(x, y)` are the same in `d2` as in `d1`.
pub open spec fn px_unchanged(d1: Seq<u8>, d2: Seq<u8>, w: int, x: int, y: int) -> bool {
    &&& d2[px_idx(w, x, y)] == d1[px_idx(w, x, y)]
    &&& d2[px_idx(w, x, y) + 1] == d1[px_idx(w, x, y) + 1]
    &&& d2[px_idx(w, x, y) + 2] == d1[px_idx(w, x, y) + 2]
    &&& d2[px_idx(w, x, y) + 3] == d1[px_idx(w, x, y) + 3]
}

/// The fourth (padding) byte of pixel `(x, y)` is the same in `d2` as in `d1`.
pub open spec fn px_pad_unchanged(d1: Seq<u8>, d2: Seq<u8>, w: int, x: int, y: int) -> bool {
    d2[px_idx(w, x, y) + 3] == d1[px_idx(w, x, y) + 3]
}

/// The buffer dimensions of `b` are those of `a`.
pub open spec fn same_dims(a: Screen, b: Screen) -> bool {
    &&& b.w == a.w
    &&& b.h == a.h
    &&& b.data@.len() == a.data@.len()
}

/// A row-major pixel position within bounds has a linear index within `w * h`.
pub proof fn lemma_row_major_bounds(w: int, h: int, x: int, y: int)
    requires
        0 <= x < w,
        0 <= y < h,
    ensures
        0 <= y * w + x,
        y * w + x < w * h,
{
    assert(0 <= y * w + x && y * w + x < w * h) by (nonlinear_arith)
        requires
            0 <= x < w,
            0 <= y < h,
    ;
}

/// Distinct in-bounds pixel positions have distinct linear indices.
pub proof fn lemma_row_major_ne(w: int, x1: int, y1: int, x2: int, y2: int)
    requires
        0 <= x1 < w,
        0 <= x2 < w,
        0 <= y1,
        0 <= y2,
        x1 != x2 || y1 != y2,
    ensures
        y1 * w + x1 != y2 * w + x2,
{
    assert(y1 * w + x1 != y2 * w + x2) by (nonlinear_arith)
        requires
            0 <= x1 < w,
            0 <= x2 < w,
            0 <= y1,
            0 <= y2,
            x1 != x2 || y1 != y2,
    ;
}

impl Screen {
    /// The buffer holds exactly four bytes per pixel.
    pub open spec fn wf(self) -> bool {
        self.data@.len() == self.w * self.h * 4
    }

    /// Allocates a `w` by `h` buffer with every byte zero.
    pub fn new(w: usize, h: usize) -> (s: Screen)
        requires
            w * h * 4 <= usize::MAX,
        ensures
            s.w == w,
            s.h == h,
            s.wf(),
            forall|k: int| 0 <= k < s.data@.len() ==> s.data@[k] == 0u8,
    {
        proof {
            assert(w * h * 4 <= usize::MAX && w * h <= usize::MAX) by (nonlinear_arith)
                requires
                    w * h * 4 <= usize::MAX,
            ;
        }
        let n: usize = w * h * 4;
        let mut data: Vec<u8> = Vec::new();
        let mut i: usize = 0;
        while i < n
            invariant
                i <= n,
                data@.len() == i,
                forall|k: int| 0 <= k < i ==> data@[k] == 0u8,
            decreases n - i,
        {
            data.push(0u8);
            i = i + 1;
        }
        Screen { w, h, data }
    }

    /// Reads back the color channels of pixel `(x, y)`.
    pub fn get_px(&self, x: usize, y: usize) -> (c: Color)
        requires
            self.wf(),
            x < self.w,
            y < self.h,
        ensures
            px_colored(self.data@, self.w as int, x as int, y as int, c),
    {
        let len = self.data.len();
        proof {
            lemma_row_major_bounds(self.w as int, self.h as int, x as int, y as int);
            let w = self.w as int;
            let h = self.h as int;
            let p = (y as int) * w + x as int;
            assert(4 * p + 3 < w * h * 4) by (nonlinear_arith)
                requires
                    0 <= p < w * h,
            ;
        }
        let i: usize = y * self.w + x;
        Color { b: self.data[4 * i], g: self.data[4 * i + 1], r: self.data[4 * i + 2] }
    }

    /// Writes the background color (black) to every pixel, leaving each
    /// pixel's fourth byte untouched.
    pub fn clear(&mut self)
        requires
            old(self).wf(),
        ensures
            same_dims(*old(self), *final(self)),
            final(self).wf(),
            forall|x: int, y: int| #![trigger px_idx(final(self).w as int, x, y)]
                0 <= x < final(self).w && 0 <= y < final(self).h ==> {
                    &&& px_colored(
                        final(self).data@,
                        final(self).w as int,
                        x,
                        y,
                        Color { r: 0, g: 0, b: 0 },
                    )
                    &&& px_pad_unchanged(
                        old(self).data@,
                        final(self).data@,
                        final(self).w as int,
                        x,
                        y,
                    )
                },
    {
        let len = self.data.len();
        proof {
            let w = self.w as int;
            let h = self.h as int;
            assert(w * h <= w * h * 4) by (nonlinear_arith)
                requires
                    0 <= w && 0 <= h,
            ;
        }
        let n: usize = self.w * self.h;
        let black = Color { r: 0, g: 0, b: 0 };
        let mut i: usize = 0;
        while i < n
            invariant
                same_dims(*old(self), *self),
                i <= n,
                forall|x: int, y: int| #![trigger px_idx(self.w as int, x, y)]
                    0 <= x < self.w && 0 <= y < self.h ==> {
                        if y * self.w + x < i {
                            &&& px_colored(self.data@, self.w as int, x, y, black)
                            &&& px_pad_unchanged(old(self).data@, self.data@, self.w as int, x, y)
                        } else {
                            px_unchanged(old(self).data@, self.data@, self.w as int, x, y)
                        }
                    },
            decreases n - i,
        {
            let ghost prev = self.data@;
            set_px_index(self, black, i);
            proof {
                let w = self.w as int;
                assert forall|x: int, y: int| #![trigger px_idx(w, x, y)]
                    0 <= x < self.w && 0 <= y < self.h implies {
                    if y * w + x < i + 1 {
                        &&& px_colored(self.data@, w, x, y, black)
                        &&& px_pad_unchanged(old(self).data@, self.data@, w, x, y)
                    } else {
                        px_unchanged(old(self).data@, self.data@, w, x, y)
                    }
                } by {
                    lemma_row_major_bounds(w, self.h as int, x, y);
                    let p = y * w + x;
                    if p == i {
                        assert(px_idx(w, x, y) == 4 * i);
                    }
                }
            }
            i = i + 1;
        }
        proof {
            assert forall|x: int, y: int| #![trigger px_idx(self.w as int, x, y)]
                0 <= x < self.w && 0 <= y < self.h implies y * (self.w as int) + x < n by {
                lemma_row_major_bounds(self.w as int, self.h as int, x, y);
            }
        }
    }
}

/// Clamps `x` into `[min, max]` (both inclusive); callers pass `min <= max`.
pub fn clamp(x: i128, min: i128, max: i128) -> (r: i128)
    ensures
        r == if x < min {
            min
        } else if x >= max {
            max
        } else {
            x
        },
{
    if x < min {
        return min;
    }
    if x >= max {
        return max;
    }
    x
}

/// Writes `color` to pixel `(x, y)`, leaving its fourth byte and every
/// other pixel of the buffer untouched.
fn set_px(screen: &mut Screen, color: Color, x: usize, y: usize)
    requires
        old(screen).wf(),
        x < old(screen).w,
        y < old(screen).h,
    ensures
        same_dims(*old(screen), *final(screen)),
        final(screen).wf(),
        px_colored(final(screen).data@, old(screen).w as int, x as int, y as int, color),
        px_pad_unchanged(
            old(screen).data@,
            final(screen).data@,
            old(screen).w as int,
            x as int,
            y as int,
        ),
        forall|a: int, b: int| #![trigger px_idx(old(screen).w as int, a, b)]
            0 <= a < old(screen).w && 0 <= b < old(screen).h && (a != x || b != y)
                ==> px_unchanged(old(screen).data@, final(screen).data@, old(screen).w as int, a, b),
{
    let len = screen.data.len();
    proof {
        lemma_row_major_bounds(screen.w as int, screen.h as int, x as int, y as int);
        let w = screen.w as int;
        let h = screen.h as int;
        assert(w * h <= w * h * 4) by (nonlinear_arith)
            requires
                0 <= w && 0 <= h,
        ;
    }
    let i: usize = y * screen.w + x;
    set_px_index(screen, color, i);
    proof {
        let w = screen.w as int;
        assert forall|a: int, b: int| #![trigger px_idx(w, a, b)]
            0 <= a < screen.w && 0 <= b < screen.h && (a != x || b != y) implies px_unchanged(
            old(screen).data@,
            final(screen).data@,
            w,
            a,
            b,
        ) by {
            lemma_row_major_bounds(w, screen.h as int, a, b);
            lemma_row_major_ne(w, a, b, x as int, y as int);
        }
    }
}

/// Writes `color` to the pixel at `point` if it lies inside the buffer;
/// leaves the buffer untouched otherwise.
pub fn set_px_safe(screen: &mut Screen, color: Color, point: PointScreen)
    requires
        old(screen).wf(),
    ensures
        same_dims(*old(screen), *final(screen)),
        final(screen).wf(),
        forall|a: int, b: int| #![trigger px_idx(old(screen).w as int, a, b)]
            0 <= a < old(screen).w && 0 <= b < old(screen).h ==> {
                if a == point.x && b == point.y {
                    &&& px_colored(final(screen).data@, old(screen).w as int, a, b, color)
                    &&& px_pad_unchanged(
                        old(screen).data@,
                        final(screen).data@,
                        old(screen).w as int,
                        a,
                        b,
                    )
                } else {
                    px_unchanged(old(screen).data@, final(screen).data@, old(screen).w as int, a, b)
                }
            },
{
    if point.x < 0 || point.y < 0 {
        return ;
    }
    let x = point.x as usize;
    let y = point.y as usize;
    if x >= screen.w || y >= screen.h {
        return ;
    }
    set_px(screen, color, x, y);
}

/// Fills the inclusive pixel range `[x1, x2]` of row `y` with `color`,
/// clipped to the buffer; every other pixel is untouched. Coordinates are
/// wide integers so that callers may pass unclipped intermediate results.
pub(crate) fn fill_row_i(screen: &mut Screen, y: i128, x1: i128, x2: i128, color: Color)
    requires
        old(screen).wf(),
    ensures
        same_dims(*old(screen), *final(screen)),
        final(screen).wf(),
        forall|a: int, b: int| #![trigger px_idx(old(screen).w as int, a, b)]
            0 <= a < old(screen).w && 0 <= b < old(screen).h ==> {
                if b == y && x1 <= a <= x2 {
                    &&& px_colored(final(screen).data@, old(screen).w as int, a, b, color)
                    &&& px_pad_unchanged(
                        old(screen).data@,
                        final(screen).data@,
                        old(screen).w as int,
                        a,
                        b,
                    )
                } else {
                    px_unchanged(old(screen).data@, final(screen).data@, old(screen).w as int, a, b)
                }
            },
{
    if y < 0 || y >= screen.h as i128 {
        return ;
    }
    let yu = y as usize;
    let wi = screen.w as i128;
    let lo_i = if x1 < 0 {
        0i128
    } else {
        x1
    };
    let hi_i = if x2 > wi - 1 {
        wi - 1
    } else {
        x2
    };
    if lo_i > hi_i {
        return ;
    }
    let lo = lo_i as usize;
    let hi = hi_i as usize;
    let mut a: usize = lo;
    while a <= hi
        invariant
            lo <= a <= hi + 1,
            same_dims(*old(screen), *screen),
            screen.wf(),
            forall|p: int, q: int| #![trigger px_idx(old(screen).w as int, p, q)]
                0 <= p < screen.w && 0 <= q < screen.h ==> {
                    if q == y && lo <= p < a {
                        &&& px_colored(screen.data@, old(screen).w as int, p, q, color)
                        &&& px_pad_unchanged(
                            old(screen).data@,
                            screen.data@,
                            old(screen).w as int,
                            p,
                            q,
                        )
                    } else {
                        px_unchanged(old(screen).data@, screen.data@, old(screen).w as int, p, q)
                    }
                },
        decreases hi + 1 - a,
    {
        set_px(screen, color, a, yu);
        a = a + 1;
    }
}

/// Fills the inclusive pixel range `[x1, x2]` of row `y` with `color`,
/// clipped to the buffer; every other pixel is untouched.
pub fn fill_row(screen: &mut Screen, y: isize, x1: isize, x2: isize, color: Color)
    requires
        old(screen).wf(),
    ensures
        same_dims(*old(screen), *final(screen)),
        final(screen).wf(),
        forall|a: int, b: int| #![trigger px_idx(old(screen).w as int, a, b)]
            0 <= a < old(screen).w && 0 <= b < old(screen).h ==> {
                if b == y && x1 <= a <= x2 {
                    &&& px_colored(final(screen).data@, old(screen).w as int, a, b, color)
                    &&& px_pad_unchanged(
                        old(screen).data@,
                        final(screen).data@,
                        old(screen).w as int,
                        a,
                        b,
                    )
                } else {
                    px_unchanged(old(screen).data@, final(screen).data@, old(screen).w as int, a, b)
                }
            },
{
    fill_row_i(screen, y as i128, x1 as i128, x2 as i128, color);
}

/// Fills the inclusive pixel range `[y1, y2]` of column `x` with `color`,
/// clipped to the buffer; every other pixel is untouched.
pub fn fill_col(screen: &mut Screen, x: isize, y1: isize, y2: isize, color: Color)
    requires
        old(screen).wf(),
    ensures
        same_dims(*old(screen), *final(screen)),
        final(screen).wf(),
        forall|a: int, b: int| #![trigger px_idx(old(screen).w as int, a, b)]
            0 <= a < old(screen).w && 0 <= b < old(screen).h ==> {
                if a == x && y1 <= b <= y2 {
                    &&& px_colored(final(screen).data@, old(screen).w as int, a, b, color)
                    &&& px_pad_unchanged(
                        old(screen).data@,
                        final(screen).data@,
                        old(screen).w as int,
                        a,
                        b,
                    )
                } else {
                    px_unchanged(old(screen).data@, final(screen).data@, old(screen).w as int, a, b)
                }
            },
{
    if x < 0 {
        return ;
    }
    let xu = x as usize;
    if xu >= screen.w {
        return ;
    }
    let hi_128 = screen.h as i128;
    let lo_i = if (y1 as i128) < 0 {
        0i128
    } else {
        y1 as i128
    };
    let hi_i = if (y2 as i128) > hi_128 - 1 {
        hi_128 - 1
    } else {
        y2 as i128
    };
    if lo_i > hi_i {
        return ;
    }
    let lo = lo_i as usize;
    let hi = hi_i as usize;
    let mut b: usize = lo;
    while b <= hi
        invariant
            lo <= b <= hi + 1,
            same_dims(*old(screen), *screen),
            screen.wf(),
            forall|p: int, q: int| #![trigger px_idx(old(screen).w as int, p, q)]
                0 <= p < screen.w && 0 <= q < screen.h ==> {
                    if p == x && lo <= q < b {
                        &&& px_colored(screen.data@, old(screen).w as int, p, q, color)
                        &&& px_pad_unchanged(
                            old(screen).data@,
                            screen.data@,
                            old(screen).w as int,
                            p,
                            q,
                        )
                    } else {
                        px_unchanged(old(screen).data@, screen.data@, old(screen).w as int, p, q)
                    }
                },
        decreases hi + 1 - b,
    {
        set_px(screen, color, xu, b);
        b = b + 1;
    }
}

/// Fills the axis-aligned square of half-width `r` centered on `point` with
/// `color`, clipped to the buffer: every in-bounds pixel of the square is
/// set, every other pixel is untouched, and the fourth byte of each pixel
/// is never written.
pub fn draw_point(screen: &mut Screen, point: PointScreen, r: usize, color: Color)
    requires
        old(screen).wf(),
    ensures
        same_dims(*old(screen), *final(screen)),
        final(screen).wf(),
        forall|x: int, y: int| #![trigger px_idx(old(screen).w as int, x, y)]
            0 <= x < old(screen).w && 0 <= y < old(screen).h ==> {
                if point.x - r <= x <= point.x + r && point.y - r <= y <= point.y + r {
                    &&& px_colored(final(screen).data@, old(screen).w as int, x, y, color)
                    &&& px_pad_unchanged(
                        old(screen).data@,
                        final(screen).data@,
                        old(screen).w as int,
                        x,
                        y,
                    )
                } else {
                    px_unchanged(old(screen).data@, final(screen).data@, old(screen).w as int, x, y)
                }
            },
{
    let px = point.x as i128;
    let py = point.y as i128;
    let rr = r as i128;
    let left = px - rr;
    let right = px + rr;
    let top = py - rr;
    let bot = py + rr;
    let ylo = if top < 0 {
        0i128
    } else {
        top
    };
    let yhi = if bot > screen.h as i128 - 1 {
        screen.h as i128 - 1
    } else {
        bot
    };
    if ylo > yhi {
        return ;
    }
    let mut ycur = ylo;
    while ycur <= yhi
        invariant
            ylo <= ycur <= yhi + 1,
            same_dims(*old(screen), *screen),
            screen.wf(),
            forall|x: int, y: int| #![trigger px_idx(old(screen).w as int, x, y)]
                0 <= x < screen.w && 0 <= y < screen.h ==> {
                    if left <= x <= right && ylo <= y < ycur {
                        &&& px_colored(screen.data@, old(screen).w as int, x, y, color)
                        &&& px_pad_unchanged(
                            old(screen).data@,
                            screen.data@,
                            old(screen).w as int,
                            x,
                            y,
                        )
                    } else {
                        px_unchanged(old(screen).data@, screen.data@, old(screen).w as int, x, y)
                    }
                },
        decreases yhi + 1 - ycur,
    {
        fill_row_i(screen, ycur, left, right, color);
        ycur = ycur + 1;
    }
}

/// Writes `color` to the pixel with row-major linear index `i`, leaving its
/// fourth byte and every other byte of the buffer untouched.
fn set_px_index(screen: &mut Screen, color: Color, i: usize)
    requires
        old(screen).wf(),
        i < old(screen).w * old(screen).h,
    ensures
        same_dims(*old(screen), *final(screen)),
        final(screen).wf(),
        final(screen).data@[4 * i as int] == color.b,
        final(screen).data@[4 * i as int + 1] == color.g,
        final(screen).data@[4 * i as int + 2] == color.r,
        forall|k: int| #![trigger final(screen).data@[k]]
            0 <= k < old(screen).data@.len() && k != 4 * i as int && k != 4 * i as int + 1 && k
                != 4 * i as int + 2 ==> final(screen).data@[k] == old(screen).data@[k],
{
    let len = screen.data.len();
    proof {
        let w = old(screen).w as int;
        let h = old(screen).h as int;
        assert(4 * i + 3 < w * h * 4) by (nonlinear_arith)
            requires
                0 <= i < w * h,
        ;
    }
    let base: usize = 4 * i;
    screen.data[base] = color.b;
    screen.data[base + 1] = color.g;
    screen.data[base + 2] = color.r;
}

} // verus!
