//! Filled discs and thick line segments, painted onto a canvas.

use crate::canvas::{Canvas, Rgba};
use vstd::arithmetic::div_mod::{lemma_div_is_ordered, lemma_div_multiples_vanish};
use vstd::arithmetic::mul::lemma_mul_inequality;
use vstd::prelude::*;

verus! {

/// `(x, y)` lies in the closed disc of radius `r` about `(cx, cy)`.
pub open spec fn in_disc(cx: int, cy: int, r: int, x: int, y: int) -> bool {
    (x - cx) * (x - cx) + (y - cy) * (y - cy) <= r * r
}

proof fn lemma_square_bound(d: int, r: int)
    requires
        0 <= r,
        d * d <= r * r,
    ensures
        -r <= d <= r,
{
    if d > r {
        assert(d * d > r * r) by (nonlinear_arith)
            requires
                d > r,
                r >= 0,
        ;
    } else if d < -r {
        assert(d * d > r * r) by (nonlinear_arith)
            requires
                d < -r,
                r >= 0,
        ;
    }
}

/// A point of the disc lies in its bounding box.
proof fn lemma_disc_box(cx: int, cy: int, r: int, x: int, y: int)
    requires
        0 <= r,
        in_disc(cx, cy, r, x, y),
    ensures
        cx - r <= x <= cx + r,
        cy - r <= y <= cy + r,
{
    assert((x - cx) * (x - cx) >= 0) by (nonlinear_arith);
    assert((y - cy) * (y - cy) >= 0) by (nonlinear_arith);
    lemma_square_bound(x - cx, r);
    lemma_square_bound(y - cy, r);
}

fn abs_diff(a: usize, b: usize) -> (d: usize)
    ensures
        d == if a >= b {
            a - b
        } else {
            b - a
        },
{
    if a >= b {
        a - b
    } else {
        b - a
    }
}

/// Lower edge `max(c - r, 0)` and exclusive upper edge `min(c + r + 1, limit)`
/// of a disc's span along one axis.
fn span(c: usize, r: usize, limit: usize) -> (s: (usize, usize))
    ensures
        s.0 == if c >= r {
            c - r
        } else {
            0
        },
        s.1 <= limit,
        s.1 == limit || s.1 == c + r + 1,
        c + r + 1 <= limit ==> s.1 == c + r + 1,
        c + r + 1 > limit ==> s.1 == limit,
{
    let lo: usize = if c >= r {
        c - r
    } else {
        0
    };
    let hi: usize = if c < limit && r < limit - c {
        c + r + 1
    } else {
        limit
    };
    (lo, hi)
}

/// Paints every canvas pixel of the disc of radius `r` about `(cx, cy)`; the
/// parts off the canvas are dropped.
pub fn fill_disc(canvas: &mut Canvas, cx: usize, cy: usize, r: usize, c: Rgba)
    requires
        old(canvas).wf(),
    ensures
        final(canvas).wf(),
        final(canvas).width_spec() == old(canvas).width_spec(),
        final(canvas).height_spec() == old(canvas).height_spec(),
        forall|x: int, y: int|
            final(canvas).in_bounds(x, y) ==> #[trigger] final(canvas).at(x, y) == if in_disc(
                cx as int,
                cy as int,
                r as int,
                x,
                y,
            ) {
                c
            } else {
                old(canvas).at(x, y)
            },
{
    let ghost before = *canvas;
    let (x_lo, x_hi) = span(cx, r, canvas.width());
    let (y_lo, y_hi) = span(cy, r, canvas.height());
    proof {
        let ri = r as int;
        assert(ri * ri <= u128::MAX) by (nonlinear_arith)
            requires
                0 <= ri <= usize::MAX,
                usize::MAX < 0x1_0000_0000_0000_0000,
        ;
    }
    let rr: u128 = (r as u128) * (r as u128);
    let mut y: usize = y_lo;
    while y < y_hi
        invariant
            canvas.wf(),
            canvas.width_spec() == before.width_spec(),
            canvas.height_spec() == before.height_spec(),
            y_lo <= y,
            y_lo < y_hi ==> y <= y_hi,
            y_hi <= canvas.height_spec(),
            y_hi <= cy + r + 1,
            x_hi <= cx + r + 1,
            x_hi <= canvas.width_spec(),
            x_lo == (if cx >= r { cx - r } else { 0 }),
            x_hi == canvas.width_spec() || x_hi == cx + r + 1,
            cx + r + 1 <= canvas.width_spec() ==> x_hi == cx + r + 1,
            y_lo == (if cy >= r { cy - r } else { 0 }),
            rr == r * r,
            forall|px: int, py: int|
                canvas.in_bounds(px, py) ==> #[trigger] canvas.at(px, py) == if y_lo <= py < y && in_disc(
                    cx as int,
                    cy as int,
                    r as int,
                    px,
                    py,
                ) {
                    c
                } else {
                    before.at(px, py)
                },
        decreases y_hi - y,
    {
        let dy = abs_diff(y, cy) as u128;
        let ghost row_start = *canvas;
        let mut x: usize = x_lo;
        while x < x_hi
            invariant
                canvas.wf(),
                canvas.width_spec() == before.width_spec(),
                canvas.height_spec() == before.height_spec(),
                y < y_hi <= canvas.height_spec(),
                y_lo <= y,
                x_lo <= x,
                x_lo < x_hi ==> x <= x_hi,
                x_hi <= canvas.width_spec(),
                x_hi <= cx + r + 1,
                x_lo == (if cx >= r { cx - r } else { 0 }),
                y_lo == (if cy >= r { cy - r } else { 0 }),
                cy + r + 1 > y,
                rr == r * r,
                dy == (if y >= cy { y - cy } else { cy - y }),
                forall|px: int, py: int|
                    canvas.in_bounds(px, py) ==> #[trigger] canvas.at(px, py) == if py == y && x_lo <= px < x
                        && in_disc(cx as int, cy as int, r as int, px, py) {
                        c
                    } else {
                        row_start.at(px, py)
                    },
            decreases x_hi - x,
        {
            let dx = abs_diff(x, cx) as u128;
            assert(dx <= r && dy <= r);
            proof {
                lemma_mul_inequality(dx as int, r as int, dx as int);
                lemma_mul_inequality(dx as int, r as int, r as int);
                lemma_mul_inequality(dy as int, r as int, dy as int);
                lemma_mul_inequality(dy as int, r as int, r as int);
            }
            let dx2 = dx * dx;
            let dy2 = dy * dy;
            proof {
                assert((x - cx) * (x - cx) == dx2) by (nonlinear_arith)
                    requires
                        dx2 == dx * dx,
                        dx == x - cx || dx == cx - x,
                ;
                assert((y - cy) * (y - cy) == dy2) by (nonlinear_arith)
                    requires
                        dy2 == dy * dy,
                        dy == y - cy || dy == cy - y,
                ;
            }
            if dy2 <= rr - dx2 {
                canvas.set(x, y, c);
            }
            x = x + 1;
        }
        proof {
            assert forall|px: int, py: int| canvas.in_bounds(px, py) && py == y && !(x_lo <= px < x_hi)
                implies !in_disc(cx as int, cy as int, r as int, px, py) by {
                if in_disc(cx as int, cy as int, r as int, px, py) {
                    lemma_disc_box(cx as int, cy as int, r as int, px, py);
                }
            }
        }
        y = y + 1;
    }
    proof {
        assert forall|px: int, py: int| canvas.in_bounds(px, py) && !(y_lo <= py < y_hi) implies !in_disc(
            cx as int,
            cy as int,
            r as int,
            px,
            py,
        ) by {
            if in_disc(cx as int, cy as int, r as int, px, py) {
                lemma_disc_box(cx as int, cy as int, r as int, px, py);
            }
        }
    }
}

/// Number of steps from `a` to `b`: the larger of the two axis distances.
pub open spec fn line_steps(ax: int, ay: int, bx: int, by: int) -> int {
    let dx = if bx >= ax { bx - ax } else { ax - bx };
    let dy = if by >= ay { by - ay } else { ay - by };
    if dx >= dy { dx } else { dy }
}

/// Coordinate of step `t` of `n` on the way from `a` to `b`, rounded toward `a`.
pub open spec fn step_coord(a: int, b: int, t: int, n: int) -> int {
    if n == 0 {
        a
    } else if b >= a {
        a + (t * (b - a)) / n
    } else {
        a - (t * (a - b)) / n
    }
}

/// `(x, y)` is under the brush (a disc of radius `w / 2`) at step `t` of the
/// segment from `(ax, ay)` to `(bx, by)`.
pub open spec fn under_step(ax: int, ay: int, bx: int, by: int, w: int, t: int, x: int, y: int) -> bool {
    let n = line_steps(ax, ay, bx, by);
    in_disc(step_coord(ax, bx, t, n), step_coord(ay, by, t, n), w / 2, x, y)
}

/// `(x, y)` is under the brush at one of the steps `0 .. k`.
pub open spec fn under_steps(ax: int, ay: int, bx: int, by: int, w: int, k: int, x: int, y: int) -> bool {
    exists|t: int| 0 <= t < k && #[trigger] under_step(ax, ay, bx, by, w, t, x, y)
}

/// `(x, y)` belongs to the segment of width `w` from `(ax, ay)` to `(bx, by)`:
/// the brush visits every step from `0` to `line_steps` inclusive.
pub open spec fn on_line(ax: int, ay: int, bx: int, by: int, w: int, x: int, y: int) -> bool {
    under_steps(ax, ay, bx, by, w, line_steps(ax, ay, bx, by) + 1, x, y)
}

fn step(a: usize, b: usize, t: u128, n: u128) -> (r: usize)
    requires
        t <= n,
        n <= usize::MAX,
    ensures
        r == step_coord(a as int, b as int, t as int, n as int),
{
    if n == 0 {
        return a;
    }
    let d: usize = abs_diff(a, b);
    proof {
        let di = d as int;
        let ni = n as int;
        let ti = t as int;
        lemma_mul_inequality(ti, ni, di);
        assert(ni * di <= u128::MAX) by (nonlinear_arith)
            requires
                0 <= ni <= usize::MAX,
                0 <= di <= usize::MAX,
                usize::MAX < 0x1_0000_0000_0000_0000,
        ;
        assert(0 <= ti * di) by (nonlinear_arith)
            requires
                0 <= ti,
                0 <= di,
        ;
        lemma_div_is_ordered(ti * di, ni * di, ni);
        lemma_div_multiples_vanish(di, ni);
        assert(ni * di == di * ni) by (nonlinear_arith);
    }
    let q = (t * (d as u128)) / n;
    if b >= a {
        a + q as usize
    } else {
        a - q as usize
    }
}

/// Paints every canvas pixel of the segment of width `w` from `(x0, y0)` to
/// `(x1, y1)` (see `on_line`); the parts off the canvas are dropped.
pub fn draw_line(canvas: &mut Canvas, x0: usize, y0: usize, x1: usize, y1: usize, w: usize, c: Rgba)
    requires
        old(canvas).wf(),
    ensures
        final(canvas).wf(),
        final(canvas).width_spec() == old(canvas).width_spec(),
        final(canvas).height_spec() == old(canvas).height_spec(),
        forall|x: int, y: int|
            final(canvas).in_bounds(x, y) ==> #[trigger] final(canvas).at(x, y) == if on_line(
                x0 as int,
                y0 as int,
                x1 as int,
                y1 as int,
                w as int,
                x,
                y,
            ) {
                c
            } else {
                old(canvas).at(x, y)
            },
{
    let ghost before = *canvas;
    let ghost ix0 = x0 as int;
    let ghost iy0 = y0 as int;
    let ghost ix1 = x1 as int;
    let ghost iy1 = y1 as int;
    let ghost iw = w as int;
    let dx = abs_diff(x0, x1);
    let dy = abs_diff(y0, y1);
    let n: usize = if dx >= dy { dx } else { dy };
    let half = w / 2;
    let mut t: u128 = 0;
    while t <= n as u128
        invariant
            canvas.wf(),
            canvas.width_spec() == before.width_spec(),
            canvas.height_spec() == before.height_spec(),
            ix0 == x0 && iy0 == y0 && ix1 == x1 && iy1 == y1 && iw == w,
            n == line_steps(ix0, iy0, ix1, iy1),
            t <= n + 1,
            half == iw / 2,
            forall|x: int, y: int|
                canvas.in_bounds(x, y) ==> #[trigger] canvas.at(x, y) == if under_steps(
                    ix0,
                    iy0,
                    ix1,
                    iy1,
                    iw,
                    t as int,
                    x,
                    y,
                ) {
                    c
                } else {
                    before.at(x, y)
                },
        decreases n + 1 - t,
    {
        let sx = step(x0, x1, t, n as u128);
        let sy = step(y0, y1, t, n as u128);
        let ghost prev = *canvas;
        fill_disc(canvas, sx, sy, half, c);
        proof {
            assert forall|x: int, y: int| canvas.in_bounds(x, y) implies #[trigger] canvas.at(x, y)
                == if under_steps(ix0, iy0, ix1, iy1, iw, t + 1, x, y) {
                c
            } else {
                before.at(x, y)
            } by {
                assert(under_step(ix0, iy0, ix1, iy1, iw, t as int, x, y) == in_disc(
                    sx as int,
                    sy as int,
                    half as int,
                    x,
                    y,
                ));
                if under_step(ix0, iy0, ix1, iy1, iw, t as int, x, y) {
                    assert(under_steps(ix0, iy0, ix1, iy1, iw, t + 1, x, y));
                } else if under_steps(ix0, iy0, ix1, iy1, iw, t + 1, x, y) {
                    let s = choose|s: int| 0 <= s < t + 1 && #[trigger] under_step(ix0, iy0, ix1, iy1, iw, s, x, y);
                    assert(under_steps(ix0, iy0, ix1, iy1, iw, t as int, x, y));
                } else {
                    assert(!under_steps(ix0, iy0, ix1, iy1, iw, t as int, x, y));
                }
                assert(prev.at(x, y) == if under_steps(ix0, iy0, ix1, iy1, iw, t as int, x, y) {
                    c
                } else {
                    before.at(x, y)
                });
            }
        }
        t = t + 1;
    }
}

} // verus!
