//! Pixel rasters: straight lines (Bresenham) and braille cells.
use vstd::prelude::*;

verus! {

pub open spec fn iabs(v: int) -> int {
    if v < 0 { -v } else { v }
}

/// One step from `c` toward `t`.
pub open spec fn step_toward(c: int, t: int) -> int {
    if c < t { 1 } else { -1 }
}

/// The points that Bresenham's walk visits from `(cx, cy)` with error term
/// `err` toward `(x1, y1)`, for a line of extents `dx >= 0` and `dy <= 0`.
/// Each step moves along x when `2 * err >= dy` and along y when
/// `2 * err <= dx`; the walk ends on reaching the end point, or when a step
/// is due along an axis on which the end point is already reached.
pub open spec fn walk(cx: int, cy: int, err: int, x1: int, y1: int, dx: int, dy: int) -> Seq<(int, int)>
    decreases iabs(x1 - cx) + iabs(y1 - cy),
{
    let here = seq![(cx, cy)];
    let e2 = 2 * err;
    if !(dy <= 0 && 0 <= dx) || (cx == x1 && cy == y1) || (e2 >= dy && cx == x1) {
        here
    } else {
        let nx = if e2 >= dy { cx + step_toward(cx, x1) } else { cx };
        let err2 = if e2 >= dy { err + dy } else { err };
        if e2 <= dx && cy == y1 {
            here
        } else {
            let ny = if e2 <= dx { cy + step_toward(cy, y1) } else { cy };
            let err3 = if e2 <= dx { err2 + dx } else { err2 };
            here + walk(nx, ny, err3, x1, y1, dx, dy)
        }
    }
}

/// The points of the line from `(x0, y0)` to `(x1, y1)`, in drawing order.
pub open spec fn line_points(x0: int, y0: int, x1: int, y1: int) -> Seq<(int, int)> {
    let dx = iabs(x1 - x0);
    let dy = -iabs(y1 - y0);
    walk(x0, y0, dx + dy, x1, y1, dx, dy)
}

pub open spec fn in_bounds(p: (int, int), w: int, h: int) -> bool {
    0 <= p.0 < w && 0 <= p.1 < h
}

/// Row-major index of pixel `p` in a raster `w` pixels wide.
pub open spec fn pixel_index(p: (int, int), w: int) -> int {
    p.1 * w + p.0
}

/// `s` with every point of `pts` that lies within the `w` by `h` raster set.
pub open spec fn paint(s: Seq<bool>, w: int, h: int, pts: Seq<(int, int)>) -> Seq<bool>
    decreases pts.len(),
{
    if pts.len() == 0 {
        s
    } else {
        let rest = paint(s, w, h, pts.drop_last());
        if in_bounds(pts.last(), w, h) {
            rest.update(pixel_index(pts.last(), w), true)
        } else {
            rest
        }
    }
}

/// Every point of `pts` within the raster has its index within `len`.
pub open spec fn indices_fit(pts: Seq<(int, int)>, w: int, h: int, len: int) -> bool {
    forall|k: int|
        0 <= k < pts.len() && in_bounds(#[trigger] pts[k], w, h) ==> pixel_index(pts[k], w) < len
}

pub proof fn lemma_paint_len(s: Seq<bool>, w: int, h: int, pts: Seq<(int, int)>)
    requires
        indices_fit(pts, w, h, s.len() as int),
        w >= 0,
        forall|k: int| 0 <= k < pts.len() && in_bounds(#[trigger] pts[k], w, h) ==> pixel_index(pts[k], w) >= 0,
    ensures
        paint(s, w, h, pts).len() == s.len(),
    decreases pts.len(),
{
    if pts.len() > 0 {
        let pre = pts.drop_last();
        assert forall|k: int| 0 <= k < pre.len() && in_bounds(#[trigger] pre[k], w, h) implies pixel_index(pre[k], w) < s.len() && pixel_index(pre[k], w) >= 0 by {
            assert(pre[k] == pts[k]);
        }
        lemma_paint_len(s, w, h, pre);
        assert(pts[pts.len() - 1] == pts.last());
    }
}

proof fn lemma_walk_first(cx: int, cy: int, err: int, x1: int, y1: int, dx: int, dy: int)
    ensures
        walk(cx, cy, err, x1, y1, dx, dy).len() >= 1,
        walk(cx, cy, err, x1, y1, dx, dy)[0] == (cx, cy),
{
}

/// In a raster of exactly `w * h` pixels every point within bounds has its
/// index inside the raster.
pub proof fn lemma_fits_raster(pts: Seq<(int, int)>, w: int, h: int)
    ensures
        indices_fit(pts, w, h, w * h),
        forall|k: int| 0 <= k < pts.len() && in_bounds(#[trigger] pts[k], w, h) ==> pixel_index(pts[k], w) >= 0,
{
    assert forall|k: int| 0 <= k < pts.len() && in_bounds(#[trigger] pts[k], w, h) implies 0 <= pixel_index(pts[k], w) < w * h by {
        let p = pts[k];
        assert(0 <= p.1 * w + p.0 < w * h) by (nonlinear_arith)
            requires
                0 <= p.0 < w,
                0 <= p.1 < h,
        ;
    }
}

/// Painting two runs of points one after the other paints their
/// concatenation.
pub proof fn lemma_paint_concat(s: Seq<bool>, w: int, h: int, a: Seq<(int, int)>, b: Seq<(int, int)>)
    ensures
        paint(s, w, h, a + b) == paint(paint(s, w, h, a), w, h, b),
    decreases b.len(),
{
    if b.len() > 0 {
        assert((a + b).drop_last() =~= a + b.drop_last());
        assert((a + b).last() == b.last());
        lemma_paint_concat(s, w, h, a, b.drop_last());
    } else {
        assert(a + b =~= a);
    }
}

/// Consecutive points of `s` are neighbours or equal: no coordinate jumps by
/// more than one.
pub open spec fn steps_connected(s: Seq<(int, int)>) -> bool {
    forall|i: int|
        0 <= i < s.len() - 1 ==> iabs(#[trigger] s[i + 1].0 - s[i].0) <= 1 && iabs(s[i + 1].1 - s[i].1) <= 1
}

proof fn lemma_step_due(ax: int, ay: int, nx: int, ny: int, p: int, q: int, err: int)
    requires
        ax >= 0,
        ay >= 0,
        0 <= nx <= ax,
        0 <= ny <= ay,
        p == ay * nx,
        q == ax * ny,
        err == ax - ay + q - p,
        !(nx == ax && ny == ay),
    ensures
        nx == ax ==> !(2 * err >= -ay),
        ny == ay ==> !(2 * err <= ax),
        2 * err >= -ay || 2 * err <= ax,
{
    if nx == ax {
        assert(q <= ax * ay - ax) by (nonlinear_arith)
            requires
                q == ax * ny,
                ny <= ay - 1,
                ax >= 0,
        ;
        assert(p == ax * ay) by (nonlinear_arith)
            requires
                p == ay * nx,
                nx == ax,
        ;
    }
    if ny == ay {
        assert(p <= ay * ax - ay) by (nonlinear_arith)
            requires
                p == ay * nx,
                nx <= ax - 1,
                ay >= 0,
        ;
        assert(q == ax * ay) by (nonlinear_arith)
            requires
                q == ax * ny,
                ny == ay,
        ;
    }
}

/// A walk from a point on the way from `(x0, y0)` to `(x1, y1)`, `nx` steps
/// along x and `ny` along y from the start, with the error term those steps
/// leave, reaches the end point, one neighbouring pixel at a time.
proof fn lemma_walk_reaches_end(
    x0: int,
    y0: int,
    x1: int,
    y1: int,
    cx: int,
    cy: int,
    err: int,
    nx: int,
    ny: int,
    p: int,
    q: int,
)
    requires
        0 <= nx <= iabs(x1 - x0),
        0 <= ny <= iabs(y1 - y0),
        x0 < x1 ==> cx == x0 + nx,
        x0 >= x1 ==> cx == x0 - nx,
        y0 < y1 ==> cy == y0 + ny,
        y0 >= y1 ==> cy == y0 - ny,
        p == iabs(y1 - y0) * nx,
        q == iabs(x1 - x0) * ny,
        err == iabs(x1 - x0) - iabs(y1 - y0) + q - p,
        iabs(x1 - x0) >= iabs(y1 - y0) ==> 2 * err >= -iabs(y1 - y0),
        iabs(x1 - x0) < iabs(y1 - y0) ==> 2 * err <= iabs(x1 - x0),
    ensures
        walk(cx, cy, err, x1, y1, iabs(x1 - x0), -iabs(y1 - y0)).len() == if iabs(x1 - x0) >= iabs(y1 - y0) {
            iabs(x1 - x0) - nx + 1
        } else {
            iabs(y1 - y0) - ny + 1
        },
        forall|i: int|
            0 <= i < walk(cx, cy, err, x1, y1, iabs(x1 - x0), -iabs(y1 - y0)).len() ==> in_box(
                #[trigger] walk(cx, cy, err, x1, y1, iabs(x1 - x0), -iabs(y1 - y0))[i],
                x0,
                y0,
                x1,
                y1,
            ),
        walk(cx, cy, err, x1, y1, iabs(x1 - x0), -iabs(y1 - y0)).len() > 0,
        walk(cx, cy, err, x1, y1, iabs(x1 - x0), -iabs(y1 - y0))[0] == (cx, cy),
        walk(cx, cy, err, x1, y1, iabs(x1 - x0), -iabs(y1 - y0)).last() == (x1, y1),
        steps_connected(walk(cx, cy, err, x1, y1, iabs(x1 - x0), -iabs(y1 - y0))),
    decreases iabs(x1 - cx) + iabs(y1 - cy),
{
    let ax = iabs(x1 - x0);
    let ay = iabs(y1 - y0);
    let w = walk(cx, cy, err, x1, y1, ax, -ay);
    if cx == x1 && cy == y1 {
        assert(w == seq![(cx, cy)]);
    } else {
        lemma_step_due(ax, ay, nx, ny, p, q, err);
        let e2 = 2 * err;
        let xs = e2 >= -ay;
        let ys = e2 <= ax;
        let ncx = if xs { cx + step_toward(cx, x1) } else { cx };
        let nerr2 = if xs { err - ay } else { err };
        let ncy = if ys { cy + step_toward(cy, y1) } else { cy };
        let nerr3 = if ys { nerr2 + ax } else { nerr2 };
        let nnx = if xs { nx + 1 } else { nx };
        let nny = if ys { ny + 1 } else { ny };
        let np = if xs { p + ay } else { p };
        let nq = if ys { q + ax } else { q };
        assert(ay * (nx + 1) == ay * nx + ay) by (nonlinear_arith);
        assert(ax * (ny + 1) == ax * ny + ax) by (nonlinear_arith);
        let rest = walk(ncx, ncy, nerr3, x1, y1, ax, -ay);
        assert(w == seq![(cx, cy)] + rest);
        lemma_walk_reaches_end(x0, y0, x1, y1, ncx, ncy, nerr3, nnx, nny, np, nq);
        assert forall|i: int| 0 <= i < w.len() implies in_box(#[trigger] w[i], x0, y0, x1, y1) by {
            if i > 0 {
                assert(w[i] == rest[i - 1]);
            }
        }
        assert forall|i: int| 0 <= i < w.len() - 1 implies iabs(#[trigger] w[i + 1].0 - w[i].0) <= 1 && iabs(
            w[i + 1].1 - w[i].1,
        ) <= 1 by {
            if i == 0 {
                assert(w[1] == rest[0]);
                assert(rest[0] == (ncx, ncy));
            } else {
                let j = i - 1;
                assert(w[i] == rest[j]);
                assert(w[i + 1] == rest[j + 1]);
                assert(0 <= j < rest.len() - 1);
                assert(iabs(rest[j + 1].0 - rest[j].0) <= 1 && iabs(rest[j + 1].1 - rest[j].1) <= 1);
            }
        }
    }
}

/// Point `p` lies in the box that `(x0, y0)` and `(x1, y1)` span.
pub open spec fn in_box(p: (int, int), x0: int, y0: int, x1: int, y1: int) -> bool {
    &&& (x0 <= p.0 <= x1 || x1 <= p.0 <= x0)
    &&& (y0 <= p.1 <= y1 || y1 <= p.1 <= y0)
}

/// A drawn line (what `draw_line_pixels` and `MapCanvas::draw_line_on`
/// paint, clipped to the raster) runs from its start point to its end
/// point, every pixel a neighbour of the one before, one pixel per step
/// along the longer extent (`max(|x1 - x0|, |y1 - y0|) + 1` pixels), all
/// within the box the two ends span.
pub proof fn law_line_joins_end_points(x0: int, y0: int, x1: int, y1: int)
    ensures
        line_points(x0, y0, x1, y1).len() == (if iabs(x1 - x0) >= iabs(y1 - y0) {
            iabs(x1 - x0)
        } else {
            iabs(y1 - y0)
        }) + 1,
        forall|i: int|
            0 <= i < line_points(x0, y0, x1, y1).len() ==> in_box(#[trigger] line_points(x0, y0, x1, y1)[i], x0, y0, x1, y1),
        line_points(x0, y0, x1, y1)[0] == (x0, y0),
        line_points(x0, y0, x1, y1).last() == (x1, y1),
        steps_connected(line_points(x0, y0, x1, y1)),
{
    let ax = iabs(x1 - x0);
    let ay = iabs(y1 - y0);
    assert(ay * 0 == 0 && ax * 0 == 0);
    lemma_walk_reaches_end(x0, y0, x1, y1, x0, y0, ax - ay, 0, 0, 0, 0);
}

/// Draws the line from `(x0, y0)` to `(x1, y1)` into the `w` by `h` raster
/// `pixels` (row-major); points outside the raster are skipped.
pub fn draw_line_pixels(pixels: &mut [bool], w: usize, h: usize, x0: i32, y0: i32, x1: i32, y1: i32)
    requires
        i32::MIN < x1 - x0 <= i32::MAX,
        i32::MIN < y1 - y0 <= i32::MAX,
        indices_fit(
            line_points(x0 as int, y0 as int, x1 as int, y1 as int),
            w as int,
            h as int,
            old(pixels)@.len() as int,
        ),
    ensures
        final(pixels)@ == paint(
            old(pixels)@,
            w as int,
            h as int,
            line_points(x0 as int, y0 as int, x1 as int, y1 as int),
        ),
{
    let ghost all = line_points(x0 as int, y0 as int, x1 as int, y1 as int);
    let dx: i64 = if x1 >= x0 { x1 as i64 - x0 as i64 } else { x0 as i64 - x1 as i64 };
    let dy: i64 = if y1 >= y0 { x0 as i64 * 0 - (y1 as i64 - y0 as i64) } else { y1 as i64 - y0 as i64 };
    let sx: i64 = if x0 < x1 { 1 } else { -1 };
    let sy: i64 = if y0 < y1 { 1 } else { -1 };
    let mut err: i64 = dx + dy;
    let mut cx: i64 = x0 as i64;
    let mut cy: i64 = y0 as i64;
    let ghost mut done: Seq<(int, int)> = seq![];
    assert(all == done + walk(cx as int, cy as int, err as int, x1 as int, y1 as int, dx as int, dy as int));
    loop
        invariant_except_break
            all == done + walk(cx as int, cy as int, err as int, x1 as int, y1 as int, dx as int, dy as int),
        invariant
            dx == iabs(x1 - x0),
            dy == -iabs(y1 - y0),
            sx == (if x0 < x1 { 1int } else { -1int }),
            sy == (if y0 < y1 { 1int } else { -1int }),
            (x0 <= cx <= x1) || (x1 <= cx <= x0),
            (y0 <= cy <= y1) || (y1 <= cy <= y0),
            2 * dy <= err <= 2 * dx,
            all == line_points(x0 as int, y0 as int, x1 as int, y1 as int),
            indices_fit(all, w as int, h as int, pixels@.len() as int),
            pixels@.len() == old(pixels)@.len(),
            pixels@ == paint(old(pixels)@, w as int, h as int, done),
        ensures
            pixels@ == paint(old(pixels)@, w as int, h as int, all),
        decreases iabs(x1 - cx) + iabs(y1 - cy),
    {
        let ghost rest = walk(cx as int, cy as int, err as int, x1 as int, y1 as int, dx as int, dy as int);
        proof {
            lemma_walk_first(cx as int, cy as int, err as int, x1 as int, y1 as int, dx as int, dy as int);
            assert forall|k: int| 0 <= k < done.len() && in_bounds(#[trigger] done[k], w as int, h as int) implies pixel_index(done[k], w as int) < old(pixels)@.len() && pixel_index(done[k], w as int) >= 0 by {
                assert(done[k] == all[k]);
                assert(0 <= done[k].1 && 0 <= done[k].0);
                assert(done[k].1 * w >= 0) by (nonlinear_arith) requires done[k].1 >= 0, w >= 0;
            }
            lemma_paint_len(old(pixels)@, w as int, h as int, done);
            assert(all[done.len() as int] == (cx as int, cy as int));
        }
        if cx >= 0 && cy >= 0 && (cx as usize) < w && (cy as usize) < h {
            proof {
                assert(in_bounds(all[done.len() as int], w as int, h as int));
                assert(pixel_index(all[done.len() as int], w as int) < pixels@.len());
            }
            assert(((cy as int) * (w as int) + (cx as int)) < pixels@.len());
            assert((cy as int) * (w as int) >= 0) by (nonlinear_arith) requires cy >= 0, w >= 0;
            let plen = pixels.len();
            let cyu = cy as usize;
            let cxu = cx as usize;
            assert((cyu as int) * (w as int) + (cxu as int) < pixels@.len());
            assert((cyu as int) * (w as int) >= 0) by (nonlinear_arith) requires cyu >= 0, w >= 0;
            assert((cyu as int) * (w as int) + (cxu as int) < plen);
            let idx = cyu * w + cxu;
            pixels[idx] = true;
        }
        proof {
            let p = (cx as int, cy as int);
            assert(done.push(p).drop_last() == done);
            done = done.push(p);
        }
        if cx == x1 as i64 && cy == y1 as i64 {
            assert(rest == seq![(cx as int, cy as int)]);
            assert(all == done);
            break;
        }
        let e2 = 2 * err;
        if e2 >= dy {
            if cx == x1 as i64 {
                assert(all == done);
                break;
            }
            err = err + dy;
            cx = cx + sx;
        }
        if e2 <= dx {
            if cy == y1 as i64 {
                assert(all == done);
                break;
            }
            err = err + dx;
            cy = cy + sy;
        }
        assert(rest == seq![rest[0]] + walk(cx as int, cy as int, err as int, x1 as int, y1 as int, dx as int, dy as int));
        assert(all == done + walk(cx as int, cy as int, err as int, x1 as int, y1 as int, dx as int, dy as int));
    }
}

} // verus!
