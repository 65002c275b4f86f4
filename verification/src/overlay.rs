//! Braille lines drawn over the screen: a straight line between two
//! character cells, traced at braille-dot resolution (two dots across and
//! four down per cell) and returned as the cells it touches.
use vstd::prelude::*;
use crate::canvas::{any_dot, braille_value, dots_fn, dots_to_braille};
use crate::raster::iabs;
use std::collections::HashMap;

verus! {

broadcast use vstd::std_specs::hash::group_hash_axioms;

/// The points of Bresenham's walk from `(bx, by)` toward `(bx1, by1)`, with
/// error term `err`, extents `adx, ady >= 0` and step directions `sx, sy`:
/// a step along x when `2 * err > -ady` (the error drops by `ady`) and
/// along y when `2 * err < adx` (the error grows by `adx`), until the end
/// point; `fuel` bounds the number of steps, and a walk from the start of a
/// line never runs out of it (see `braille_line_cells`).
pub open spec fn bresenham(
    bx: int,
    by: int,
    err: int,
    bx1: int,
    by1: int,
    adx: int,
    ady: int,
    sx: int,
    sy: int,
    fuel: nat,
) -> Seq<(int, int)>
    decreases fuel,
{
    if (bx == bx1 && by == by1) || fuel == 0 {
        seq![(bx, by)]
    } else {
        let e2 = 2 * err;
        let bx2 = if e2 > -ady { bx + sx } else { bx };
        let err2 = if e2 > -ady { err - ady } else { err };
        let by2 = if e2 < adx { by + sy } else { by };
        let err3 = if e2 < adx { err2 + adx } else { err2 };
        seq![(bx, by)] + bresenham(bx2, by2, err3, bx1, by1, adx, ady, sx, sy, (fuel - 1) as nat)
    }
}

/// The dot that stands for cell `(x, y)`: its middle column's right dot and
/// its third dot row.
pub open spec fn anchor(x: int, y: int) -> (int, int) {
    (2 * x + 1, 4 * y + 2)
}

/// The dots of the line from cell `(x0, y0)` to cell `(x1, y1)`, in order.
pub open spec fn braille_line_points(x0: int, y0: int, x1: int, y1: int) -> Seq<(int, int)> {
    let a = anchor(x0, y0);
    let b = anchor(x1, y1);
    let adx = iabs(b.0 - a.0);
    let ady = iabs(b.1 - a.1);
    let sx = if a.0 < b.0 { 1int } else { -1int };
    let sy = if a.1 < b.1 { 1int } else { -1int };
    bresenham(a.0, a.1, adx - ady, b.0, b.1, adx, ady, sx, sy, (adx + ady) as nat)
}

/// Cell `(cx, cy)` lies on screen and holds a dot of `pts`.
pub open spec fn touches(pts: Seq<(int, int)>, cx: int, cy: int) -> bool {
    cx >= 0 && cy >= 0 && any_dot(|c: int, r: int| pts.contains((2 * cx + c, 4 * cy + r)))
}

/// The braille character of cell `(cx, cy)`: the dots of `pts` in it.
pub open spec fn line_cell_char(pts: Seq<(int, int)>, cx: int, cy: int) -> char {
    braille_value(|c: int, r: int| pts.contains((2 * cx + c, 4 * cy + r))) as char
}

proof fn lemma_walk_step(adx: int, ady: int, nx: int, ny: int, p: int, q: int, err: int)
    requires
        adx >= 0,
        ady >= 0,
        0 <= nx <= adx,
        0 <= ny <= ady,
        p == ady * nx,
        q == adx * ny,
        err == adx - ady + q - p,
        !(nx == adx && ny == ady),
    ensures
        nx == adx ==> !(2 * err > -ady),
        ny == ady ==> !(2 * err < adx),
        2 * err > -ady || 2 * err < adx,
{
    if nx == adx {
        assert(q <= adx * ady - adx) by (nonlinear_arith)
            requires
                q == adx * ny,
                ny <= ady - 1,
                adx >= 0,
        ;
        assert(p == adx * ady) by (nonlinear_arith)
            requires
                p == ady * nx,
                nx == adx,
        ;
    }
    if ny == ady {
        assert(p <= ady * adx - ady) by (nonlinear_arith)
            requires
                p == ady * nx,
                nx <= adx - 1,
                ady >= 0,
        ;
        assert(q == adx * ady) by (nonlinear_arith)
            requires
                q == adx * ny,
                ny == ady,
        ;
    }
}

proof fn lemma_contains_push(s: Seq<(int, int)>, p: (int, int), q: (int, int))
    ensures
        s.push(p).contains(q) == (s.contains(q) || q == p),
{
    if s.contains(q) {
        let k = choose|k: int| 0 <= k < s.len() && s[k] == q;
        assert(s.push(p)[k] == q);
    }
    if q == p {
        assert(s.push(p)[s.len() as int] == q);
    }
    if s.push(p).contains(q) {
        let k = choose|k: int| 0 <= k < s.push(p).len() && s.push(p)[k] == q;
        if k < s.len() {
            assert(s[k] == q);
        }
    }
}

/// The key under which the cell `c` (both coordinates in `0..2^31`) is
/// looked up: its column in the high 32 bits, its row in the low.
pub open spec fn cell_key(c: (i64, i64)) -> u64 {
    (c.0 * 0x1_0000_0000 + c.1) as u64
}

/// `index` maps the key of each cell in `keys` to its position there, and
/// holds no other key.
#[verifier::opaque]
pub open spec fn indexes(index: Map<u64, usize>, keys: Seq<(i64, i64)>) -> bool {
    &&& forall|k: int| 0 <= k < keys.len() ==> #[trigger] index.contains_key(cell_key(keys[k])) && index[cell_key(keys[k])] == k
    &&& forall|u: u64| #[trigger] index.contains_key(u) ==> index[u] < keys.len() && cell_key(keys[index[u] as int]) == u
}

/// Records dot `(bx, by)` in the cells touched so far.
fn record_dot(
    index: &mut HashMap<u64, usize>,
    keys: &mut Vec<(i64, i64)>,
    dots: &mut Vec<[[bool; 4]; 2]>,
    bx: i64,
    by: i64,
    Ghost(done): Ghost<Seq<(int, int)>>,
)
    requires
        bx >= 0,
        by >= 0,
        bx / 2 <= i32::MAX,
        by / 4 <= i32::MAX,
        forall|k: int|
            0 <= k < old(keys).len() ==> 0 <= #[trigger] old(keys)[k].0 <= i32::MAX && 0 <= old(keys)[k].1 <= i32::MAX,
        old(keys).len() == old(dots).len(),
        indexes(old(index)@, old(keys)@),
        forall|i: int, j: int| 0 <= i < j < old(keys).len() ==> old(keys)[i] != old(keys)[j],
        forall|k: int| 0 <= k < old(keys).len() ==> touches(done, #[trigger] old(keys)[k].0 as int, old(keys)[k].1 as int),
        forall|k: int, c: int, r: int|
            0 <= k < old(keys).len() && 0 <= c < 2 && 0 <= r < 4 ==> #[trigger] old(dots)[k][c][r] == done.contains(
                (2 * old(keys)[k].0 + c, 4 * old(keys)[k].1 + r),
            ),
        forall|cx: int, cy: int|
            touches(done, cx, cy) ==> exists|k: int| 0 <= k < old(keys).len() && #[trigger] old(keys)[k].0 == cx && old(keys)[k].1 == cy,
    ensures
        final(keys).len() == final(dots).len(),
        indexes(final(index)@, final(keys)@),
        forall|i: int, j: int| 0 <= i < j < final(keys).len() ==> final(keys)[i] != final(keys)[j],
        forall|k: int|
            0 <= k < final(keys).len() ==> touches(done.push((bx as int, by as int)), #[trigger] final(keys)[k].0 as int, final(keys)[k].1 as int),
        forall|k: int, c: int, r: int|
            0 <= k < final(keys).len() && 0 <= c < 2 && 0 <= r < 4 ==> #[trigger] final(dots)[k][c][r] == done.push(
                (bx as int, by as int),
            ).contains((2 * final(keys)[k].0 + c, 4 * final(keys)[k].1 + r)),
        forall|cx: int, cy: int|
            touches(done.push((bx as int, by as int)), cx, cy) ==> exists|k: int|
                0 <= k < final(keys).len() && #[trigger] final(keys)[k].0 == cx && final(keys)[k].1 == cy,
        forall|k: int|
            0 <= k < final(keys).len() ==> 0 <= #[trigger] final(keys)[k].0 <= i32::MAX && 0 <= final(keys)[k].1 <= i32::MAX,
{
    proof {
        reveal(indexes);
    }
    let ghost d2 = done.push((bx as int, by as int));
    let ghost p = (bx as int, by as int);
    let cx = bx / 2;
    let cy = by / 4;
    let dc = (bx % 2) as usize;
    let dr = (by % 4) as usize;
    assert(p == (2 * cx + dc, 4 * cy + dr));
    let key: u64 = (cx as u64) * 0x1_0000_0000 + (cy as u64);
    assert(key == cell_key((cx, cy)));
    let (found, k) = match index.get(&key) {
        Some(at) => (true, *at),
        None => (false, keys.len()),
    };
    proof {
        if found {
            assert(keys[k as int] == (cx, cy));
        } else {
            assert forall|j: int| 0 <= j < keys.len() implies keys[j] != (cx, cy) by {
                assert(index@.contains_key(cell_key(keys[j])));
            }
        }
    }
    proof {
        assert forall|q: (int, int)| #[trigger] d2.contains(q) == (done.contains(q) || q == p) by {
            lemma_contains_push(done, p, q);
        }
    }
    if found {
        let mut cell = dots[k];
        cell[dc][dr] = true;
        dots.set(k, cell);
        proof {
            assert forall|j: int, c: int, r: int|
                0 <= j < keys.len() && 0 <= c < 2 && 0 <= r < 4 implies #[trigger] dots[j][c][r] == d2.contains(
                    (2 * keys[j].0 + c, 4 * keys[j].1 + r),
                ) by {
                let q = (2 * keys[j].0 + c, 4 * keys[j].1 + r);
                if q == p {
                    assert(keys[j] == (cx, cy));
                    assert(j == k);
                }
            }
            assert forall|j: int| 0 <= j < keys.len() implies touches(d2, #[trigger] keys[j].0 as int, keys[j].1 as int) by {
                let f = |c: int, r: int| done.contains((2 * keys[j].0 + c, 4 * keys[j].1 + r));
                let g = |c: int, r: int| d2.contains((2 * keys[j].0 + c, 4 * keys[j].1 + r));
                assert(any_dot(f));
                assert(f(0, 0) ==> g(0, 0));
                assert(f(0, 1) ==> g(0, 1));
                assert(f(0, 2) ==> g(0, 2));
                assert(f(0, 3) ==> g(0, 3));
                assert(f(1, 0) ==> g(1, 0));
                assert(f(1, 1) ==> g(1, 1));
                assert(f(1, 2) ==> g(1, 2));
                assert(f(1, 3) ==> g(1, 3));
            }
            assert forall|x: int, y: int| touches(d2, x, y) implies exists|j: int|
                0 <= j < keys.len() && #[trigger] keys[j].0 == x && keys[j].1 == y by {
                lemma_touch_push(done, p, x, y, cx as int, cy as int, dc as int, dr as int);
                if !touches(done, x, y) {
                    assert(keys[k as int].0 == x && keys[k as int].1 == y);
                }
            }
        }
    } else {
        let mut cell = [[false; 4]; 2];
        cell[dc][dr] = true;
        let n_keys = keys.len();
        keys.push((cx, cy));
        dots.push(cell);
        index.insert(key, n_keys);
        proof {
            let n = old(keys).len() as int;
            assert forall|j: int| 0 <= j < keys.len() implies #[trigger] index@.contains_key(cell_key(keys[j]))
                && index@[cell_key(keys[j])] == j by {
                if j < n {
                    assert(keys[j] == old(keys)[j]);
                    assert(old(index)@.contains_key(cell_key(old(keys)[j])));
                }
            }
            assert forall|u: u64| #[trigger] index@.contains_key(u) implies index@[u] < keys.len() && cell_key(
                keys[index@[u] as int],
            ) == u by {
                if u != key {
                    assert(old(index)@.contains_key(u));
                }
            }
            assert forall|j: int, c: int, r: int|
                0 <= j < keys.len() && 0 <= c < 2 && 0 <= r < 4 implies #[trigger] dots[j][c][r] == d2.contains(
                    (2 * keys[j].0 + c, 4 * keys[j].1 + r),
                ) by {
                let q = (2 * keys[j].0 + c, 4 * keys[j].1 + r);
                if j < n {
                    assert(dots[j] == old(dots)[j]);
                    if q == p {
                        assert(old(keys)[j] == (cx, cy));
                    }
                } else {
                    assert(keys[j] == (cx, cy));
                    if !(c == dc && r == dr) {
                        assert(q != p);
                        if done.contains(q) {
                            assert(touches(done, cx as int, cy as int)) by {
                                assert(done.contains((2 * cx + c, 4 * cy + r)));
                                if c == 0 {
                                    if r == 0 {} else if r == 1 {} else if r == 2 {} else {}
                                } else {
                                    if r == 0 {} else if r == 1 {} else if r == 2 {} else {}
                                }
                            }
                            let w = choose|w: int| 0 <= w < old(keys).len() && #[trigger] old(keys)[w].0 == cx && old(keys)[w].1 == cy;
                            assert(old(keys)[w] == (cx, cy));
                            assert(false);
                        }
                    }
                }
            }
            assert forall|j: int| 0 <= j < keys.len() implies touches(d2, #[trigger] keys[j].0 as int, keys[j].1 as int) by {
                if j < n {
                    let f = |c: int, r: int| done.contains((2 * keys[j].0 + c, 4 * keys[j].1 + r));
                    let g = |c: int, r: int| d2.contains((2 * keys[j].0 + c, 4 * keys[j].1 + r));
                    assert(keys[j] == old(keys)[j]);
                    assert(any_dot(f));
                    assert(f(0, 0) ==> g(0, 0));
                    assert(f(0, 1) ==> g(0, 1));
                    assert(f(0, 2) ==> g(0, 2));
                    assert(f(0, 3) ==> g(0, 3));
                    assert(f(1, 0) ==> g(1, 0));
                    assert(f(1, 1) ==> g(1, 1));
                    assert(f(1, 2) ==> g(1, 2));
                    assert(f(1, 3) ==> g(1, 3));
                } else {
                    assert(keys[j] == (cx, cy));
                    assert(d2.contains((2 * cx + dc, 4 * cy + dr)));
                    if dc == 0 {
                        if dr == 0 {} else if dr == 1 {} else if dr == 2 {} else {}
                    } else {
                        if dr == 0 {} else if dr == 1 {} else if dr == 2 {} else {}
                    }
                }
            }
            assert forall|x: int, y: int| touches(d2, x, y) implies exists|j: int|
                0 <= j < keys.len() && #[trigger] keys[j].0 == x && keys[j].1 == y by {
                lemma_touch_push(done, p, x, y, cx as int, cy as int, dc as int, dr as int);
                if touches(done, x, y) {
                    let w = choose|w: int| 0 <= w < old(keys).len() && #[trigger] old(keys)[w].0 == x && old(keys)[w].1 == y;
                    assert(keys[w].0 == x && keys[w].1 == y);
                } else {
                    assert(keys[n].0 == x && keys[n].1 == y);
                }
            }
        }
    }
}

/// A cell that a longer run of dots touches is touched by the shorter run,
/// or holds the added dot.
proof fn lemma_touch_push(done: Seq<(int, int)>, p: (int, int), x: int, y: int, cx: int, cy: int, dc: int, dr: int)
    requires
        p == (2 * cx + dc, 4 * cy + dr),
        0 <= dc < 2,
        0 <= dr < 4,
        forall|q: (int, int)| #[trigger] done.push(p).contains(q) == (done.contains(q) || q == p),
        touches(done.push(p), x, y),
    ensures
        touches(done, x, y) || (x == cx && y == cy),
{
    let d2 = done.push(p);
    if !touches(done, x, y) {
        let f = |c: int, r: int| done.contains((2 * x + c, 4 * y + r));
        let g = |c: int, r: int| d2.contains((2 * x + c, 4 * y + r));
        assert(!any_dot(f));
        assert(any_dot(g));
        if g(0, 0) {
            assert((2 * x, 4 * y) == p);
        } else if g(0, 1) {
            assert((2 * x, 4 * y + 1) == p);
        } else if g(0, 2) {
            assert((2 * x, 4 * y + 2) == p);
        } else if g(0, 3) {
            assert((2 * x, 4 * y + 3) == p);
        } else if g(1, 0) {
            assert((2 * x + 1, 4 * y) == p);
        } else if g(1, 1) {
            assert((2 * x + 1, 4 * y + 1) == p);
        } else if g(1, 2) {
            assert((2 * x + 1, 4 * y + 2) == p);
        } else {
            assert((2 * x + 1, 4 * y + 3) == p);
        }
    }
}

/// The cells touched by the braille line from cell `(x0, y0)` to cell
/// `(x1, y1)` (anchored at each cell's dot `(2x + 1, 4y + 2)`), each once,
/// with the braille character of the line's dots in it; cells left of or
/// above the screen are left out. The line runs from the anchor dot of the
/// first cell to that of the last.
pub fn braille_line_cells(x0: i32, y0: i32, x1: i32, y1: i32) -> (r: Vec<(i32, i32, char)>)
    ensures
        braille_line_points(x0 as int, y0 as int, x1 as int, y1 as int).len() > 0,
        braille_line_points(x0 as int, y0 as int, x1 as int, y1 as int)[0] == anchor(x0 as int, y0 as int),
        braille_line_points(x0 as int, y0 as int, x1 as int, y1 as int).last() == anchor(x1 as int, y1 as int),
        forall|i: int, j: int| 0 <= i < j < r.len() ==> (r[i].0, r[i].1) != (r[j].0, r[j].1),
        forall|i: int|
            0 <= i < r.len() ==> touches(
                braille_line_points(x0 as int, y0 as int, x1 as int, y1 as int),
                #[trigger] r[i].0 as int,
                r[i].1 as int,
            ) && r[i].2 == line_cell_char(
                braille_line_points(x0 as int, y0 as int, x1 as int, y1 as int),
                r[i].0 as int,
                r[i].1 as int,
            ),
        forall|cx: int, cy: int|
            touches(braille_line_points(x0 as int, y0 as int, x1 as int, y1 as int), cx, cy) ==> exists|i: int|
                0 <= i < r.len() && #[trigger] r[i].0 == cx && r[i].1 == cy,
{
    let ghost all = braille_line_points(x0 as int, y0 as int, x1 as int, y1 as int);
    let bx0: i64 = 2 * (x0 as i64) + 1;
    let by0: i64 = 4 * (y0 as i64) + 2;
    let bx1: i64 = 2 * (x1 as i64) + 1;
    let by1: i64 = 4 * (y1 as i64) + 2;
    let adx: i64 = if bx1 >= bx0 { bx1 - bx0 } else { bx0 - bx1 };
    let ady: i64 = if by1 >= by0 { by1 - by0 } else { by0 - by1 };
    let sx: i64 = if bx0 < bx1 { 1 } else { -1 };
    let sy: i64 = if by0 < by1 { 1 } else { -1 };
    let mut err: i64 = adx - ady;
    let mut bx: i64 = bx0;
    let mut by: i64 = by0;
    let ghost mut fuel: nat = (adx + ady) as nat;
    let ghost mut nx: int = 0;
    let ghost mut ny: int = 0;
    let ghost mut pp: int = 0;
    let ghost mut qq: int = 0;
    let ghost mut done: Seq<(int, int)> = seq![];
    let mut index: HashMap<u64, usize> = HashMap::new();
    let mut keys: Vec<(i64, i64)> = Vec::new();
    let mut dots: Vec<[[bool; 4]; 2]> = Vec::new();
    assert(indexes(index@, keys@)) by {
        reveal(indexes);
    }
    assert(all == done + bresenham(bx as int, by as int, err as int, bx1 as int, by1 as int, adx as int, ady as int, sx as int, sy as int, fuel));
    loop
        invariant_except_break
            all == done + bresenham(bx as int, by as int, err as int, bx1 as int, by1 as int, adx as int, ady as int, sx as int, sy as int, fuel),
            0 <= nx <= adx,
            0 <= ny <= ady,
            sx == 1 ==> bx == bx0 + nx && adx == bx1 - bx0,
            sx == -1 ==> bx == bx0 - nx && adx == bx0 - bx1,
            sy == 1 ==> by == by0 + ny && ady == by1 - by0,
            sy == -1 ==> by == by0 - ny && ady == by0 - by1,
            pp == ady * nx,
            qq == adx * ny,
            err == adx - ady + qq - pp,
            fuel >= (adx - nx) + (ady - ny),
        invariant
            all == braille_line_points(x0 as int, y0 as int, x1 as int, y1 as int),
            bx0 == 2 * x0 + 1,
            by0 == 4 * y0 + 2,
            bx1 == 2 * x1 + 1,
            by1 == 4 * y1 + 2,
            adx == iabs(bx1 - bx0),
            ady == iabs(by1 - by0),
            sx == (if bx0 < bx1 { 1int } else { -1int }),
            sy == (if by0 < by1 { 1int } else { -1int }),
            -2 * adx - 2 * ady <= err <= 2 * adx + 2 * ady,
            keys.len() == dots.len(),
            indexes(index@, keys@),
            done.len() > 0 ==> done[0] == (bx0 as int, by0 as int),
            done.len() == 0 ==> bx == bx0 && by == by0,
            forall|i: int, j: int| 0 <= i < j < keys.len() ==> keys[i] != keys[j],
            forall|k: int| 0 <= k < keys.len() ==> touches(done, #[trigger] keys[k].0 as int, keys[k].1 as int),
            forall|k: int, c: int, w: int|
                0 <= k < keys.len() && 0 <= c < 2 && 0 <= w < 4 ==> #[trigger] dots[k][c][w] == done.contains(
                    (2 * keys[k].0 + c, 4 * keys[k].1 + w),
                ),
            forall|cx: int, cy: int|
                touches(done, cx, cy) ==> exists|k: int| 0 <= k < keys.len() && #[trigger] keys[k].0 == cx && keys[k].1 == cy,
            forall|k: int|
                0 <= k < keys.len() ==> 0 <= #[trigger] keys[k].0 <= i32::MAX && 0 <= keys[k].1 <= i32::MAX,
        ensures
            done == all,
            done.len() > 0 && done.last() == (bx1 as int, by1 as int) && done[0] == (bx0 as int, by0 as int),
        decreases fuel,
    {
        let ghost rest = bresenham(bx as int, by as int, err as int, bx1 as int, by1 as int, adx as int, ady as int, sx as int, sy as int, fuel);
        assert(rest[0] == (bx as int, by as int));
        let ghost p = (bx as int, by as int);
        if bx >= 0 && by >= 0 {
            assert(bx / 2 <= i32::MAX && by / 4 <= i32::MAX);
            record_dot(&mut index, &mut keys, &mut dots, bx, by, Ghost(done));
        } else {
            proof {
                assert forall|q: (int, int)| #[trigger] done.push(p).contains(q) == (done.contains(q) || q == p) by {
                    lemma_contains_push(done, p, q);
                }
                assert forall|cx: int, cy: int| touches(done.push(p), cx, cy) implies exists|k: int|
                    0 <= k < keys.len() && #[trigger] keys[k].0 == cx && keys[k].1 == cy by {
                    let f = |c: int, w: int| done.contains((2 * cx + c, 4 * cy + w));
                    let g = |c: int, w: int| done.push(p).contains((2 * cx + c, 4 * cy + w));
                    assert(f(0, 0) == g(0, 0) && f(0, 1) == g(0, 1) && f(0, 2) == g(0, 2) && f(0, 3) == g(0, 3));
                    assert(f(1, 0) == g(1, 0) && f(1, 1) == g(1, 1) && f(1, 2) == g(1, 2) && f(1, 3) == g(1, 3));
                    assert(touches(done, cx, cy));
                }
                assert forall|k: int| 0 <= k < keys.len() implies touches(done.push(p), #[trigger] keys[k].0 as int, keys[k].1 as int) by {
                    let f = |c: int, w: int| done.contains((2 * keys[k].0 + c, 4 * keys[k].1 + w));
                    let g = |c: int, w: int| done.push(p).contains((2 * keys[k].0 + c, 4 * keys[k].1 + w));
                    assert(f(0, 0) == g(0, 0) && f(0, 1) == g(0, 1) && f(0, 2) == g(0, 2) && f(0, 3) == g(0, 3));
                    assert(f(1, 0) == g(1, 0) && f(1, 1) == g(1, 1) && f(1, 2) == g(1, 2) && f(1, 3) == g(1, 3));
                }
            }
        }
        proof {
            done = done.push(p);
        }
        if bx == bx1 && by == by1 {
            assert(rest == seq![p]);
            assert(all == done);
            break;
        }
        proof {
            lemma_walk_step(adx as int, ady as int, nx, ny, pp, qq, err as int);
        }
        let e2 = 2 * err;
        if e2 > -ady {
            err = err - ady;
            bx = bx + sx;
            proof {
                assert(ady * (nx + 1) == ady * nx + ady) by (nonlinear_arith);
                nx = nx + 1;
                pp = pp + ady;
            }
        }
        if e2 < adx {
            err = err + adx;
            by = by + sy;
            proof {
                assert(adx * (ny + 1) == adx * ny + adx) by (nonlinear_arith);
                ny = ny + 1;
                qq = qq + adx;
            }
        }
        proof {
            fuel = (fuel - 1) as nat;
            assert(rest == seq![p] + bresenham(bx as int, by as int, err as int, bx1 as int, by1 as int, adx as int, ady as int, sx as int, sy as int, fuel));
        }
    }
    let mut r: Vec<(i32, i32, char)> = Vec::new();
    let mut k: usize = 0;
    while k < keys.len()
        invariant
            k <= keys.len(),
            keys.len() == dots.len(),
            done == all,
            r.len() == k,
            forall|i: int, j: int| 0 <= i < j < keys.len() ==> keys[i] != keys[j],
            forall|i: int| 0 <= i < keys.len() ==> touches(done, #[trigger] keys[i].0 as int, keys[i].1 as int),
            forall|i: int, c: int, w: int|
                0 <= i < keys.len() && 0 <= c < 2 && 0 <= w < 4 ==> #[trigger] dots[i][c][w] == done.contains(
                    (2 * keys[i].0 + c, 4 * keys[i].1 + w),
                ),
            forall|i: int|
                0 <= i < keys.len() ==> 0 <= #[trigger] keys[i].0 <= i32::MAX && 0 <= keys[i].1 <= i32::MAX,
            forall|i: int| 0 <= i < k ==> #[trigger] r[i].0 == keys[i].0 && r[i].1 == keys[i].1,
            forall|i: int| 0 <= i < k ==> #[trigger] r[i].2 == line_cell_char(all, r[i].0 as int, r[i].1 as int),
        decreases keys.len() - k,
    {
        let d = dots[k];
        let ch = dots_to_braille(d);
        proof {
            let f = dots_fn(d);
            let g = |c: int, w: int| all.contains((2 * keys[k as int].0 + c, 4 * keys[k as int].1 + w));
            assert(f(0, 0) == g(0, 0) && f(0, 1) == g(0, 1) && f(0, 2) == g(0, 2) && f(0, 3) == g(0, 3));
            assert(f(1, 0) == g(1, 0) && f(1, 1) == g(1, 1) && f(1, 2) == g(1, 2) && f(1, 3) == g(1, 3));
        }
        r.push((keys[k].0 as i32, keys[k].1 as i32, ch));
        k = k + 1;
    }
    proof {
        assert forall|cx: int, cy: int| touches(all, cx, cy) implies exists|i: int|
            0 <= i < r.len() && #[trigger] r[i].0 == cx && r[i].1 == cy by {
            let i = choose|i: int| 0 <= i < keys.len() && #[trigger] keys[i].0 == cx && keys[i].1 == cy;
            assert(r[i].0 == cx && r[i].1 == cy);
        }
    }
    r
}

} // verus!
