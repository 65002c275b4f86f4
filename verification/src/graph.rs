//! Braille sparkline graphs: a series of samples drawn as a polyline on a
//! pixel raster two pixels wide and four tall per character cell, then
//! encoded one braille character per cell.
//!
//! Samples arrive as raw pixel rows (row 0 at the top), one per sample;
//! the graph spreads the samples evenly across its width and clamps each
//! row to the raster.
use vstd::prelude::*;
use crate::raster::{draw_line_pixels, in_bounds, lemma_fits_raster, lemma_paint_concat, lemma_paint_len, line_points, paint, pixel_index};
use crate::canvas::{any_dot, braille_value, dots_fn, dots_to_braille, get_px, pixel_at};
use crate::text::{chars_of, push_char};
use vstd::string::StringSliceAdditionalSpecFns;

verus! {

/// The column of sample `i` of `n` on a graph `w` pixels wide: the samples
/// spread evenly from the left edge to the right edge; a lone sample sits in
/// the middle.
pub open spec fn sample_x(i: int, n: int, w: int) -> int {
    let x = if n > 1 { i * (w - 1) / (n - 1) } else { w / 2 };
    if x < w - 1 { x } else { w - 1 }
}

/// The row of a sample whose raw row is `y`, on a graph `h` pixels tall.
pub open spec fn sample_y(y: int, h: int) -> int {
    if y < h - 1 { y } else { h - 1 }
}

/// The pixel of sample `i`.
pub open spec fn sample_point(ys: Seq<usize>, i: int, w: int, h: int) -> (int, int) {
    (sample_x(i, ys.len() as int, w), sample_y(ys[i] as int, h))
}

/// The pixels that the first `k` samples draw, in order: each sample's own
/// pixel, then the straight line from it to the next sample.
pub open spec fn series_trace(ys: Seq<usize>, w: int, h: int, k: nat) -> Seq<(int, int)>
    decreases k,
{
    if k == 0 {
        seq![]
    } else {
        let i = k - 1;
        let p = sample_point(ys, i, w, h);
        let seg = if i + 1 < ys.len() {
            let q = sample_point(ys, i + 1, w, h);
            line_points(p.0, p.1, q.0, q.1)
        } else {
            seq![]
        };
        series_trace(ys, w, h, (k - 1) as nat) + seq![p] + seg
    }
}

/// The raster of a graph of `ys` on `width` by `height` cells.
pub open spec fn graph_pixels(ys: Seq<usize>, width: int, height: int) -> Seq<bool> {
    let w = 2 * width;
    let h = 4 * height;
    paint(Seq::new((w * h) as nat, |i: int| false), w, h, series_trace(ys, w, h, ys.len()))
}

/// The braille character of cell `(cx, cy)` of raster `s`.
pub open spec fn cell_char(s: Seq<bool>, w: int, h: int, cx: int, cy: int) -> char {
    braille_value(|c: int, r: int| pixel_at(s, w, h, 2 * cx + c, 4 * cy + r)) as char
}

/// The text of row `cy` of raster `s`, `width` cells long.
pub open spec fn row_text(s: Seq<bool>, w: int, h: int, width: int, cy: int) -> Seq<char> {
    Seq::new(width as nat, |cx: int| cell_char(s, w, h, cx, cy))
}

/// The column of sample `i` of `n`.
pub fn sample_column(i: usize, n: usize, w: usize) -> (r: usize)
    requires
        i < n,
        w >= 1,
        n * w <= usize::MAX,
    ensures
        r == sample_x(i as int, n as int, w as int),
        r < w,
{
    let x = if n > 1 {
        proof {
            assert(i * (w - 1) <= n * w) by (nonlinear_arith)
                requires
                    i < n,
                    w >= 1,
            ;
            assert(i * (w - 1) / (n - 1) >= 0) by (nonlinear_arith)
                requires
                    i >= 0,
                    w >= 1,
                    n > 1,
            ;
        }
        i * (w - 1) / (n - 1)
    } else {
        w / 2
    };
    if x < w - 1 {
        x
    } else {
        w - 1
    }
}

/// Draws the samples `ys` and the lines between them into `pixels`.
fn plot_series(pixels: &mut Vec<bool>, w: usize, h: usize, ys: &Vec<usize>)
    requires
        old(pixels)@.len() == w * h,
        1 <= w <= i32::MAX,
        1 <= h <= i32::MAX,
        ys.len() * w <= usize::MAX,
    ensures
        final(pixels)@ == paint(old(pixels)@, w as int, h as int, series_trace(ys@, w as int, h as int, ys.len() as nat)),
        final(pixels)@.len() == w * h,
{
    let n = ys.len();
    let mut i: usize = 0;
    while i < n
        invariant
            i <= n,
            n == ys.len(),
            1 <= w <= i32::MAX,
            1 <= h <= i32::MAX,
            n * w <= usize::MAX,
            pixels@.len() == w * h,
            pixels@ == paint(old(pixels)@, w as int, h as int, series_trace(ys@, w as int, h as int, i as nat)),
        decreases n - i,
    {
        let ghost before = pixels@;
        let ghost wi = w as int;
        let ghost hi = h as int;
        let x = sample_column(i, n, w);
        let y = if ys[i] < h - 1 { ys[i] } else { h - 1 };
        let ghost p = (x as int, y as int);
        assert(p == sample_point(ys@, i as int, wi, hi));
        let plen = pixels.len();
        proof {
            assert(0 <= y * w + x < w * h) by (nonlinear_arith)
                requires
                    x < w,
                    y < h,
            ;
        }
        pixels.set(y * w + x, true);
        proof {
            assert(seq![p].drop_last() =~= Seq::<(int, int)>::empty());
            assert(paint(before, wi, hi, Seq::<(int, int)>::empty()) == before);
            assert(in_bounds(p, wi, hi));
            assert(pixels@ == paint(before, wi, hi, seq![p]));
        }
        let ghost after_point = pixels@;
        let ghost seg: Seq<(int, int)> = seq![];
        if i + 1 < n {
            let x2 = sample_column(i + 1, n, w);
            let y2 = if ys[i + 1] < h - 1 { ys[i + 1] } else { h - 1 };
            proof {
                seg = line_points(x as int, y as int, x2 as int, y2 as int);
                lemma_fits_raster(seg, wi, hi);
            }
            draw_line_pixels(pixels, w, h, x as i32, y as i32, x2 as i32, y2 as i32);
            assert(sample_point(ys@, i + 1, wi, hi) == (x2 as int, y2 as int));
        }
        proof {
            let t = series_trace(ys@, wi, hi, i as nat);
            assert(series_trace(ys@, wi, hi, (i + 1) as nat) == t + seq![p] + seg);
            lemma_paint_concat(old(pixels)@, wi, hi, t, seq![p]);
            lemma_paint_concat(old(pixels)@, wi, hi, t + seq![p], seg);
            lemma_fits_raster(seg, wi, hi);
            lemma_paint_len(after_point, wi, hi, seg);
        }
        i = i + 1;
    }
}

/// The dots of cell `(cx, cy)` of a `w` by `h` raster.
fn cell_dots(pixels: &Vec<bool>, w: usize, h: usize, cx: usize, cy: usize) -> (r: [[bool; 4]; 2])
    requires
        pixels@.len() == w * h,
        2 * cx + 1 <= usize::MAX,
        4 * cy + 3 <= usize::MAX,
    ensures
        forall|c: int, k: int|
            0 <= c < 2 && 0 <= k < 4 ==> #[trigger] r[c][k] == pixel_at(pixels@, w as int, h as int, 2 * cx + c, 4 * cy + k),
{
    let x = 2 * cx;
    let y = 4 * cy;
    let r = [
        [get_px(pixels, w, h, x, y), get_px(pixels, w, h, x, y + 1), get_px(pixels, w, h, x, y + 2), get_px(pixels, w, h, x, y + 3)],
        [get_px(pixels, w, h, x + 1, y), get_px(pixels, w, h, x + 1, y + 1), get_px(pixels, w, h, x + 1, y + 2), get_px(pixels, w, h, x + 1, y + 3)],
    ];
    assert forall|c: int, k: int|
        0 <= c < 2 && 0 <= k < 4 implies #[trigger] r[c][k] == pixel_at(pixels@, w as int, h as int, 2 * cx + c, 4 * cy + k) by {
        if c == 0 {
            if k == 0 {} else if k == 1 {} else if k == 2 {} else {}
        } else {
            if k == 0 {} else if k == 1 {} else if k == 2 {} else {}
        }
    }
    r
}

/// The braille character of cell `(cx, cy)`.
fn raster_cell_char(pixels: &Vec<bool>, w: usize, h: usize, cx: usize, cy: usize) -> (r: char)
    requires
        pixels@.len() == w * h,
        2 * cx + 1 <= usize::MAX,
        4 * cy + 3 <= usize::MAX,
    ensures
        r == cell_char(pixels@, w as int, h as int, cx as int, cy as int),
{
    let dots = cell_dots(pixels, w, h, cx, cy);
    let ch = dots_to_braille(dots);
    let ghost f = dots_fn(dots);
    let ghost g = |c: int, k: int| pixel_at(pixels@, w as int, h as int, 2 * cx + c, 4 * cy + k);
    assert(f(0, 0) == g(0, 0) && f(0, 1) == g(0, 1) && f(0, 2) == g(0, 2) && f(0, 3) == g(0, 3));
    assert(f(1, 0) == g(1, 0) && f(1, 1) == g(1, 1) && f(1, 2) == g(1, 2) && f(1, 3) == g(1, 3));
    ch
}

/// Encodes a raster of `width` by `height` cells, one string per row of
/// cells.
fn encode_rows(pixels: &Vec<bool>, w: usize, h: usize, width: usize, height: usize) -> (r: Vec<String>)
    requires
        pixels@.len() == w * h,
        w == 2 * width,
        h == 4 * height,
    ensures
        r.len() == height,
        forall|cy: int| 0 <= cy < height ==> #[trigger] r[cy]@ == row_text(pixels@, w as int, h as int, width as int, cy),
{
    let mut rows: Vec<String> = Vec::new();
    let mut cy: usize = 0;
    while cy < height
        invariant
            cy <= height,
            rows.len() == cy,
            pixels@.len() == w * h,
            w == 2 * width,
            h == 4 * height,
            forall|j: int| 0 <= j < cy ==> #[trigger] rows[j]@ == row_text(pixels@, w as int, h as int, width as int, j),
        decreases height - cy,
    {
        let mut s = String::new();
        let mut cx: usize = 0;
        while cx < width
            invariant
                cx <= width,
                cy < height,
                pixels@.len() == w * h,
                w == 2 * width,
                h == 4 * height,
                s@ =~= row_text(pixels@, w as int, h as int, width as int, cy as int).take(cx as int),
            decreases width - cx,
        {
            let ch = raster_cell_char(pixels, w, h, cx, cy);
            push_char(&mut s, ch);
            cx = cx + 1;
        }
        rows.push(s);
        cy = cy + 1;
    }
    rows
}

/// The rows of a braille sparkline of the samples `ys` on `width` by
/// `height` character cells: empty rows when there are no samples or no
/// cells.
pub fn braille_graph(ys: &Vec<usize>, width: usize, height: usize) -> (r: Vec<String>)
    requires
        2 * width <= i32::MAX,
        4 * height <= i32::MAX,
        (2 * width) * (4 * height) <= usize::MAX,
        ys.len() * (2 * width) <= usize::MAX,
    ensures
        r.len() == height,
        ys.len() == 0 || width == 0 || height == 0 ==> forall|cy: int| 0 <= cy < height ==> #[trigger] r[cy]@ == Seq::<char>::empty(),
        !(ys.len() == 0 || width == 0 || height == 0) ==> forall|cy: int|
            0 <= cy < height ==> #[trigger] r[cy]@ == row_text(
                graph_pixels(ys@, width as int, height as int),
                2 * width,
                4 * height,
                width as int,
                cy,
            ),
{
    let w = width * 2;
    let h = height * 4;
    if ys.len() == 0 || w == 0 || h == 0 {
        let mut rows: Vec<String> = Vec::new();
        let mut k: usize = 0;
        while k < height
            invariant
                k <= height,
                rows.len() == k,
                forall|cy: int| 0 <= cy < k ==> #[trigger] rows[cy]@ == Seq::<char>::empty(),
            decreases height - k,
        {
            rows.push(String::new());
            k = k + 1;
        }
        return rows;
    }
    let mut pixels: Vec<bool> = vec![false; w * h];
    assert(pixels@ =~= Seq::new((w * h) as nat, |i: int| false));
    plot_series(&mut pixels, w, h, ys);
    encode_rows(&pixels, w, h, width, height)
}

// ----------------------------------------------------------- Bz graph

/// The colour class of a cell of the Bz graph.
#[derive(Debug, Clone, Copy, PartialEq, Eq, Structural)]
pub enum BzTone {
    /// The cell holds data above the zero line only (northward Bz).
    Positive,
    /// The cell holds data below the zero line only (southward Bz).
    Negative,
    /// The cell holds no data off the zero line.
    Axis,
}

/// The dotted zero line: every third pixel of row `zero_py`, when that row
/// lies within the raster.
pub open spec fn zero_dot(w: int, h: int, zero_py: int, x: int, y: int) -> bool {
    zero_py < h && y == zero_py && 0 <= x < w && x % 3 == 0
}

/// The character and colour class of cell `(cx, cy)` of the Bz graph whose
/// data raster is `s`: the dots are the data and the zero line; the cell is
/// `Negative` when it holds data below the zero line and none above,
/// `Positive` when it holds data above the zero line, `Axis` otherwise.
pub open spec fn bz_cell(s: Seq<bool>, w: int, h: int, zero_py: int, cx: int, cy: int) -> (char, BzTone) {
    let ch = braille_value(
        |c: int, r: int|
            pixel_at(s, w, h, 2 * cx + c, 4 * cy + r) || zero_dot(w, h, zero_py, 2 * cx + c, 4 * cy + r),
    ) as char;
    let pos = any_dot(|c: int, r: int| pixel_at(s, w, h, 2 * cx + c, 4 * cy + r) && 4 * cy + r < zero_py);
    let neg = any_dot(|c: int, r: int| pixel_at(s, w, h, 2 * cx + c, 4 * cy + r) && 4 * cy + r > zero_py);
    let tone = if neg && !pos {
        BzTone::Negative
    } else if pos {
        BzTone::Positive
    } else {
        BzTone::Axis
    };
    (ch, tone)
}

/// One pixel of the Bz graph: whether it is a dot, and whether it is data
/// above or below the zero line.
fn bz_pixel(data: &Vec<bool>, w: usize, h: usize, zero_py: usize, x: usize, y: usize) -> (r: (bool, bool, bool))
    requires
        data@.len() == w * h,
    ensures
        r.0 == (pixel_at(data@, w as int, h as int, x as int, y as int) || zero_dot(w as int, h as int, zero_py as int, x as int, y as int)),
        r.1 == (pixel_at(data@, w as int, h as int, x as int, y as int) && y < zero_py),
        r.2 == (pixel_at(data@, w as int, h as int, x as int, y as int) && y > zero_py),
{
    let d = get_px(data, w, h, x, y);
    let z = zero_py < h && y == zero_py && x < w && x % 3 == 0;
    (d || z, d && y < zero_py, d && y > zero_py)
}

fn bz_cell_at(data: &Vec<bool>, w: usize, h: usize, zero_py: usize, cx: usize, cy: usize) -> (r: (char, BzTone))
    requires
        data@.len() == w * h,
        2 * cx + 1 <= usize::MAX,
        4 * cy + 3 <= usize::MAX,
    ensures
        r == bz_cell(data@, w as int, h as int, zero_py as int, cx as int, cy as int),
{
    let x = 2 * cx;
    let y = 4 * cy;
    let p00 = bz_pixel(data, w, h, zero_py, x, y);
    let p01 = bz_pixel(data, w, h, zero_py, x, y + 1);
    let p02 = bz_pixel(data, w, h, zero_py, x, y + 2);
    let p03 = bz_pixel(data, w, h, zero_py, x, y + 3);
    let p10 = bz_pixel(data, w, h, zero_py, x + 1, y);
    let p11 = bz_pixel(data, w, h, zero_py, x + 1, y + 1);
    let p12 = bz_pixel(data, w, h, zero_py, x + 1, y + 2);
    let p13 = bz_pixel(data, w, h, zero_py, x + 1, y + 3);
    let dots = [[p00.0, p01.0, p02.0, p03.0], [p10.0, p11.0, p12.0, p13.0]];
    let pos = p00.1 || p01.1 || p02.1 || p03.1 || p10.1 || p11.1 || p12.1 || p13.1;
    let neg = p00.2 || p01.2 || p02.2 || p03.2 || p10.2 || p11.2 || p12.2 || p13.2;
    let ch = dots_to_braille(dots);
    let ghost s = data@;
    let ghost (wi, hi, zi) = (w as int, h as int, zero_py as int);
    let ghost f = dots_fn(dots);
    let ghost g = |c: int, k: int|
        pixel_at(s, wi, hi, 2 * cx + c, 4 * cy + k) || zero_dot(wi, hi, zi, 2 * cx + c, 4 * cy + k);
    assert(f(0, 0) == g(0, 0) && f(0, 1) == g(0, 1) && f(0, 2) == g(0, 2) && f(0, 3) == g(0, 3));
    assert(f(1, 0) == g(1, 0) && f(1, 1) == g(1, 1) && f(1, 2) == g(1, 2) && f(1, 3) == g(1, 3));
    let ghost fp = |c: int, k: int| pixel_at(s, wi, hi, 2 * cx + c, 4 * cy + k) && 4 * cy + k < zi;
    let ghost fneg = |c: int, k: int| pixel_at(s, wi, hi, 2 * cx + c, 4 * cy + k) && 4 * cy + k > zi;
    assert(pos == any_dot(fp));
    assert(neg == any_dot(fneg));
    let tone = if neg && !pos {
        BzTone::Negative
    } else if pos {
        BzTone::Positive
    } else {
        BzTone::Axis
    };
    (ch, tone)
}

/// The cells of a Bz graph of the samples `ys` on `width` by `height`
/// character cells, with the zero line on pixel row `zero_py`: empty rows
/// when there are no samples or no cells.
pub fn bz_graph(ys: &Vec<usize>, zero_py: usize, width: usize, height: usize) -> (r: Vec<Vec<(char, BzTone)>>)
    requires
        2 * width <= i32::MAX,
        4 * height <= i32::MAX,
        (2 * width) * (4 * height) <= usize::MAX,
        ys.len() * (2 * width) <= usize::MAX,
    ensures
        r.len() == height,
        ys.len() == 0 || width == 0 || height == 0 ==> forall|cy: int| 0 <= cy < height ==> #[trigger] r[cy]@.len() == 0,
        !(ys.len() == 0 || width == 0 || height == 0) ==> forall|cy: int, cx: int|
            0 <= cy < height && 0 <= cx < width ==> #[trigger] r[cy]@[cx] == bz_cell(
                graph_pixels(ys@, width as int, height as int),
                2 * width,
                4 * height,
                zero_py as int,
                cx,
                cy,
            ),
        !(ys.len() == 0 || width == 0 || height == 0) ==> forall|cy: int| 0 <= cy < height ==> #[trigger] r[cy]@.len() == width,
{
    let w = width * 2;
    let h = height * 4;
    let mut rows: Vec<Vec<(char, BzTone)>> = Vec::new();
    if ys.len() == 0 || w == 0 || h == 0 {
        let mut k: usize = 0;
        while k < height
            invariant
                k <= height,
                rows.len() == k,
                forall|cy: int| 0 <= cy < k ==> #[trigger] rows[cy]@.len() == 0,
            decreases height - k,
        {
            rows.push(Vec::new());
            k = k + 1;
        }
        return rows;
    }
    let mut data: Vec<bool> = vec![false; w * h];
    assert(data@ =~= Seq::new((w * h) as nat, |i: int| false));
    plot_series(&mut data, w, h, ys);
    let ghost s = data@;
    let mut cy: usize = 0;
    while cy < height
        invariant
            cy <= height,
            rows.len() == cy,
            data@ == s,
            s.len() == w * h,
            w == 2 * width,
            h == 4 * height,
            forall|j: int| 0 <= j < cy ==> #[trigger] rows[j]@.len() == width,
            forall|j: int, cx: int|
                0 <= j < cy && 0 <= cx < width ==> #[trigger] rows[j]@[cx] == bz_cell(s, w as int, h as int, zero_py as int, cx, j),
        decreases height - cy,
    {
        let mut row: Vec<(char, BzTone)> = Vec::new();
        let mut cx: usize = 0;
        while cx < width
            invariant
                cx <= width,
                cy < height,
                row.len() == cx,
                data@ == s,
                s.len() == w * h,
                w == 2 * width,
                h == 4 * height,
                forall|k: int| 0 <= k < cx ==> #[trigger] row@[k] == bz_cell(s, w as int, h as int, zero_py as int, k, cy as int),
            decreases width - cx,
        {
            let cell = bz_cell_at(&data, w, h, zero_py, cx, cy);
            row.push(cell);
            cx = cx + 1;
        }
        rows.push(row);
        cy = cy + 1;
    }
    rows
}

// ------------------------------------------------------------ time axis

/// The cell of tick `i` (0 to 6, one per hour from -6 h to now) on a time
/// axis `gw` cells wide: `i / 6` of the way from the first cell to the
/// last, rounded to the nearest cell, halves rounding up.
pub open spec fn tick_pos(gw: int, i: int) -> int {
    let last = if gw >= 1 { gw - 1 } else { 0 };
    (2 * last * i + 6) / 12
}

/// Whether cell `p` carries one of the seven ticks.
pub open spec fn is_tick(gw: int, p: int) -> bool {
    exists|i: int| 0 <= i <= 6 && #[trigger] tick_pos(gw, i) == p
}

/// Whether cell `p` carries one of the three prominent ticks (-6 h, -3 h,
/// now).
pub open spec fn is_major_tick(gw: int, p: int) -> bool {
    p == tick_pos(gw, 0) || p == tick_pos(gw, 3) || p == tick_pos(gw, 6)
}

/// The axis line under a graph `gw` cells wide: '┼' at the prominent
/// ticks, '┬' at the others, '─' elsewhere.
pub open spec fn axis_text(gw: int) -> Seq<char> {
    Seq::new(
        gw as nat,
        |p: int|
            if is_major_tick(gw, p) {
                '\u{253C}'
            } else if is_tick(gw, p) {
                '\u{252C}'
            } else {
                '\u{2500}'
            },
    )
}

fn tick_at(gw: usize, i: usize) -> (r: usize)
    requires
        i <= 6,
    ensures
        r == tick_pos(gw as int, i as int),
        gw >= 1 ==> r < gw,
        gw == 0 ==> r == 0,
{
    let last: u128 = if gw >= 1 { (gw - 1) as u128 } else { 0 };
    proof {
        assert(last <= 0xFFFF_FFFF_FFFF_FFFF);
        assert(2 * last * i <= 12 * last) by (nonlinear_arith)
            requires
                i <= 6,
        ;
        assert((2 * last * i + 6) / 12 <= last) by (nonlinear_arith)
            requires
                2 * last * i <= 12 * last,
        ;
    }
    let v: u128 = (2 * last * (i as u128) + 6) / 12;
    v as usize
}

/// The axis line under a graph `gw` cells wide.
pub fn graph_axis(gw: usize) -> (r: Vec<char>)
    ensures
        r@ == axis_text(gw as int),
{
    let mut ticks: [usize; 7] = [0; 7];
    let mut i: usize = 0;
    while i < 7
        invariant
            i <= 7,
            forall|k: int| 0 <= k < i ==> #[trigger] ticks[k] == tick_pos(gw as int, k),
        decreases 7 - i,
    {
        ticks[i] = tick_at(gw, i);
        i = i + 1;
    }
    let mut r: Vec<char> = Vec::new();
    let mut p: usize = 0;
    while p < gw
        invariant
            p <= gw,
            forall|k: int| 0 <= k < 7 ==> #[trigger] ticks[k] == tick_pos(gw as int, k),
            r@ =~= axis_text(gw as int).take(p as int),
        decreases gw - p,
    {
        let major = p == ticks[0] || p == ticks[3] || p == ticks[6];
        let mut minor = false;
        let mut k: usize = 0;
        while k < 7
            invariant
                k <= 7,
                forall|j: int| 0 <= j < 7 ==> #[trigger] ticks[j] == tick_pos(gw as int, j),
                minor == exists|j: int| 0 <= j < k && #[trigger] tick_pos(gw as int, j) == p,
            decreases 7 - k,
        {
            if ticks[k] == p {
                minor = true;
            }
            k = k + 1;
        }
        assert(minor == is_tick(gw as int, p as int));
        let c = if major {
            '\u{253C}'
        } else if minor {
            '\u{252C}'
        } else {
            '\u{2500}'
        };
        r.push(c);
        p = p + 1;
    }
    r
}

/// Where a label of `blen` bytes starts on a line `gw` cells wide: centred
/// on `tick` (half its length to the left), moved left to end at the right
/// edge when it would run past it, and never before the first cell.
pub open spec fn label_start(gw: int, tick: int, blen: int) -> int {
    let s = if tick >= blen / 2 { tick - blen / 2 } else { 0 };
    if s + blen > gw {
        if gw >= blen { gw - blen } else { 0 }
    } else {
        s
    }
}

/// `line` with `text` written from cell `start` on, as far as the line
/// reaches.
pub open spec fn place_label(line: Seq<char>, start: int, text: Seq<char>) -> Seq<char> {
    Seq::new(line.len(), |p: int| if start <= p < start + text.len() { text[p - start] } else { line[p] })
}

/// The time labels under a graph `gw` cells wide: the start label under the
/// -6 h tick, the middle label under the -3 h tick when the graph is at
/// least 12 cells wide, and the end label under the "now" tick, each placed
/// by `label_start` from its length in bytes and written over the labels
/// before it; blank elsewhere.
pub open spec fn time_labels_text(gw: int, first: &str, mid: &str, end: &str) -> Seq<char> {
    let blank = Seq::new(gw as nat, |p: int| ' ');
    let l1 = place_label(blank, label_start(gw, tick_pos(gw, 0), first.spec_bytes().len() as int), first@);
    let l2 = if gw >= 12 {
        place_label(l1, label_start(gw, tick_pos(gw, 3), mid.spec_bytes().len() as int), mid@)
    } else {
        l1
    };
    place_label(l2, label_start(gw, tick_pos(gw, 6), end.spec_bytes().len() as int), end@)
}

fn write_label(line: &mut Vec<char>, gw: usize, tick: usize, text: &str)
    requires
        old(line)@.len() == gw,
        tick < gw || tick == 0,
    ensures
        final(line)@ == place_label(old(line)@, label_start(gw as int, tick as int, text.spec_bytes().len() as int), text@),
{
    let blen = text.as_bytes().len();
    let half = blen / 2;
    let s0 = if tick >= half { tick - half } else { 0 };
    let start = if blen > gw - s0 {
        if gw >= blen { gw - blen } else { 0 }
    } else {
        s0
    };
    assert(start == label_start(gw as int, tick as int, blen as int));
    let cs = chars_of(text);
    let ghost orig = line@;
    let mut j: usize = 0;
    while j < cs.len()
        invariant
            j <= cs.len(),
            cs@ == text@,
            start <= gw,
            line@.len() == gw,
            forall|p: int|
                0 <= p < gw ==> #[trigger] line@[p] == (if start <= p < start + j { cs@[p - start] } else { orig[p] }),
        decreases cs.len() - j,
    {
        if j < gw - start {
            line.set(start + j, cs[j]);
        }
        j = j + 1;
    }
    assert(line@ =~= place_label(orig, start as int, text@));
}

/// The time labels under a graph `gw` cells wide.
pub fn graph_time_labels(gw: usize, first: &str, mid: &str, end: &str) -> (r: Vec<char>)
    ensures
        r@ == time_labels_text(gw as int, first, mid, end),
{
    let mut line: Vec<char> = Vec::new();
    let mut p: usize = 0;
    while p < gw
        invariant
            p <= gw,
            line@ =~= Seq::new(p as nat, |q: int| ' '),
        decreases gw - p,
    {
        line.push(' ');
        p = p + 1;
    }
    write_label(&mut line, gw, tick_at(gw, 0), first);
    if gw >= 12 {
        write_label(&mut line, gw, tick_at(gw, 3), mid);
    }
    write_label(&mut line, gw, tick_at(gw, 6), end);
    line
}

/// The size in cells of the graph inside a panel whose inner area is
/// `inner_w` by `inner_h`: a 4-cell label column and a 1-cell axis take the
/// width, and the value row, the axis row and the time label row the
/// height; no graph when the inner area is under 8 by 2 or the graph would
/// be under 2 by 1.
pub fn graph_area(inner_w: u16, inner_h: u16) -> (r: Option<(usize, usize)>)
    ensures
        r == (if inner_w < 8 || inner_h < 4 {
            None
        } else {
            Some(((inner_w - 5) as usize, (inner_h - 3) as usize))
        }),
{
    if inner_h < 2 || inner_w < 8 {
        return None;
    }
    let gw: usize = if inner_w >= 5 { (inner_w - 5) as usize } else { 0 };
    let gh: usize = if inner_h >= 3 { (inner_h - 3) as usize } else { 0 };
    if gw < 2 || gh < 1 {
        return None;
    }
    Some((gw, gh))
}

} // verus!
