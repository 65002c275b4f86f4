//! Braille map canvas: pixel layers, 2x4 dot cells, line drawing and the
//! land fill of the world map.
use vstd::prelude::*;
use std::collections::VecDeque;
use crate::raster::{draw_line_pixels, in_bounds, indices_fit, lemma_paint_len, line_points, paint, pixel_index};

verus! {

/// The character with code point `v` (`char::from_u32`), when `v` is a
/// Unicode scalar value.
#[verifier::external_body]
fn char_from_u32(v: u32) -> (r: Option<char>)
    ensures
        (v <= 0xD7FF || (0xE000 <= v && v <= 0x10FFFF)) ==> r == Some(v as char),
        !(v <= 0xD7FF || (0xE000 <= v && v <= 0x10FFFF)) ==> r is None,
{
    char::from_u32(v)
}

pub open spec fn bit(b: bool, weight: int) -> int {
    if b { weight } else { 0 }
}

/// The code point of the braille character whose dots are `dot(column,
/// row)` for columns 0-1 and rows 0-3: U+2800 plus one bit per raised dot
/// (left column rows 0-3: 0x01, 0x02, 0x04, 0x40; right column: 0x08, 0x10,
/// 0x20, 0x80).
pub open spec fn braille_value(dot: spec_fn(int, int) -> bool) -> int {
    0x2800 + bit(dot(0, 0), 0x01) + bit(dot(0, 1), 0x02) + bit(dot(0, 2), 0x04) + bit(dot(0, 3), 0x40)
        + bit(dot(1, 0), 0x08) + bit(dot(1, 1), 0x10) + bit(dot(1, 2), 0x20) + bit(dot(1, 3), 0x80)
}

/// Whether `f` holds of some dot of a cell (columns 0-1, rows 0-3).
pub open spec fn any_dot(f: spec_fn(int, int) -> bool) -> bool {
    f(0, 0) || f(0, 1) || f(0, 2) || f(0, 3) || f(1, 0) || f(1, 1) || f(1, 2) || f(1, 3)
}

pub open spec fn dots_fn(dots: [[bool; 4]; 2]) -> spec_fn(int, int) -> bool {
    |c: int, r: int| dots[c][r]
}

fn braille_from_bits(b: [bool; 8]) -> (r: char)
    ensures
        r == braille_value(|c: int, w: int| b[c * 4 + w]) as char,
{
    let mut code: u32 = 0x2800;
    if b[0] {
        code = code + 0x01;
    }
    if b[1] {
        code = code + 0x02;
    }
    if b[2] {
        code = code + 0x04;
    }
    if b[3] {
        code = code + 0x40;
    }
    if b[4] {
        code = code + 0x08;
    }
    if b[5] {
        code = code + 0x10;
    }
    if b[6] {
        code = code + 0x20;
    }
    if b[7] {
        code = code + 0x80;
    }
    let ghost f = |c: int, w: int| b[c * 4 + w];
    assert(f(0, 0) == b[0] && f(0, 1) == b[1] && f(0, 2) == b[2] && f(0, 3) == b[3]);
    assert(f(1, 0) == b[4] && f(1, 1) == b[5] && f(1, 2) == b[6] && f(1, 3) == b[7]);
    match char_from_u32(code) {
        Some(c) => c,
        None => ' ',
    }
}

/// Encodes a 2x4 dot pattern (`dots[column][row]`) as a braille character.
pub fn dots_to_braille(dots: [[bool; 4]; 2]) -> (r: char)
    ensures
        r == braille_value(dots_fn(dots)) as char,
{
    let b = [
        dots[0][0],
        dots[0][1],
        dots[0][2],
        dots[0][3],
        dots[1][0],
        dots[1][1],
        dots[1][2],
        dots[1][3],
    ];
    let r = braille_from_bits(b);
    let ghost f = dots_fn(dots);
    let ghost g = |c: int, w: int| b[c * 4 + w];
    assert(f(0, 0) == g(0, 0) && f(0, 1) == g(0, 1) && f(0, 2) == g(0, 2) && f(0, 3) == g(0, 3));
    assert(f(1, 0) == g(1, 0) && f(1, 1) == g(1, 1) && f(1, 2) == g(1, 2) && f(1, 3) == g(1, 3));
    r
}

/// Different dot patterns give different braille characters, all within
/// U+2800..U+28FF.
pub proof fn law_braille_is_injective(a: spec_fn(int, int) -> bool, b: spec_fn(int, int) -> bool)
    ensures
        0x2800 <= braille_value(a) <= 0x28FF,
        braille_value(a) == braille_value(b) ==> (forall|c: int, r: int|
            0 <= c < 2 && 0 <= r < 4 ==> #[trigger] a(c, r) == b(c, r)),
{
    assert(braille_value(a) == braille_value(b) ==> (forall|c: int, r: int|
        0 <= c < 2 && 0 <= r < 4 ==> #[trigger] a(c, r) == b(c, r))) by {
        if braille_value(a) == braille_value(b) {
            assert forall|c: int, r: int| 0 <= c < 2 && 0 <= r < 4 implies #[trigger] a(c, r) == b(c, r) by {
                lemma_bits_distinct(
                    a(0, 0), a(0, 1), a(0, 2), a(0, 3), a(1, 0), a(1, 1), a(1, 2), a(1, 3),
                    b(0, 0), b(0, 1), b(0, 2), b(0, 3), b(1, 0), b(1, 1), b(1, 2), b(1, 3),
                );
            }
        }
    }
}

proof fn lemma_bits_distinct(
    a0: bool, a1: bool, a2: bool, a3: bool, a4: bool, a5: bool, a6: bool, a7: bool,
    b0: bool, b1: bool, b2: bool, b3: bool, b4: bool, b5: bool, b6: bool, b7: bool,
)
    requires
        bit(a0, 1) + bit(a1, 2) + bit(a2, 4) + bit(a3, 0x40) + bit(a4, 8) + bit(a5, 0x10) + bit(a6, 0x20)
            + bit(a7, 0x80) == bit(b0, 1) + bit(b1, 2) + bit(b2, 4) + bit(b3, 0x40) + bit(b4, 8) + bit(
            b5,
            0x10,
        ) + bit(b6, 0x20) + bit(b7, 0x80),
    ensures
        a0 == b0 && a1 == b1 && a2 == b2 && a3 == b3 && a4 == b4 && a5 == b5 && a6 == b6 && a7 == b7,
{
}

/// A layer of the map canvas.
#[derive(Debug, Clone, Copy, PartialEq, Eq, Structural)]
pub enum Layer {
    Coast,
    Grid,
    Aurora,
    AuroraFill,
    Border,
    Terminator,
    LandFill,
}

/// `s` with pixel `(x, y)` set, when it lies within the raster.
pub open spec fn set_pixel(s: Seq<bool>, w: int, h: int, x: int, y: int) -> Seq<bool> {
    if in_bounds((x, y), w, h) { s.update(pixel_index((x, y), w), true) } else { s }
}

/// Pixel `(x, y)` of `s`: unset outside the raster.
pub open spec fn pixel_at(s: Seq<bool>, w: int, h: int, x: int, y: int) -> bool {
    in_bounds((x, y), w, h) && s[pixel_index((x, y), w)]
}

/// Distinct pixels of a raster have distinct indices, within its size.
pub proof fn lemma_pixel_index(w: int, h: int, x: int, y: int, x2: int, y2: int)
    requires
        in_bounds((x, y), w, h),
        in_bounds((x2, y2), w, h),
    ensures
        0 <= pixel_index((x, y), w) < w * h,
        (x, y) != (x2, y2) ==> pixel_index((x, y), w) != pixel_index((x2, y2), w),
{
    assert(0 <= y * w + x < w * h) by (nonlinear_arith)
        requires
            0 <= x < w,
            0 <= y < h,
    ;
    if y < y2 {
        assert(y * w + x < y2 * w + x2) by (nonlinear_arith)
            requires
                0 <= x < w,
                y < y2,
                0 <= x2,
        ;
    } else if y2 < y {
        assert(y2 * w + x2 < y * w + x) by (nonlinear_arith)
            requires
                0 <= x2 < w,
                y2 < y,
                0 <= x,
        ;
    }
}

/// A read of a pixel after a write: set where written, as before elsewhere.
pub proof fn law_read_after_write(s: Seq<bool>, w: int, h: int, x: int, y: int, qx: int, qy: int)
    requires
        s.len() == w * h,
    ensures
        pixel_at(set_pixel(s, w, h, x, y), w, h, qx, qy) == if qx == x && qy == y {
            in_bounds((x, y), w, h)
        } else {
            pixel_at(s, w, h, qx, qy)
        },
{
    if in_bounds((x, y), w, h) {
        lemma_pixel_index(w, h, x, y, x, y);
        if in_bounds((qx, qy), w, h) {
            lemma_pixel_index(w, h, x, y, qx, qy);
            lemma_pixel_index(w, h, qx, qy, x, y);
        }
    }
}

fn set_px(v: &mut Vec<bool>, w: usize, h: usize, x: usize, y: usize)
    requires
        old(v)@.len() == w * h,
    ensures
        final(v)@ == set_pixel(old(v)@, w as int, h as int, x as int, y as int),
        final(v)@.len() == old(v)@.len(),
{
    if x < w && y < h {
        let n = v.len();
        proof {
            lemma_pixel_index(w as int, h as int, x as int, y as int, x as int, y as int);
            assert((y as int) * (w as int) <= (y as int) * (w as int) + (x as int));
        }
        v.set(y * w + x, true);
    }
}

pub(crate) fn get_px(v: &Vec<bool>, w: usize, h: usize, x: usize, y: usize) -> (r: bool)
    requires
        v@.len() == w * h,
    ensures
        r == pixel_at(v@, w as int, h as int, x as int, y as int),
{
    if x < w && y < h {
        let n = v.len();
        proof {
            lemma_pixel_index(w as int, h as int, x as int, y as int, x as int, y as int);
            assert((y as int) * (w as int) <= (y as int) * (w as int) + (x as int));
        }
        v[y * w + x]
    } else {
        false
    }
}

/// Canvas for braille-based map rendering: seven layers of pixels, each
/// `pixel_width` by `pixel_height`, two by four pixels per character cell.
pub struct MapCanvas {
    coast_pixels: Vec<bool>,
    grid_pixels: Vec<bool>,
    aurora_pixels: Vec<bool>,
    aurora_fill_pixels: Vec<bool>,
    border_pixels: Vec<bool>,
    terminator_pixels: Vec<bool>,
    land_fill_pixels: Vec<bool>,
    pixel_width: usize,
    pixel_height: usize,
}

impl MapCanvas {
    pub closed spec fn width_px(self) -> int {
        self.pixel_width as int
    }

    pub closed spec fn height_px(self) -> int {
        self.pixel_height as int
    }

    /// The pixels of layer `l`, row-major.
    pub closed spec fn layer(self, l: Layer) -> Seq<bool> {
        match l {
            Layer::Coast => self.coast_pixels@,
            Layer::Grid => self.grid_pixels@,
            Layer::Aurora => self.aurora_pixels@,
            Layer::AuroraFill => self.aurora_fill_pixels@,
            Layer::Border => self.border_pixels@,
            Layer::Terminator => self.terminator_pixels@,
            Layer::LandFill => self.land_fill_pixels@,
        }
    }

    /// Every layer holds one pixel per position.
    pub open spec fn wf(self) -> bool {
        forall|l: Layer| #[trigger] self.layer(l).len() == self.width_px() * self.height_px()
    }

    /// Pixel `(x, y)` of layer `l`; unset outside the canvas.
    pub open spec fn at(self, l: Layer, x: int, y: int) -> bool {
        pixel_at(self.layer(l), self.width_px(), self.height_px(), x, y)
    }

    /// `self` is `before` with only layer `l` changed, to `s`.
    pub open spec fn only_changed(self, before: MapCanvas, l: Layer, s: Seq<bool>) -> bool {
        &&& self.width_px() == before.width_px()
        &&& self.height_px() == before.height_px()
        &&& self.layer(l) == s
        &&& forall|m: Layer| m != l ==> #[trigger] self.layer(m) == before.layer(m)
    }

    /// A blank canvas for `char_width` by `char_height` braille cells.
    pub fn new(char_width: usize, char_height: usize) -> (r: Self)
        requires
            char_width * 2 <= usize::MAX,
            char_height * 4 <= usize::MAX,
            char_width * 2 * (char_height * 4) <= usize::MAX,
        ensures
            r.wf(),
            r.width_px() == char_width * 2,
            r.height_px() == char_height * 4,
            forall|l: Layer, i: int|
                0 <= i < r.layer(l).len() ==> !#[trigger] r.layer(l)[i],
    {
        let pw = char_width * 2;
        let ph = char_height * 4;
        let n = pw * ph;
        let r = MapCanvas {
            coast_pixels: vec![false; n],
            grid_pixels: vec![false; n],
            aurora_pixels: vec![false; n],
            aurora_fill_pixels: vec![false; n],
            border_pixels: vec![false; n],
            terminator_pixels: vec![false; n],
            land_fill_pixels: vec![false; n],
            pixel_width: pw,
            pixel_height: ph,
        };
        assert forall|l: Layer| #[trigger] r.layer(l).len() == r.width_px() * r.height_px() by {
            match l {
                Layer::Coast => {},
                Layer::Grid => {},
                Layer::Aurora => {},
                Layer::AuroraFill => {},
                Layer::Border => {},
                Layer::Terminator => {},
                Layer::LandFill => {},
            }
        }
        r
    }

    pub fn pixel_width(&self) -> (r: usize)
        ensures
            r == self.width_px(),
    {
        self.pixel_width
    }

    pub fn pixel_height(&self) -> (r: usize)
        ensures
            r == self.height_px(),
    {
        self.pixel_height
    }

    proof fn lemma_layer_lens(self)
        requires
            self.wf(),
        ensures
            self.coast_pixels@.len() == self.width_px() * self.height_px(),
            self.grid_pixels@.len() == self.width_px() * self.height_px(),
            self.aurora_pixels@.len() == self.width_px() * self.height_px(),
            self.aurora_fill_pixels@.len() == self.width_px() * self.height_px(),
            self.border_pixels@.len() == self.width_px() * self.height_px(),
            self.terminator_pixels@.len() == self.width_px() * self.height_px(),
            self.land_fill_pixels@.len() == self.width_px() * self.height_px(),
    {
        assert(self.layer(Layer::Coast).len() == self.width_px() * self.height_px());
        assert(self.layer(Layer::Grid).len() == self.width_px() * self.height_px());
        assert(self.layer(Layer::Aurora).len() == self.width_px() * self.height_px());
        assert(self.layer(Layer::AuroraFill).len() == self.width_px() * self.height_px());
        assert(self.layer(Layer::Border).len() == self.width_px() * self.height_px());
        assert(self.layer(Layer::Terminator).len() == self.width_px() * self.height_px());
        assert(self.layer(Layer::LandFill).len() == self.width_px() * self.height_px());
    }

    /// Sets a coastline pixel (ignored outside the canvas).
    pub fn set_coast(&mut self, x: usize, y: usize)
        requires
            old(self).wf(),
        ensures
            final(self).wf(),
            final(self).only_changed(
                *old(self),
                Layer::Coast,
                set_pixel(old(self).layer(Layer::Coast), old(self).width_px(), old(self).height_px(), x as int, y as int),
            ),
    {
        proof {
            self.lemma_layer_lens();
        }
        set_px(&mut self.coast_pixels, self.pixel_width, self.pixel_height, x, y);
        proof {
            let s = *self;
            assert forall|l: Layer| #[trigger] s.layer(l).len() == s.width_px() * s.height_px() by {
                if l != Layer::Coast { assert(s.layer(l) == old(self).layer(l)); }
            }
        }
    }

    /// Sets a grid pixel (ignored outside the canvas).
    pub fn set_grid(&mut self, x: usize, y: usize)
        requires
            old(self).wf(),
        ensures
            final(self).wf(),
            final(self).only_changed(
                *old(self),
                Layer::Grid,
                set_pixel(old(self).layer(Layer::Grid), old(self).width_px(), old(self).height_px(), x as int, y as int),
            ),
    {
        proof {
            self.lemma_layer_lens();
        }
        set_px(&mut self.grid_pixels, self.pixel_width, self.pixel_height, x, y);
        proof {
            let s = *self;
            assert forall|l: Layer| #[trigger] s.layer(l).len() == s.width_px() * s.height_px() by {
                if l != Layer::Grid { assert(s.layer(l) == old(self).layer(l)); }
            }
        }
    }

    /// Sets an aurora boundary pixel (ignored outside the canvas).
    pub fn set_aurora(&mut self, x: usize, y: usize)
        requires
            old(self).wf(),
        ensures
            final(self).wf(),
            final(self).only_changed(
                *old(self),
                Layer::Aurora,
                set_pixel(old(self).layer(Layer::Aurora), old(self).width_px(), old(self).height_px(), x as int, y as int),
            ),
    {
        proof {
            self.lemma_layer_lens();
        }
        set_px(&mut self.aurora_pixels, self.pixel_width, self.pixel_height, x, y);
        proof {
            let s = *self;
            assert forall|l: Layer| #[trigger] s.layer(l).len() == s.width_px() * s.height_px() by {
                if l != Layer::Aurora { assert(s.layer(l) == old(self).layer(l)); }
            }
        }
    }

    /// Sets an aurora oval fill pixel (ignored outside the canvas).
    pub fn set_aurora_fill(&mut self, x: usize, y: usize)
        requires
            old(self).wf(),
        ensures
            final(self).wf(),
            final(self).only_changed(
                *old(self),
                Layer::AuroraFill,
                set_pixel(old(self).layer(Layer::AuroraFill), old(self).width_px(), old(self).height_px(), x as int, y as int),
            ),
    {
        proof {
            self.lemma_layer_lens();
        }
        set_px(&mut self.aurora_fill_pixels, self.pixel_width, self.pixel_height, x, y);
        proof {
            let s = *self;
            assert forall|l: Layer| #[trigger] s.layer(l).len() == s.width_px() * s.height_px() by {
                if l != Layer::AuroraFill { assert(s.layer(l) == old(self).layer(l)); }
            }
        }
    }

    /// Sets a country border pixel (ignored outside the canvas).
    pub fn set_border(&mut self, x: usize, y: usize)
        requires
            old(self).wf(),
        ensures
            final(self).wf(),
            final(self).only_changed(
                *old(self),
                Layer::Border,
                set_pixel(old(self).layer(Layer::Border), old(self).width_px(), old(self).height_px(), x as int, y as int),
            ),
    {
        proof {
            self.lemma_layer_lens();
        }
        set_px(&mut self.border_pixels, self.pixel_width, self.pixel_height, x, y);
        proof {
            let s = *self;
            assert forall|l: Layer| #[trigger] s.layer(l).len() == s.width_px() * s.height_px() by {
                if l != Layer::Border { assert(s.layer(l) == old(self).layer(l)); }
            }
        }
    }

    /// Sets a day/night terminator pixel (ignored outside the canvas).
    pub fn set_terminator(&mut self, x: usize, y: usize)
        requires
            old(self).wf(),
        ensures
            final(self).wf(),
            final(self).only_changed(
                *old(self),
                Layer::Terminator,
                set_pixel(old(self).layer(Layer::Terminator), old(self).width_px(), old(self).height_px(), x as int, y as int),
            ),
    {
        proof {
            self.lemma_layer_lens();
        }
        set_px(&mut self.terminator_pixels, self.pixel_width, self.pixel_height, x, y);
        proof {
            let s = *self;
            assert forall|l: Layer| #[trigger] s.layer(l).len() == s.width_px() * s.height_px() by {
                if l != Layer::Terminator { assert(s.layer(l) == old(self).layer(l)); }
            }
        }
    }

    /// Sets a land fill pixel (ignored outside the canvas).
    pub fn set_land_fill(&mut self, x: usize, y: usize)
        requires
            old(self).wf(),
        ensures
            final(self).wf(),
            final(self).only_changed(
                *old(self),
                Layer::LandFill,
                set_pixel(old(self).layer(Layer::LandFill), old(self).width_px(), old(self).height_px(), x as int, y as int),
            ),
    {
        proof {
            self.lemma_layer_lens();
        }
        set_px(&mut self.land_fill_pixels, self.pixel_width, self.pixel_height, x, y);
        proof {
            let s = *self;
            assert forall|l: Layer| #[trigger] s.layer(l).len() == s.width_px() * s.height_px() by {
                if l != Layer::LandFill { assert(s.layer(l) == old(self).layer(l)); }
            }
        }
    }

    pub fn get_coast(&self, x: usize, y: usize) -> (r: bool)
        requires
            self.wf(),
        ensures
            r == self.at(Layer::Coast, x as int, y as int),
    {
        proof {
            self.lemma_layer_lens();
        }
        get_px(&self.coast_pixels, self.pixel_width, self.pixel_height, x, y)
    }

    pub fn get_grid(&self, x: usize, y: usize) -> (r: bool)
        requires
            self.wf(),
        ensures
            r == self.at(Layer::Grid, x as int, y as int),
    {
        proof {
            self.lemma_layer_lens();
        }
        get_px(&self.grid_pixels, self.pixel_width, self.pixel_height, x, y)
    }

    pub fn get_aurora(&self, x: usize, y: usize) -> (r: bool)
        requires
            self.wf(),
        ensures
            r == self.at(Layer::Aurora, x as int, y as int),
    {
        proof {
            self.lemma_layer_lens();
        }
        get_px(&self.aurora_pixels, self.pixel_width, self.pixel_height, x, y)
    }

    pub fn get_aurora_fill(&self, x: usize, y: usize) -> (r: bool)
        requires
            self.wf(),
        ensures
            r == self.at(Layer::AuroraFill, x as int, y as int),
    {
        proof {
            self.lemma_layer_lens();
        }
        get_px(&self.aurora_fill_pixels, self.pixel_width, self.pixel_height, x, y)
    }

    pub fn get_border(&self, x: usize, y: usize) -> (r: bool)
        requires
            self.wf(),
        ensures
            r == self.at(Layer::Border, x as int, y as int),
    {
        proof {
            self.lemma_layer_lens();
        }
        get_px(&self.border_pixels, self.pixel_width, self.pixel_height, x, y)
    }

    pub fn get_terminator(&self, x: usize, y: usize) -> (r: bool)
        requires
            self.wf(),
        ensures
            r == self.at(Layer::Terminator, x as int, y as int),
    {
        proof {
            self.lemma_layer_lens();
        }
        get_px(&self.terminator_pixels, self.pixel_width, self.pixel_height, x, y)
    }

    pub fn get_land_fill(&self, x: usize, y: usize) -> (r: bool)
        requires
            self.wf(),
        ensures
            r == self.at(Layer::LandFill, x as int, y as int),
    {
        proof {
            self.lemma_layer_lens();
        }
        get_px(&self.land_fill_pixels, self.pixel_width, self.pixel_height, x, y)
    }

    /// Water of the map: pixels the ocean flood reaches from the canvas
    /// edges and from the inland seeds.
    pub open spec fn water(self, seeds: Seq<(i32, i32)>, x: int, y: int) -> bool {
        is_water(self.layer(Layer::Coast), self.width_px(), self.height_px(), seeds, (x, y))
    }

    /// Marks land: floods the ocean from every non-coastline pixel on the
    /// canvas edge and from the given inland sea pixels (those within the
    /// canvas), through non-coastline pixels and their horizontal and
    /// vertical neighbours; every other non-coastline pixel is land, and land
    /// gets the staggered fill pattern (`land_mark`).
    pub fn fill_landmasses(&mut self, inland_seas: &Vec<(i32, i32)>)
        requires
            old(self).wf(),
            (old(self).width_px() == 0) == (old(self).height_px() == 0),
            old(self).width_px() <= i32::MAX,
            old(self).height_px() <= i32::MAX,
        ensures
            final(self).wf(),
            final(self).width_px() == old(self).width_px(),
            final(self).height_px() == old(self).height_px(),
            forall|m: Layer| m != Layer::LandFill ==> #[trigger] final(self).layer(m) == old(self).layer(m),
            forall|x: int, y: int|
                in_bounds((x, y), old(self).width_px(), old(self).height_px()) ==> #[trigger] final(self).at(
                    Layer::LandFill,
                    x,
                    y,
                ) == (old(self).at(Layer::LandFill, x, y) || (!old(self).at(Layer::Coast, x, y)
                    && !old(self).water(inland_seas@, x, y) && land_mark(x, y))),
    {
        proof {
            self.lemma_layer_lens();
        }
        let w = self.pixel_width;
        let h = self.pixel_height;
        if w == 0 || h == 0 {
            return;
        }
        let ghost coast = self.coast_pixels@;
        let ghost seeds = inland_seas@;
        let ghost wi = w as int;
        let ghost hi = h as int;
        let clen = self.coast_pixels.len();
        let n = w * h;
        let mut ocean: Vec<bool> = vec![false; n];
        let mut queue: VecDeque<(usize, usize)> = VecDeque::new();
        assert forall|x: int, y: int| in_bounds((x, y), wi, hi) implies !#[trigger] marked(ocean@, wi, (x, y)) by {
            lemma_pixel_index(wi, hi, x, y, x, y);
        }
        assert(flood_inv(coast, wi, hi, seeds, ocean@, queue@));
        // Seed from the edges: top and bottom rows, then left and right columns.
        for x in 0..w
            invariant
                w == wi,
                h == hi,
                w > 0 && h > 0,
                self.wf(),
                wi == self.width_px(),
                hi == self.height_px(),
                coast == self.layer(Layer::Coast),
                coast == self.coast_pixels@,
                coast.len() == w * h,
                flood_inv(coast, wi, hi, seeds, ocean@, queue@),
                forall|a: int, b: int| in_bounds((a, b), wi, hi) && #[trigger] marked(ocean@, wi, (a, b)) ==> in_queue(queue@, (a, b)),
                forall|a: int| 0 <= a < x && #[trigger] open_px(coast, wi, hi, (a, 0)) ==> marked(ocean@, wi, (a, 0)),
                forall|a: int| 0 <= a < x && #[trigger] open_px(coast, wi, hi, (a, hi - 1)) ==> marked(ocean@, wi, (a, hi - 1)),
        {
            self.seed_visit(&mut ocean, &mut queue, x, 0, Ghost(seeds));
            self.seed_visit(&mut ocean, &mut queue, x, h - 1, Ghost(seeds));
        }
        for y in 0..h
            invariant
                w == wi,
                h == hi,
                w > 0 && h > 0,
                self.wf(),
                wi == self.width_px(),
                hi == self.height_px(),
                coast == self.layer(Layer::Coast),
                coast == self.coast_pixels@,
                coast.len() == w * h,
                flood_inv(coast, wi, hi, seeds, ocean@, queue@),
                forall|a: int, b: int| in_bounds((a, b), wi, hi) && #[trigger] marked(ocean@, wi, (a, b)) ==> in_queue(queue@, (a, b)),
                forall|a: int| 0 <= a < wi && #[trigger] open_px(coast, wi, hi, (a, 0)) ==> marked(ocean@, wi, (a, 0)),
                forall|a: int| 0 <= a < wi && #[trigger] open_px(coast, wi, hi, (a, hi - 1)) ==> marked(ocean@, wi, (a, hi - 1)),
                forall|b: int| 0 <= b < y && #[trigger] open_px(coast, wi, hi, (0, b)) ==> marked(ocean@, wi, (0, b)),
                forall|b: int| 0 <= b < y && #[trigger] open_px(coast, wi, hi, (wi - 1, b)) ==> marked(ocean@, wi, (wi - 1, b)),
        {
            self.seed_visit(&mut ocean, &mut queue, 0, y, Ghost(seeds));
            self.seed_visit(&mut ocean, &mut queue, w - 1, y, Ghost(seeds));
        }
        // Seed the inland seas that the edge flood cannot reach.
        let ns = inland_seas.len();
        for k in 0..ns
            invariant
                ns == seeds.len(),
                seeds == inland_seas@,
                w == wi,
                h == hi,
                w > 0 && h > 0,
                self.wf(),
                wi == self.width_px(),
                hi == self.height_px(),
                coast == self.layer(Layer::Coast),
                coast == self.coast_pixels@,
                coast.len() == w * h,
                flood_inv(coast, wi, hi, seeds, ocean@, queue@),
                forall|a: int, b: int| in_bounds((a, b), wi, hi) && #[trigger] marked(ocean@, wi, (a, b)) ==> in_queue(queue@, (a, b)),
                forall|a: int| 0 <= a < wi && #[trigger] open_px(coast, wi, hi, (a, 0)) ==> marked(ocean@, wi, (a, 0)),
                forall|a: int| 0 <= a < wi && #[trigger] open_px(coast, wi, hi, (a, hi - 1)) ==> marked(ocean@, wi, (a, hi - 1)),
                forall|b: int| 0 <= b < hi && #[trigger] open_px(coast, wi, hi, (0, b)) ==> marked(ocean@, wi, (0, b)),
                forall|b: int| 0 <= b < hi && #[trigger] open_px(coast, wi, hi, (wi - 1, b)) ==> marked(ocean@, wi, (wi - 1, b)),
                forall|j: int| 0 <= j < k && open_px(coast, wi, hi, ((#[trigger] seeds[j]).0 as int, seeds[j].1 as int))
                    ==> marked(ocean@, wi, (seeds[j].0 as int, seeds[j].1 as int)),
        {
            let (px, py) = inland_seas[k];
            let ghost oc0 = ocean@;
            if px >= 0 && py >= 0 && (px as usize) < w && (py as usize) < h {
                assert(seeded(seeds, (px as int, py as int))) by {
                    assert(seeds[k as int].0 as int == px as int && seeds[k as int].1 as int == py as int);
                }
                self.seed_visit(&mut ocean, &mut queue, px as usize, py as usize, Ghost(seeds));
            }
            assert forall|j: int| 0 <= j < k + 1 && open_px(coast, wi, hi, ((#[trigger] seeds[j]).0 as int, seeds[j].1 as int))
                implies marked(ocean@, wi, (seeds[j].0 as int, seeds[j].1 as int)) by {
                if j < k {
                    assert(marked(oc0, wi, (seeds[j].0 as int, seeds[j].1 as int)));
                } else {
                    assert(seeds[j] == (px, py));
                }
            }
        }
        assert forall|x: int, y: int| #[trigger] is_source(coast, wi, hi, seeds, (x, y)) implies marked(ocean@, wi, (x, y)) by {
            if x == 0 {
                assert(open_px(coast, wi, hi, (0, y)));
            } else if y == 0 {
                assert(open_px(coast, wi, hi, (x, 0)));
            } else if x == wi - 1 {
                assert(open_px(coast, wi, hi, (wi - 1, y)));
            } else if y == hi - 1 {
                assert(open_px(coast, wi, hi, (x, hi - 1)));
            } else {
                let j = choose|j: int| 0 <= j < seeds.len() && (#[trigger] seeds[j]).0 as int == x && seeds[j].1 as int == y;
                assert(open_px(coast, wi, hi, (seeds[j].0 as int, seeds[j].1 as int)));
            }
        }
        // Breadth-first flood through non-coastline pixels.
        loop
            invariant
                w == wi,
                h == hi,
                w > 0 && h > 0,
                self.wf(),
                wi == self.width_px(),
                hi == self.height_px(),
                coast == self.layer(Layer::Coast),
                coast == self.coast_pixels@,
                coast.len() == w * h,
                flood_inv(coast, wi, hi, seeds, ocean@, queue@),
                forall|x: int, y: int| #[trigger] is_source(coast, wi, hi, seeds, (x, y)) ==> marked(ocean@, wi, (x, y)),
            ensures
                flood_inv(coast, wi, hi, seeds, ocean@, queue@),
                queue@.len() == 0,
                forall|x: int, y: int| #[trigger] is_source(coast, wi, hi, seeds, (x, y)) ==> marked(ocean@, wi, (x, y)),
            decreases 2 * count_unset(ocean@) + queue@.len(),
        {
            let ghost q0 = queue@;
            let ghost m0 = 2 * count_unset(ocean@) + queue@.len();
            let (x, y) = match queue.pop_front() {
                Some(p) => p,
                None => {
                    break;
                },
            };
            let ghost p = (x as int, y as int);
            assert(q0[0] == (x, y));
            assert(in_bounds(p, wi, hi) && marked(ocean@, wi, p));
            assert(q0 == seq![(x, y)] + queue@);
            proof {
                let q1 = queue@;
                assert forall|k: int| 0 <= k < q1.len() implies in_bounds(((#[trigger] q1[k]).0 as int, q1[k].1 as int), wi, hi) && marked(ocean@, wi, (q1[k].0 as int, q1[k].1 as int)) by {
                    assert(q1[k] == q0[k + 1]);
                }
                assert forall|a: int, b: int, c: int, d: int|
                    in_bounds((a, b), wi, hi) && #[trigger] marked(ocean@, wi, (a, b)) && !in_queue(q1, (a, b)) && (a, b) != p
                        && adjacent((a, b), (c, d)) && #[trigger] open_px(coast, wi, hi, (c, d)) implies marked(ocean@, wi, (c, d)) by {
                    if in_queue(q0, (a, b)) {
                        let k = choose|k: int| 0 <= k < q0.len() && (#[trigger] q0[k]).0 as int == a && q0[k].1 as int == b;
                        if k > 0 {
                            assert(q1[k - 1] == q0[k]);
                        }
                    }
                }
                assert(flood_partial(coast, wi, hi, seeds, ocean@, queue@, p));
            }
            if x > 0 {
                self.flood_step(&mut ocean, &mut queue, x, y, x - 1, y, Ghost(seeds));
            }
            assert(open_px(coast, wi, hi, (x - 1, y as int)) ==> marked(ocean@, wi, (x - 1, y as int)));
            let ghost oc_a = ocean@;
            if x + 1 < w {
                self.flood_step(&mut ocean, &mut queue, x, y, x + 1, y, Ghost(seeds));
            }
            assert(open_px(coast, wi, hi, (x + 1, y as int)) ==> marked(ocean@, wi, (x + 1, y as int)));
            assert(open_px(coast, wi, hi, (x - 1, y as int)) ==> marked(ocean@, wi, (x - 1, y as int)));
            if y > 0 {
                self.flood_step(&mut ocean, &mut queue, x, y, x, y - 1, Ghost(seeds));
            }
            assert(open_px(coast, wi, hi, (x as int, y - 1)) ==> marked(ocean@, wi, (x as int, y - 1)));
            assert(open_px(coast, wi, hi, (x + 1, y as int)) ==> marked(ocean@, wi, (x + 1, y as int)));
            assert(open_px(coast, wi, hi, (x - 1, y as int)) ==> marked(ocean@, wi, (x - 1, y as int)));
            if y + 1 < h {
                self.flood_step(&mut ocean, &mut queue, x, y, x, y + 1, Ghost(seeds));
            }
            assert(open_px(coast, wi, hi, (x as int, y + 1)) ==> marked(ocean@, wi, (x as int, y + 1)));
            assert(open_px(coast, wi, hi, (x as int, y - 1)) ==> marked(ocean@, wi, (x as int, y - 1)));
            assert(open_px(coast, wi, hi, (x + 1, y as int)) ==> marked(ocean@, wi, (x + 1, y as int)));
            assert(open_px(coast, wi, hi, (x - 1, y as int)) ==> marked(ocean@, wi, (x - 1, y as int)));
            proof {
                let oc = ocean@;
                let q = queue@;
                assert forall|a: int, b: int, c: int, d: int|
                    in_bounds((a, b), wi, hi) && #[trigger] marked(oc, wi, (a, b)) && !in_queue(q, (a, b))
                        && adjacent((a, b), (c, d)) && #[trigger] open_px(coast, wi, hi, (c, d)) implies marked(oc, wi, (c, d)) by {
                    if (a, b) == p {
                        if c == x - 1 && d == y {
                        } else if c == x + 1 && d == y {
                        } else if c == x && d == y - 1 {
                        } else {
                            assert(c == x && d == y + 1);
                        }
                    }
                }
                assert(flood_inv(coast, wi, hi, seeds, oc, q));
            }
        }
        proof {
            assert(queue@ =~= Seq::<(usize, usize)>::empty());
            assert forall|x: int, y: int| in_bounds((x, y), wi, hi) implies #[trigger] marked(ocean@, wi, (x, y))
                == is_water(coast, wi, hi, seeds, (x, y)) by {
                if is_water(coast, wi, hi, seeds, (x, y)) {
                    let path = choose|path: Seq<(int, int)>| #[trigger] water_path(coast, wi, hi, seeds, path) && path.last() == (x, y);
                    lemma_flood_complete(coast, wi, hi, seeds, ocean@, path, path.len() - 1);
                }
            }
        }
        // Mark land with a staggered pattern: every third pixel of every
        // third row, alternate filled rows shifted by one.
        let ghost before = *self;
        for yy in 0..h
            invariant
                w == wi,
                h == hi,
                w > 0 && h > 0,
                self.wf(),
                wi == self.width_px(),
                hi == self.height_px(),
                coast == self.coast_pixels@,
                coast.len() == w * h,
                ocean@.len() == w * h,
                before == *old(self),
                wi == before.width_px(),
                hi == before.height_px(),
                forall|m: Layer| m != Layer::LandFill ==> #[trigger] self.layer(m) == before.layer(m),
                forall|x: int, y: int| in_bounds((x, y), wi, hi) ==> #[trigger] marked(ocean@, wi, (x, y))
                    == is_water(coast, wi, hi, seeds, (x, y)),
                forall|x: int, y: int| in_bounds((x, y), wi, hi) ==> #[trigger] self.at(Layer::LandFill, x, y)
                    == (before.at(Layer::LandFill, x, y) || (y < yy && !before.at(Layer::Coast, x, y)
                    && !marked(ocean@, wi, (x, y)) && land_mark(x, y))),
        {
            for xx in 0..w
                invariant
                    w == wi,
                    h == hi,
                    yy < h,
                    w > 0 && h > 0,
                    self.wf(),
                    wi == self.width_px(),
                    hi == self.height_px(),
                    coast == self.coast_pixels@,
                    coast.len() == w * h,
                    ocean@.len() == w * h,
                    before == *old(self),
                    wi == before.width_px(),
                    hi == before.height_px(),
                wi == before.width_px(),
                hi == before.height_px(),
                    forall|m: Layer| m != Layer::LandFill ==> #[trigger] self.layer(m) == before.layer(m),
                    forall|x: int, y: int| in_bounds((x, y), wi, hi) ==> #[trigger] self.at(Layer::LandFill, x, y)
                        == (before.at(Layer::LandFill, x, y) || ((y < yy || (y == yy && x < xx)) && !before.at(Layer::Coast, x, y)
                        && !marked(ocean@, wi, (x, y)) && land_mark(x, y))),
            {
                proof {
                    self.lemma_layer_lens();
                    lemma_pixel_index(wi, hi, xx as int, yy as int, xx as int, yy as int);
                    assert((yy as int) * (wi) <= (yy as int) * wi + (xx as int));
                }
                let on = ocean.len();
                let idx = yy * w + xx;
                let ghost s0 = *self;
                let ghost did = !marked(ocean@, wi, (xx as int, yy as int)) && !before.at(Layer::Coast, xx as int, yy as int)
                    && land_mark(xx as int, yy as int);
                assert(idx == pixel_index((xx as int, yy as int), wi));
                assert(s0.layer(Layer::Coast) == before.layer(Layer::Coast));
                if !ocean[idx] && !self.coast_pixels[idx] {
                    let row_offset: usize = if (yy / 3) % 2 == 0 { 0 } else { 1 };
                    if xx % 3 == row_offset && yy % 3 == 0 {
                        set_px(&mut self.land_fill_pixels, w, h, xx, yy);
                    }
                }
                proof {
                    let s1 = *self;
                    assert(s1.layer(Layer::LandFill) == if did {
                        set_pixel(s0.layer(Layer::LandFill), wi, hi, xx as int, yy as int)
                    } else {
                        s0.layer(Layer::LandFill)
                    });
                    assert forall|m: Layer| m != Layer::LandFill implies #[trigger] s1.layer(m) == s0.layer(m) by {
                        match m {
                            Layer::Coast => {},
                            Layer::Grid => {},
                            Layer::Aurora => {},
                            Layer::AuroraFill => {},
                            Layer::Border => {},
                            Layer::Terminator => {},
                            Layer::LandFill => {},
                        }
                    }
                    assert forall|m: Layer| #[trigger] s1.layer(m).len() == s1.width_px() * s1.height_px() by {
                        if m != Layer::LandFill {
                            assert(s1.layer(m) == s0.layer(m));
                        }
                    }
                    assert forall|x: int, y: int| in_bounds((x, y), wi, hi) implies #[trigger] s1.at(Layer::LandFill, x, y)
                        == (before.at(Layer::LandFill, x, y) || ((y < yy || (y == yy && x < xx + 1)) && !before.at(Layer::Coast, x, y)
                        && !marked(ocean@, wi, (x, y)) && land_mark(x, y))) by {
                        assert(before.at(Layer::Coast, x, y) == s0.at(Layer::Coast, x, y));
                        let old_at = s0.at(Layer::LandFill, x, y);
                        if did {
                            law_read_after_write(s0.layer(Layer::LandFill), wi, hi, xx as int, yy as int, x, y);
                            assert(s1.at(Layer::LandFill, x, y) == if x == xx && y == yy { true } else { old_at });
                        } else {
                            assert(s1.at(Layer::LandFill, x, y) == old_at);
                        }
                    }
                }
            }
        }
        proof {
            assert forall|x: int, y: int| in_bounds((x, y), wi, hi) implies #[trigger] self.at(Layer::LandFill, x, y)
                == (before.at(Layer::LandFill, x, y) || (!before.at(Layer::Coast, x, y)
                && !before.water(seeds, x, y) && land_mark(x, y))) by {
                assert(marked(ocean@, wi, (x, y)) == is_water(coast, wi, hi, seeds, (x, y)));
            }
        }
    }

    /// Marks and queues a source pixel during seeding.
    fn seed_visit(
        &self,
        ocean: &mut Vec<bool>,
        queue: &mut VecDeque<(usize, usize)>,
        x: usize,
        y: usize,
        Ghost(seeds): Ghost<Seq<(i32, i32)>>,
    )
        requires
            self.wf(),
            x < self.width_px(),
            y < self.height_px(),
            on_edge(self.width_px(), self.height_px(), (x as int, y as int)) || seeded(seeds, (x as int, y as int)),
            flood_inv(self.layer(Layer::Coast), self.width_px(), self.height_px(), seeds, old(ocean)@, old(queue)@),
            forall|a: int, b: int| in_bounds((a, b), self.width_px(), self.height_px()) && #[trigger] marked(old(ocean)@, self.width_px(), (a, b)) ==> in_queue(old(queue)@, (a, b)),
        ensures
            flood_inv(self.layer(Layer::Coast), self.width_px(), self.height_px(), seeds, final(ocean)@, final(queue)@),
            forall|a: int, b: int| in_bounds((a, b), self.width_px(), self.height_px()) && #[trigger] marked(final(ocean)@, self.width_px(), (a, b)) ==> in_queue(final(queue)@, (a, b)),
            open_px(self.layer(Layer::Coast), self.width_px(), self.height_px(), (x as int, y as int)) ==> marked(final(ocean)@, self.width_px(), (x as int, y as int)),
            forall|a: int, b: int| in_bounds((a, b), self.width_px(), self.height_px()) && #[trigger] marked(old(ocean)@, self.width_px(), (a, b)) ==> marked(final(ocean)@, self.width_px(), (a, b)),
    {
        proof {
            self.lemma_layer_lens();
        }
        let ghost coast = self.layer(Layer::Coast);
        let ghost wi = self.width_px();
        let ghost hi = self.height_px();
        let ghost p = (x as int, y as int);
        let ghost oc0 = old(ocean)@;
        let ghost q0 = old(queue)@;
        flood_visit(ocean, queue, &self.coast_pixels, self.pixel_width, self.pixel_height, x, y);
        proof {
            if open_px(coast, wi, hi, p) {
                lemma_source_is_water(coast, wi, hi, seeds, p);
            }
            lemma_mark_one(coast, wi, hi, seeds, oc0, ocean@, q0, queue@, p);
            let oc1 = ocean@;
            let q1 = queue@;
            assert forall|a: int, b: int| in_bounds((a, b), wi, hi) && #[trigger] marked(oc1, wi, (a, b)) implies in_queue(q1, (a, b)) by {
                if (a, b) == p {
                    if q1.len() > q0.len() {
                        assert(q1[q0.len() as int] == (x, y));
                    }
                } else {
                    assert(marked(oc0, wi, (a, b)));
                    let k = choose|k: int| 0 <= k < q0.len() && (#[trigger] q0[k]).0 as int == a && q0[k].1 as int == b;
                    assert(q1[k] == q0[k]);
                }
            }
            assert forall|a: int, b: int, c: int, d: int|
                in_bounds((a, b), wi, hi) && #[trigger] marked(oc1, wi, (a, b)) && !in_queue(q1, (a, b))
                    && adjacent((a, b), (c, d)) && #[trigger] open_px(coast, wi, hi, (c, d)) implies marked(oc1, wi, (c, d)) by {
                assert(in_queue(q1, (a, b)));
            }
        }
    }

    /// Visits neighbour `(nx, ny)` of the popped pixel `(x, y)`.
    fn flood_step(
        &self,
        ocean: &mut Vec<bool>,
        queue: &mut VecDeque<(usize, usize)>,
        x: usize,
        y: usize,
        nx: usize,
        ny: usize,
        Ghost(seeds): Ghost<Seq<(i32, i32)>>,
    )
        requires
            self.wf(),
            x < self.width_px(),
            y < self.height_px(),
            nx < self.width_px(),
            ny < self.height_px(),
            adjacent((x as int, y as int), (nx as int, ny as int)),
            flood_partial(self.layer(Layer::Coast), self.width_px(), self.height_px(), seeds, old(ocean)@, old(queue)@, (x as int, y as int)),
            marked(old(ocean)@, self.width_px(), (x as int, y as int)),
        ensures
            flood_partial(self.layer(Layer::Coast), self.width_px(), self.height_px(), seeds, final(ocean)@, final(queue)@, (x as int, y as int)),
            forall|a: int, b: int| in_bounds((a, b), self.width_px(), self.height_px()) && #[trigger] marked(old(ocean)@, self.width_px(), (a, b)) ==> marked(final(ocean)@, self.width_px(), (a, b)),
            open_px(self.layer(Layer::Coast), self.width_px(), self.height_px(), (nx as int, ny as int)) ==> marked(final(ocean)@, self.width_px(), (nx as int, ny as int)),
            2 * count_unset(final(ocean)@) + final(queue)@.len() <= 2 * count_unset(old(ocean)@) + old(queue)@.len(),
    {
        proof {
            self.lemma_layer_lens();
        }
        let ghost coast = self.layer(Layer::Coast);
        let ghost wi = self.width_px();
        let ghost hi = self.height_px();
        let ghost p = (x as int, y as int);
        let ghost n = (nx as int, ny as int);
        let ghost oc0 = old(ocean)@;
        let ghost q0 = old(queue)@;
        flood_visit(ocean, queue, &self.coast_pixels, self.pixel_width, self.pixel_height, nx, ny);
        proof {
            assert(is_water(coast, wi, hi, seeds, p));
            if open_px(coast, wi, hi, n) {
                lemma_extend_path(coast, wi, hi, seeds, p, n);
            }
            lemma_mark_one_partial(coast, wi, hi, seeds, oc0, ocean@, q0, queue@, n, p);
        }
    }

    proof fn lemma_indices_fit(self, pts: Seq<(int, int)>)
        requires
            self.wf(),
        ensures
            indices_fit(pts, self.width_px(), self.height_px(), self.width_px() * self.height_px()),
    {
        assert forall|k: int|
            0 <= k < pts.len() && in_bounds(#[trigger] pts[k], self.width_px(), self.height_px()) implies
            pixel_index(pts[k], self.width_px()) < self.width_px() * self.height_px() by {
            lemma_pixel_index(self.width_px(), self.height_px(), pts[k].0, pts[k].1, pts[k].0, pts[k].1);
        }
    }

    /// Draws a straight line (Bresenham) on layer `layer`: 0 coastline,
    /// 1 grid, 2 aurora boundary, 3 borders; any other layer number draws
    /// nothing. Points outside the canvas are skipped.
    pub fn draw_line_on(&mut self, layer: u8, x0: i32, y0: i32, x1: i32, y1: i32)
        requires
            old(self).wf(),
            i32::MIN < x1 - x0 <= i32::MAX,
            i32::MIN < y1 - y0 <= i32::MAX,
        ensures
            final(self).wf(),
            layer > 3 ==> *final(self) == *old(self),
            layer <= 3 ==> {
                let l = layer_number(layer);
                final(self).only_changed(
                    *old(self),
                    l,
                    paint(
                        old(self).layer(l),
                        old(self).width_px(),
                        old(self).height_px(),
                        line_points(x0 as int, y0 as int, x1 as int, y1 as int),
                    ),
                )
            },
    {
        let ghost pts = line_points(x0 as int, y0 as int, x1 as int, y1 as int);
        proof {
            self.lemma_layer_lens();
            self.lemma_indices_fit(pts);
            lemma_indices_nonneg(pts, self.width_px(), self.height_px());
        }
        let w = self.pixel_width;
        let h = self.pixel_height;
        if layer == 0 {
            draw_line_pixels(&mut self.coast_pixels, w, h, x0, y0, x1, y1);
        } else if layer == 1 {
            draw_line_pixels(&mut self.grid_pixels, w, h, x0, y0, x1, y1);
        } else if layer == 2 {
            draw_line_pixels(&mut self.aurora_pixels, w, h, x0, y0, x1, y1);
        } else if layer == 3 {
            draw_line_pixels(&mut self.border_pixels, w, h, x0, y0, x1, y1);
        }
        proof {
            if layer <= 3 {
                let l = layer_number(layer);
                lemma_paint_len(old(self).layer(l), w as int, h as int, pts);
            }
            let s = *self;
            assert forall|m: Layer| #[trigger] s.layer(m).len() == s.width_px() * s.height_px() by {
                if layer > 3 || m != layer_number(layer) {
                    assert(s.layer(m) == old(self).layer(m));
                }
            }
        }
    }

    /// Pixel `(x, y)` shows layer `l`: a coastline always; the terminator and
    /// borders where there is no coastline; land fill where there is none of
    /// these; aurora fill and grid where there is no coastline, border,
    /// terminator or land fill. The aurora boundary always shows.
    pub open spec fn shows(self, l: Layer, x: int, y: int) -> bool {
        let coast = self.at(Layer::Coast, x, y);
        let border = self.at(Layer::Border, x, y);
        let term = self.at(Layer::Terminator, x, y);
        let land = self.at(Layer::LandFill, x, y);
        match l {
            Layer::Coast => coast,
            Layer::Aurora => self.at(Layer::Aurora, x, y),
            Layer::Terminator => term && !coast,
            Layer::Border => border && !coast,
            Layer::LandFill => land && !coast && !border && !term,
            Layer::AuroraFill => self.at(Layer::AuroraFill, x, y) && !coast && !border && !term && !land,
            Layer::Grid => self.at(Layer::Grid, x, y) && !coast && !border && !term && !land,
        }
    }

    /// Pixel `(x, y)` is drawn as a raised dot.
    pub open spec fn dot(self, x: int, y: int) -> bool {
        ||| self.shows(Layer::Coast, x, y)
        ||| self.shows(Layer::Aurora, x, y)
        ||| self.shows(Layer::Terminator, x, y)
        ||| self.shows(Layer::Border, x, y)
        ||| self.shows(Layer::LandFill, x, y)
        ||| self.shows(Layer::AuroraFill, x, y)
        ||| self.shows(Layer::Grid, x, y)
    }

    /// A pixel is drawn as a raised dot exactly when some layer has it set:
    /// the ranking of the layers decides only which layers a cell shows.
    pub proof fn law_dot_is_any_layer(self, x: int, y: int)
        ensures
            self.dot(x, y) == (self.at(Layer::Coast, x, y) || self.at(Layer::Grid, x, y) || self.at(
                Layer::Aurora,
                x,
                y,
            ) || self.at(Layer::AuroraFill, x, y) || self.at(Layer::Border, x, y) || self.at(
                Layer::Terminator,
                x,
                y,
            ) || self.at(Layer::LandFill, x, y)),
    {
    }

    /// A cell's character is the blank braille pattern exactly when none of
    /// its eight pixels is set on any layer.
    pub proof fn law_blank_cell(self, cx: int, cy: int)
        ensures
            (braille_value(|c: int, w: int| self.dot(2 * cx + c, 4 * cy + w)) == 0x2800) == !any_dot(
                |c: int, w: int| self.dot(2 * cx + c, 4 * cy + w),
            ),
    {
    }

    /// Some pixel of character cell `(cx, cy)` shows layer `l`.
    pub open spec fn cell_shows(self, l: Layer, cx: int, cy: int) -> bool {
        exists|dx: int, dy: int| 0 <= dx < 2 && 0 <= dy < 4 && #[trigger] self.shows(l, 2 * cx + dx, 4 * cy + dy)
    }

    /// The braille character of cell `(cx, cy)` and the layers it shows.
    pub open spec fn glyph_at(self, cx: int, cy: int) -> CellGlyph {
        CellGlyph {
            ch: braille_value(|c: int, w: int| self.dot(2 * cx + c, 4 * cy + w)) as char,
            coast: self.cell_shows(Layer::Coast, cx, cy),
            grid: self.cell_shows(Layer::Grid, cx, cy),
            aurora: self.cell_shows(Layer::Aurora, cx, cy),
            aurora_fill: self.cell_shows(Layer::AuroraFill, cx, cy),
            border: self.cell_shows(Layer::Border, cx, cy),
            terminator: self.cell_shows(Layer::Terminator, cx, cy),
            land_fill: self.cell_shows(Layer::LandFill, cx, cy),
        }
    }

    fn marks_at(&self, x: usize, y: usize) -> (r: [bool; 7])
        requires
            self.wf(),
        ensures
            r[0] == self.shows(Layer::Coast, x as int, y as int),
            r[1] == self.shows(Layer::Grid, x as int, y as int),
            r[2] == self.shows(Layer::Aurora, x as int, y as int),
            r[3] == self.shows(Layer::AuroraFill, x as int, y as int),
            r[4] == self.shows(Layer::Border, x as int, y as int),
            r[5] == self.shows(Layer::Terminator, x as int, y as int),
            r[6] == self.shows(Layer::LandFill, x as int, y as int),
    {
        let coast = self.get_coast(x, y);
        let border = self.get_border(x, y);
        let term = self.get_terminator(x, y);
        let land = self.get_land_fill(x, y);
        [
            coast,
            self.get_grid(x, y) && !coast && !border && !term && !land,
            self.get_aurora(x, y),
            self.get_aurora_fill(x, y) && !coast && !border && !term && !land,
            border && !coast,
            term && !coast,
            land && !coast && !border && !term,
        ]
    }

    /// The braille character of cell `(cx, cy)` and the layers it shows,
    /// for styling.
    pub fn cell_glyph(&self, cx: usize, cy: usize) -> (r: CellGlyph)
        requires
            self.wf(),
            2 * cx + 1 <= usize::MAX,
            4 * cy + 3 <= usize::MAX,
        ensures
            r.ch == braille_value(|c: int, w: int| self.dot(2 * cx + c, 4 * cy + w)) as char,
            r.coast == self.cell_shows(Layer::Coast, cx as int, cy as int),
            r.grid == self.cell_shows(Layer::Grid, cx as int, cy as int),
            r.aurora == self.cell_shows(Layer::Aurora, cx as int, cy as int),
            r.aurora_fill == self.cell_shows(Layer::AuroraFill, cx as int, cy as int),
            r.border == self.cell_shows(Layer::Border, cx as int, cy as int),
            r.terminator == self.cell_shows(Layer::Terminator, cx as int, cy as int),
            r.land_fill == self.cell_shows(Layer::LandFill, cx as int, cy as int),
            r == self.glyph_at(cx as int, cy as int),
    {
        let mut dots = [[false; 4]; 2];
        let mut any = [false; 7];
        let px_base = cx * 2;
        let py_base = cy * 4;
        let ghost me = *self;
        for dx in 0..2usize
            invariant
                px_base == 2 * cx,
                py_base == 4 * cy,
                2 * cx + 1 <= usize::MAX,
                4 * cy + 3 <= usize::MAX,
                self.wf(),
                forall|c: int, w: int| 0 <= c < dx && 0 <= w < 4 ==> #[trigger] dots[c][w] == self.dot(2 * cx + c, 4 * cy + w),
                forall|c: int, w: int| dx <= c < 2 && 0 <= w < 4 ==> !#[trigger] dots[c][w],
                forall|k: int| 0 <= k < 7 ==> #[trigger] any[k] == exists|c: int, w: int|
                    0 <= c < dx && 0 <= w < 4 && #[trigger] self.shows(glyph_layer(k), 2 * cx + c, 4 * cy + w),
        {
            for dy in 0..4usize
                invariant
                    dx < 2,
                    px_base == 2 * cx,
                    py_base == 4 * cy,
                    2 * cx + 1 <= usize::MAX,
                    4 * cy + 3 <= usize::MAX,
                    self.wf(),
                    forall|c: int, w: int| 0 <= c < dx && 0 <= w < 4 ==> #[trigger] dots[c][w] == self.dot(2 * cx + c, 4 * cy + w),
                    forall|w: int| 0 <= w < dy ==> #[trigger] dots[dx as int][w] == self.dot(2 * cx + dx, 4 * cy + w),
                    forall|w: int| dy <= w < 4 ==> !#[trigger] dots[dx as int][w],
                    forall|c: int, w: int| dx < c < 2 && 0 <= w < 4 ==> !#[trigger] dots[c][w],
                    forall|k: int| 0 <= k < 7 ==> #[trigger] any[k] == ((exists|c: int, w: int|
                        0 <= c < dx && 0 <= w < 4 && #[trigger] self.shows(glyph_layer(k), 2 * cx + c, 4 * cy + w))
                        || (exists|w: int| 0 <= w < dy && #[trigger] self.shows(glyph_layer(k), 2 * cx + dx, 4 * cy + w))),
            {
                let m = self.marks_at(px_base + dx, py_base + dy);
                let d = m[0] || m[1] || m[2] || m[3] || m[4] || m[5] || m[6];
                dots[dx][dy] = d;
                let mut k: usize = 0;
                while k < 7
                    invariant
                        k <= 7,
                        dx < 2,
                        dy < 4,
                        forall|j: int| 0 <= j < 7 ==> m[j] == self.shows(glyph_layer(j), 2 * cx + dx, 4 * cy + dy),
                        forall|j: int| 0 <= j < k ==> #[trigger] any[j] == ((exists|c: int, w: int|
                            0 <= c < dx && 0 <= w < 4 && #[trigger] self.shows(glyph_layer(j), 2 * cx + c, 4 * cy + w))
                            || (exists|w: int| 0 <= w < dy + 1 && #[trigger] self.shows(glyph_layer(j), 2 * cx + dx, 4 * cy + w))),
                        forall|j: int| k <= j < 7 ==> #[trigger] any[j] == ((exists|c: int, w: int|
                            0 <= c < dx && 0 <= w < 4 && #[trigger] self.shows(glyph_layer(j), 2 * cx + c, 4 * cy + w))
                            || (exists|w: int| 0 <= w < dy && #[trigger] self.shows(glyph_layer(j), 2 * cx + dx, 4 * cy + w))),
                    decreases 7 - k,
                {
                    if m[k] {
                        any[k] = true;
                    }
                    k = k + 1;
                }
            }
        }
        let ch = dots_to_braille(dots);
        let ghost f = dots_fn(dots);
        let ghost g = |c: int, w: int| self.dot(2 * cx + c, 4 * cy + w);
        assert(f(0, 0) == g(0, 0) && f(0, 1) == g(0, 1) && f(0, 2) == g(0, 2) && f(0, 3) == g(0, 3));
        assert(f(1, 0) == g(1, 0) && f(1, 1) == g(1, 1) && f(1, 2) == g(1, 2) && f(1, 3) == g(1, 3));
        CellGlyph {
            ch,
            coast: any[0],
            grid: any[1],
            aurora: any[2],
            aurora_fill: any[3],
            border: any[4],
            terminator: any[5],
            land_fill: any[6],
        }
    }
}

/// The layer that `draw_line_on` draws for a layer number up to 3.
pub open spec fn layer_number(n: u8) -> Layer {
    if n == 0 {
        Layer::Coast
    } else if n == 1 {
        Layer::Grid
    } else if n == 2 {
        Layer::Aurora
    } else {
        Layer::Border
    }
}

/// The layer of slot `k` of a cell's marks, in the order of `CellGlyph`.
pub open spec fn glyph_layer(k: int) -> Layer {
    if k == 0 {
        Layer::Coast
    } else if k == 1 {
        Layer::Grid
    } else if k == 2 {
        Layer::Aurora
    } else if k == 3 {
        Layer::AuroraFill
    } else if k == 4 {
        Layer::Border
    } else if k == 5 {
        Layer::Terminator
    } else {
        Layer::LandFill
    }
}

/// A character cell of the map: its braille character and which layers
/// show in it.
#[derive(Debug, Clone, Copy)]
pub struct CellGlyph {
    pub ch: char,
    pub coast: bool,
    pub grid: bool,
    pub aurora: bool,
    pub aurora_fill: bool,
    pub border: bool,
    pub terminator: bool,
    pub land_fill: bool,
}


// ------------------------------------------------------------- land fill

/// Pixel `p` lies within the `w` by `h` raster and is not coastline.
pub open spec fn open_px(coast: Seq<bool>, w: int, h: int, p: (int, int)) -> bool {
    in_bounds(p, w, h) && !coast[pixel_index(p, w)]
}

pub open spec fn on_edge(w: int, h: int, p: (int, int)) -> bool {
    p.0 == 0 || p.1 == 0 || p.0 == w - 1 || p.1 == h - 1
}

/// `p` is one of the given inland water seeds.
pub open spec fn seeded(seeds: Seq<(i32, i32)>, p: (int, int)) -> bool {
    exists|k: int| 0 <= k < seeds.len() && (#[trigger] seeds[k]).0 as int == p.0 && seeds[k].1 as int == p.1
}

/// Where the ocean flood starts: open pixels on the edge of the raster, and
/// open pixels at an inland seed.
pub open spec fn is_source(coast: Seq<bool>, w: int, h: int, seeds: Seq<(i32, i32)>, p: (int, int)) -> bool {
    open_px(coast, w, h, p) && (on_edge(w, h, p) || seeded(seeds, p))
}

/// `a` and `b` are horizontal or vertical neighbours.
pub open spec fn adjacent(a: (int, int), b: (int, int)) -> bool {
    (a.0 == b.0 && (a.1 - b.1 == 1 || b.1 - a.1 == 1)) || (a.1 == b.1 && (a.0 - b.0 == 1 || b.0 - a.0 == 1))
}

/// A walk through open pixels, step by step to neighbours, from a source.
pub open spec fn water_path(coast: Seq<bool>, w: int, h: int, seeds: Seq<(i32, i32)>, path: Seq<(int, int)>) -> bool {
    &&& path.len() > 0
    &&& is_source(coast, w, h, seeds, path[0])
    &&& forall|i: int| 0 <= i < path.len() ==> open_px(coast, w, h, #[trigger] path[i])
    &&& forall|i: int| 0 <= i < path.len() - 1 ==> adjacent(#[trigger] path[i], path[i + 1])
}

/// `p` is water: an open pixel that the flood from the sources reaches.
pub open spec fn is_water(coast: Seq<bool>, w: int, h: int, seeds: Seq<(i32, i32)>, p: (int, int)) -> bool {
    exists|path: Seq<(int, int)>| #[trigger] water_path(coast, w, h, seeds, path) && path.last() == p
}

/// The staggered land fill pattern: every third pixel of every third row,
/// shifted by one on alternate filled rows.
pub open spec fn land_mark(x: int, y: int) -> bool {
    y % 3 == 0 && x % 3 == (if (y / 3) % 2 == 0 { 0int } else { 1int })
}

/// Number of unset entries.
pub open spec fn count_unset(s: Seq<bool>) -> nat
    decreases s.len(),
{
    if s.len() == 0 {
        0
    } else {
        count_unset(s.drop_last()) + if s.last() { 0nat } else { 1nat }
    }
}

proof fn lemma_count_unset_update(s: Seq<bool>, i: int)
    requires
        0 <= i < s.len(),
        !s[i],
    ensures
        count_unset(s.update(i, true)) + 1 == count_unset(s),
    decreases s.len(),
{
    let t = s.update(i, true);
    if i == s.len() - 1 {
        assert(t.drop_last() == s.drop_last());
    } else {
        assert(t.drop_last() == s.drop_last().update(i, true));
        lemma_count_unset_update(s.drop_last(), i);
    }
}

pub open spec fn in_queue(q: Seq<(usize, usize)>, p: (int, int)) -> bool {
    exists|k: int| 0 <= k < q.len() && (#[trigger] q[k]).0 as int == p.0 && q[k].1 as int == p.1
}

pub open spec fn marked(ocean: Seq<bool>, w: int, p: (int, int)) -> bool {
    ocean[pixel_index(p, w)]
}

/// The flood's state is consistent: marked pixels are water, queued pixels
/// are marked, and a marked pixel out of the queue has all its open
/// neighbours marked.
pub open spec fn flood_inv(
    coast: Seq<bool>,
    w: int,
    h: int,
    seeds: Seq<(i32, i32)>,
    ocean: Seq<bool>,
    q: Seq<(usize, usize)>,
) -> bool {
    &&& ocean.len() == w * h
    &&& forall|x: int, y: int|
        in_bounds((x, y), w, h) && #[trigger] marked(ocean, w, (x, y)) ==> is_water(coast, w, h, seeds, (x, y))
    &&& forall|k: int| 0 <= k < q.len() ==> in_bounds(((#[trigger] q[k]).0 as int, q[k].1 as int), w, h) && marked(ocean, w, (q[k].0 as int, q[k].1 as int))
    &&& forall|x: int, y: int, a: int, b: int|
        in_bounds((x, y), w, h) && #[trigger] marked(ocean, w, (x, y)) && !in_queue(q, (x, y))
            && adjacent((x, y), (a, b)) && #[trigger] open_px(coast, w, h, (a, b)) ==> marked(ocean, w, (a, b))
}

/// `flood_inv`, except that the popped pixel `p` may still have unmarked
/// open neighbours.
pub open spec fn flood_partial(
    coast: Seq<bool>,
    w: int,
    h: int,
    seeds: Seq<(i32, i32)>,
    ocean: Seq<bool>,
    q: Seq<(usize, usize)>,
    p: (int, int),
) -> bool {
    &&& ocean.len() == w * h
    &&& forall|x: int, y: int|
        in_bounds((x, y), w, h) && #[trigger] marked(ocean, w, (x, y)) ==> is_water(coast, w, h, seeds, (x, y))
    &&& forall|k: int| 0 <= k < q.len() ==> in_bounds(((#[trigger] q[k]).0 as int, q[k].1 as int), w, h) && marked(ocean, w, (q[k].0 as int, q[k].1 as int))
    &&& forall|x: int, y: int, a: int, b: int|
        in_bounds((x, y), w, h) && #[trigger] marked(ocean, w, (x, y)) && !in_queue(q, (x, y)) && (x, y) != p
            && adjacent((x, y), (a, b)) && #[trigger] open_px(coast, w, h, (a, b)) ==> marked(ocean, w, (a, b))
}

proof fn lemma_extend_path(
    coast: Seq<bool>,
    w: int,
    h: int,
    seeds: Seq<(i32, i32)>,
    p: (int, int),
    n: (int, int),
)
    requires
        is_water(coast, w, h, seeds, p),
        adjacent(p, n),
        open_px(coast, w, h, n),
    ensures
        is_water(coast, w, h, seeds, n),
{
    let path = choose|path: Seq<(int, int)>| #[trigger] water_path(coast, w, h, seeds, path) && path.last() == p;
    let np = path.push(n);
    assert forall|i: int| 0 <= i < np.len() implies open_px(coast, w, h, #[trigger] np[i]) by {
        if i < path.len() {
            assert(np[i] == path[i]);
        }
    }
    assert forall|i: int| 0 <= i < np.len() - 1 implies adjacent(#[trigger] np[i], np[i + 1]) by {
        assert(np[i] == path[i]);
        if i < path.len() - 1 {
            assert(np[i + 1] == path[i + 1]);
        }
    }
    assert(water_path(coast, w, h, seeds, np));
    assert(np.last() == n);
}

proof fn lemma_source_is_water(coast: Seq<bool>, w: int, h: int, seeds: Seq<(i32, i32)>, p: (int, int))
    requires
        is_source(coast, w, h, seeds, p),
    ensures
        is_water(coast, w, h, seeds, p),
{
    let path = seq![p];
    assert(water_path(coast, w, h, seeds, path));
    assert(path.last() == p);
}

/// A flood that has run out of queued pixels, having started at every
/// source, has marked all water.
proof fn lemma_flood_complete(
    coast: Seq<bool>,
    w: int,
    h: int,
    seeds: Seq<(i32, i32)>,
    ocean: Seq<bool>,
    path: Seq<(int, int)>,
    i: int,
)
    requires
        flood_inv(coast, w, h, seeds, ocean, Seq::empty()),
        forall|x: int, y: int| #[trigger] is_source(coast, w, h, seeds, (x, y)) ==> marked(ocean, w, (x, y)),
        water_path(coast, w, h, seeds, path),
        0 <= i < path.len(),
    ensures
        marked(ocean, w, path[i]),
    decreases i,
{
    if i == 0 {
        let p = path[0];
        assert(is_source(coast, w, h, seeds, (p.0, p.1)));
    } else {
        lemma_flood_complete(coast, w, h, seeds, ocean, path, i - 1);
        let p = path[i - 1];
        let n = path[i];
        assert(adjacent(path[i - 1], path[i - 1 + 1]));
        assert(open_px(coast, w, h, path[i - 1]));
        assert(open_px(coast, w, h, (n.0, n.1)));
        assert(!in_queue(Seq::<(usize, usize)>::empty(), (p.0, p.1)));
        assert(marked(ocean, w, (p.0, p.1)));
    }
}

/// Marks pixel `(nx, ny)` as ocean and queues it, when it is open and not
/// yet marked.
fn flood_visit(
    ocean: &mut Vec<bool>,
    queue: &mut VecDeque<(usize, usize)>,
    coast: &Vec<bool>,
    w: usize,
    h: usize,
    nx: usize,
    ny: usize,
)
    requires
        old(ocean)@.len() == w * h,
        coast@.len() == w * h,
        nx < w,
        ny < h,
    ensures
        final(ocean)@.len() == w * h,
        ({
            let n = (nx as int, ny as int);
            let i = pixel_index(n, w as int);
            if open_px(coast@, w as int, h as int, n) && !old(ocean)@[i] {
                &&& final(ocean)@ == old(ocean)@.update(i, true)
                &&& final(queue)@ == old(queue)@.push((nx, ny))
            } else {
                &&& final(ocean)@ == old(ocean)@
                &&& final(queue)@ == old(queue)@
            }
        }),
{
    proof {
        lemma_pixel_index(w as int, h as int, nx as int, ny as int, nx as int, ny as int);
        assert((ny as int) * (w as int) <= (ny as int) * (w as int) + (nx as int));
    }
    let plen = ocean.len();
    let idx = ny * w + nx;
    if !ocean[idx] && !coast[idx] {
        ocean.set(idx, true);
        queue.push_back((nx, ny));
    }
}

/// One visit of `flood_visit` at `p`: marks only `p`, queues only `p`, and
/// keeps marked pixels water, given that `p` is water when open.
proof fn lemma_mark_one(
    coast: Seq<bool>,
    w: int,
    h: int,
    seeds: Seq<(i32, i32)>,
    oc0: Seq<bool>,
    oc1: Seq<bool>,
    q0: Seq<(usize, usize)>,
    q1: Seq<(usize, usize)>,
    p: (int, int),
)
    requires
        flood_inv(coast, w, h, seeds, oc0, q0),
        coast.len() == w * h,
        in_bounds(p, w, h),
        p.0 <= usize::MAX && p.1 <= usize::MAX,
        open_px(coast, w, h, p) ==> is_water(coast, w, h, seeds, p),
        if open_px(coast, w, h, p) && !oc0[pixel_index(p, w)] {
            oc1 == oc0.update(pixel_index(p, w), true) && q1 == q0.push((p.0 as usize, p.1 as usize))
        } else {
            oc1 == oc0 && q1 == q0
        },
    ensures
        oc1.len() == w * h,
        forall|a: int, b: int| in_bounds((a, b), w, h) ==> #[trigger] marked(oc1, w, (a, b)) == (marked(oc0, w, (a, b))
            || ((a, b) == p && open_px(coast, w, h, p))),
        forall|x: int, y: int|
            in_bounds((x, y), w, h) && #[trigger] marked(oc1, w, (x, y)) ==> is_water(coast, w, h, seeds, (x, y)),
        forall|k: int| 0 <= k < q1.len() ==> in_bounds(((#[trigger] q1[k]).0 as int, q1[k].1 as int), w, h) && marked(oc1, w, (q1[k].0 as int, q1[k].1 as int)),
        forall|k: int| 0 <= k < q0.len() ==> #[trigger] q1[k] == q0[k],
        q1.len() == q0.len() || (q1.len() == q0.len() + 1 && q1[q0.len() as int] == (p.0 as usize, p.1 as usize)),
        2 * count_unset(oc1) + q1.len() <= 2 * count_unset(oc0) + q0.len() + 1 - (if q1.len() > q0.len() { 2int } else { 0int }),
{
    lemma_pixel_index(w, h, p.0, p.1, p.0, p.1);
    assert forall|a: int, b: int| in_bounds((a, b), w, h) implies #[trigger] marked(oc1, w, (a, b)) == (marked(oc0, w, (a, b))
        || ((a, b) == p && open_px(coast, w, h, p))) by {
        lemma_pixel_index(w, h, a, b, p.0, p.1);
    }
    if q1.len() > q0.len() {
        lemma_count_unset_update(oc0, pixel_index(p, w));
    }
    assert forall|k: int| 0 <= k < q1.len() implies in_bounds(((#[trigger] q1[k]).0 as int, q1[k].1 as int), w, h) && marked(oc1, w, (q1[k].0 as int, q1[k].1 as int)) by {
        if k < q0.len() {
            assert(q1[k] == q0[k]);
            assert(marked(oc0, w, (q0[k].0 as int, q0[k].1 as int)));
        }
    }
}

proof fn lemma_mark_one_partial(
    coast: Seq<bool>,
    w: int,
    h: int,
    seeds: Seq<(i32, i32)>,
    oc0: Seq<bool>,
    oc1: Seq<bool>,
    q0: Seq<(usize, usize)>,
    q1: Seq<(usize, usize)>,
    n: (int, int),
    p: (int, int),
)
    requires
        flood_partial(coast, w, h, seeds, oc0, q0, p),
        coast.len() == w * h,
        in_bounds(n, w, h),
        n.0 <= usize::MAX && n.1 <= usize::MAX,
        open_px(coast, w, h, n) ==> is_water(coast, w, h, seeds, n),
        if open_px(coast, w, h, n) && !oc0[pixel_index(n, w)] {
            oc1 == oc0.update(pixel_index(n, w), true) && q1 == q0.push((n.0 as usize, n.1 as usize))
        } else {
            oc1 == oc0 && q1 == q0
        },
    ensures
        flood_partial(coast, w, h, seeds, oc1, q1, p),
        forall|a: int, b: int| in_bounds((a, b), w, h) && #[trigger] marked(oc0, w, (a, b)) ==> marked(oc1, w, (a, b)),
        open_px(coast, w, h, n) ==> marked(oc1, w, n),
        2 * count_unset(oc1) + q1.len() <= 2 * count_unset(oc0) + q0.len(),
{
    lemma_pixel_index(w, h, n.0, n.1, n.0, n.1);
    assert forall|a: int, b: int| in_bounds((a, b), w, h) implies #[trigger] marked(oc1, w, (a, b)) == (marked(oc0, w, (a, b))
        || ((a, b) == n && open_px(coast, w, h, n))) by {
        lemma_pixel_index(w, h, a, b, n.0, n.1);
    }
    if q1.len() > q0.len() {
        lemma_count_unset_update(oc0, pixel_index(n, w));
    }
    assert forall|k: int| 0 <= k < q1.len() implies in_bounds(((#[trigger] q1[k]).0 as int, q1[k].1 as int), w, h) && marked(oc1, w, (q1[k].0 as int, q1[k].1 as int)) by {
        if k < q0.len() {
            assert(q1[k] == q0[k]);
            assert(marked(oc0, w, (q0[k].0 as int, q0[k].1 as int)));
        }
    }
    assert forall|x: int, y: int, a: int, b: int|
        in_bounds((x, y), w, h) && #[trigger] marked(oc1, w, (x, y)) && !in_queue(q1, (x, y)) && (x, y) != p
            && adjacent((x, y), (a, b)) && #[trigger] open_px(coast, w, h, (a, b)) implies marked(oc1, w, (a, b)) by {
        if q1.len() > q0.len() && (x, y) == n {
            assert(q1[q0.len() as int] == (n.0 as usize, n.1 as usize));
        } else {
            assert(marked(oc0, w, (x, y)));
            if in_queue(q0, (x, y)) {
                let k = choose|k: int| 0 <= k < q0.len() && (#[trigger] q0[k]).0 as int == x && q0[k].1 as int == y;
                assert(q1[k] == q0[k]);
            }
            assert(marked(oc0, w, (a, b)));
        }
    }
}

proof fn lemma_indices_nonneg(pts: Seq<(int, int)>, w: int, h: int)
    requires
        w >= 0,
    ensures
        forall|k: int| 0 <= k < pts.len() && in_bounds(#[trigger] pts[k], w, h) ==> pixel_index(pts[k], w) >= 0,
{
    assert forall|k: int| 0 <= k < pts.len() && in_bounds(#[trigger] pts[k], w, h) implies pixel_index(pts[k], w) >= 0 by {
        let p = pts[k];
        assert(p.1 * w >= 0) by (nonlinear_arith) requires p.1 >= 0, w >= 0;
    }
}

} // verus!
