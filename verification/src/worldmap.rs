//! The world map panel: its size, the colour class of each braille cell,
//! and the labels of its latitude and UTC offset axes.
use vstd::prelude::*;
use crate::canvas::{CellGlyph, Layer, MapCanvas, any_dot, braille_value, law_braille_is_injective};
use crate::text::{int_text, nat_digits, push_char, push_decimal, push_int};

verus! {

/// The world map, drawn on request at any size.
#[derive(Debug, Clone, Copy)]
pub struct WorldMap {}

impl WorldMap {
    pub fn new() -> (r: Self)
        ensures
            r == (WorldMap {}),
    {
        WorldMap {}
    }

    /// The width of the fixed-size map, in cells.
    pub fn width(&self) -> (r: usize)
        ensures
            r == 100,
    {
        100
    }

    /// The height of the fixed-size map, in cells.
    pub fn height(&self) -> (r: usize)
        ensures
            r == 25,
    {
        25
    }

    /// A blank canvas for a map of `width` by `height` cells; none when the
    /// map would be narrower than 4 cells or lower than 2.
    pub fn canvas_for(&self, width: u16, height: u16) -> (r: Option<MapCanvas>)
        requires
            (2 * width) * (4 * height) <= usize::MAX,
        ensures
            (width < 4 || height < 2) <==> r is None,
            r matches Some(c) ==> c.wf() && c.width_px() == 2 * width && c.height_px() == 4 * height,
            r matches Some(c) ==> forall|l: Layer, i: int| 0 <= i < c.layer(l).len() ==> !#[trigger] c.layer(l)[i],
    {
        let w = width as usize;
        let h = height as usize;
        if w < 4 || h < 2 {
            return None;
        }
        Some(MapCanvas::new(w, h))
    }
}

impl Default for WorldMap {
    fn default() -> (r: Self)
        ensures
            r == (WorldMap {}),
    {
        WorldMap::new()
    }
}

/// How a map cell is coloured.
#[derive(Debug, Clone, Copy, PartialEq, Eq, Structural)]
pub enum CellTone {
    /// An empty cell, drawn as a space.
    Blank,
    /// The aurora boundary line: bright and bold.
    AuroraLine,
    /// The aurora colour at `percent` per cent brightness, bold or not.
    AuroraGlow { percent: u8, bold: bool },
    /// Coastline near the day/night terminator.
    CoastTwilight,
    CoastDay,
    CoastNight,
    /// The terminator line itself.
    TerminatorLine,
    BorderTwilight,
    BorderDay,
    BorderNight,
    LandFillDay,
    LandFillNight,
    GridDay,
    GridNight,
    /// Anything else: dim text.
    Dim,
}

/// The colour class of a map cell, from the layers it shows and where its
/// centre lies: inside the auroral zone, in daylight, near the terminator.
/// The layers rank aurora boundary, coastline, terminator, border, land
/// fill, aurora fill, grid; within the auroral zone the aurora colour
/// shows through, brighter at night.
pub open spec fn tone_of(g: CellGlyph, in_zone: bool, daylight: bool, twilight: bool) -> CellTone {
    if g.ch == '\u{2800}' {
        CellTone::Blank
    } else if g.aurora {
        CellTone::AuroraLine
    } else if g.coast {
        if in_zone && !daylight {
            CellTone::AuroraGlow { percent: 100, bold: true }
        } else if in_zone {
            CellTone::AuroraGlow { percent: 70, bold: false }
        } else if twilight {
            CellTone::CoastTwilight
        } else if daylight {
            CellTone::CoastDay
        } else {
            CellTone::CoastNight
        }
    } else if g.terminator {
        if in_zone {
            CellTone::AuroraGlow { percent: 80, bold: false }
        } else {
            CellTone::TerminatorLine
        }
    } else if g.border {
        if in_zone && !daylight {
            CellTone::AuroraGlow { percent: 75, bold: false }
        } else if in_zone {
            CellTone::AuroraGlow { percent: 55, bold: false }
        } else if twilight {
            CellTone::BorderTwilight
        } else if daylight {
            CellTone::BorderDay
        } else {
            CellTone::BorderNight
        }
    } else if g.land_fill {
        if in_zone && !daylight {
            CellTone::AuroraGlow { percent: 30, bold: false }
        } else if in_zone {
            CellTone::AuroraGlow { percent: 22, bold: false }
        } else if daylight {
            CellTone::LandFillDay
        } else {
            CellTone::LandFillNight
        }
    } else if g.aurora_fill {
        if daylight {
            CellTone::AuroraGlow { percent: 50, bold: false }
        } else {
            CellTone::AuroraGlow { percent: 85, bold: false }
        }
    } else if g.grid {
        if in_zone && !daylight {
            CellTone::AuroraGlow { percent: 30, bold: false }
        } else if daylight {
            CellTone::GridDay
        } else {
            CellTone::GridNight
        }
    } else {
        CellTone::Dim
    }
}

/// The colour class of a map cell.
pub fn cell_tone(g: &CellGlyph, in_zone: bool, daylight: bool, twilight: bool) -> (r: CellTone)
    ensures
        r == tone_of(*g, in_zone, daylight, twilight),
{
    if g.ch == '\u{2800}' {
        return CellTone::Blank;
    }
    if g.aurora {
        CellTone::AuroraLine
    } else if g.coast {
        if in_zone && !daylight {
            CellTone::AuroraGlow { percent: 100, bold: true }
        } else if in_zone {
            CellTone::AuroraGlow { percent: 70, bold: false }
        } else if twilight {
            CellTone::CoastTwilight
        } else if daylight {
            CellTone::CoastDay
        } else {
            CellTone::CoastNight
        }
    } else if g.terminator {
        if in_zone {
            CellTone::AuroraGlow { percent: 80, bold: false }
        } else {
            CellTone::TerminatorLine
        }
    } else if g.border {
        if in_zone && !daylight {
            CellTone::AuroraGlow { percent: 75, bold: false }
        } else if in_zone {
            CellTone::AuroraGlow { percent: 55, bold: false }
        } else if twilight {
            CellTone::BorderTwilight
        } else if daylight {
            CellTone::BorderDay
        } else {
            CellTone::BorderNight
        }
    } else if g.land_fill {
        if in_zone && !daylight {
            CellTone::AuroraGlow { percent: 30, bold: false }
        } else if in_zone {
            CellTone::AuroraGlow { percent: 22, bold: false }
        } else if daylight {
            CellTone::LandFillDay
        } else {
            CellTone::LandFillNight
        }
    } else if g.aurora_fill {
        if daylight {
            CellTone::AuroraGlow { percent: 50, bold: false }
        } else {
            CellTone::AuroraGlow { percent: 85, bold: false }
        }
    } else if g.grid {
        if in_zone && !daylight {
            CellTone::AuroraGlow { percent: 30, bold: false }
        } else if daylight {
            CellTone::GridDay
        } else {
            CellTone::GridNight
        }
    } else {
        CellTone::Dim
    }
}

/// What the map draws in cell `(cx, cy)` of `m` under `light`, whether the
/// cell's centre lies (inside the auroral zone, in daylight, near the
/// terminator): its braille character and layers, and its colour class.
pub open spec fn rendered_cell(m: MapCanvas, light: (bool, bool, bool), cx: int, cy: int) -> (CellGlyph, CellTone) {
    let g = m.glyph_at(cx, cy);
    (g, tone_of(g, light.0, light.1, light.2))
}

impl MapCanvas {
    /// The map as rows of cells, top to bottom, each row left to right: one
    /// row per four pixel rows, one cell per two pixel columns. `lights`
    /// gives each cell's light, row after row.
    pub fn render(&self, lights: &Vec<(bool, bool, bool)>) -> (r: Vec<Vec<(CellGlyph, CellTone)>>)
        requires
            self.wf(),
            lights.len() == (self.width_px() / 2) * (self.height_px() / 4),
        ensures
            r.len() == self.height_px() / 4,
            forall|cy: int| 0 <= cy < r.len() ==> #[trigger] r[cy].len() == self.width_px() / 2,
            forall|cy: int, cx: int|
                0 <= cy < r.len() && 0 <= cx < self.width_px() / 2 ==> #[trigger] r[cy][cx] == rendered_cell(
                    *self,
                    lights[cy * (self.width_px() / 2) + cx],
                    cx,
                    cy,
                ),
    {
        let pw = self.pixel_width();
        let ph = self.pixel_height();
        let cw = pw / 2;
        let chh = ph / 4;
        let mut rows: Vec<Vec<(CellGlyph, CellTone)>> = Vec::new();
        for cy in 0..chh
            invariant
                self.wf(),
                pw == self.width_px(),
                ph == self.height_px(),
                cw == pw / 2,
                chh == ph / 4,
                lights.len() == cw * chh,
                rows.len() == cy,
                forall|y: int| 0 <= y < rows.len() ==> #[trigger] rows[y].len() == cw,
                forall|y: int, x: int|
                    0 <= y < rows.len() && 0 <= x < cw ==> #[trigger] rows[y][x] == rendered_cell(*self, lights[y * cw + x], x, y),
        {
            let mut row: Vec<(CellGlyph, CellTone)> = Vec::new();
            for cx in 0..cw
                invariant
                    self.wf(),
                    pw == self.width_px(),
                    ph == self.height_px(),
                    cw == pw / 2,
                    chh == ph / 4,
                    cy < chh,
                    lights.len() == cw * chh,
                    row.len() == cx,
                    forall|x: int| 0 <= x < row.len() ==> #[trigger] row[x] == rendered_cell(*self, lights[cy * cw + x], x, cy as int),
            {
                assert(cy * cw + cx < cw * chh) by (nonlinear_arith)
                    requires
                        cy < chh,
                        cx < cw,
                ;
                let g = self.cell_glyph(cx, cy);
                let (z, d, t) = lights[cy * cw + cx];
                row.push((g, cell_tone(&g, z, d, t)));
            }
            rows.push(row);
        }
        rows
    }
}

/// A cell is drawn blank exactly when none of its eight pixels is set on
/// any layer, wherever it lies.
pub proof fn law_rendered_blank(m: MapCanvas, light: (bool, bool, bool), cx: int, cy: int)
    ensures
        (rendered_cell(m, light, cx, cy).1 == CellTone::Blank) == !any_dot(
            |c: int, w: int| m.dot(2 * cx + c, 4 * cy + w),
        ),
{
    let f = |c: int, w: int| m.dot(2 * cx + c, 4 * cy + w);
    law_braille_is_injective(f, f);
    m.law_blank_cell(cx, cy);
    let v = braille_value(f);
    assert((v as char == '\u{2800}') == (v == 0x2800));
}

/// A cell through which the aurora boundary runs is drawn as the boundary
/// line, whatever else it holds and wherever it lies.
pub proof fn law_aurora_cell_on_top(m: MapCanvas, light: (bool, bool, bool), cx: int, cy: int)
    requires
        m.cell_shows(Layer::Aurora, cx, cy),
    ensures
        rendered_cell(m, light, cx, cy).1 == CellTone::AuroraLine,
{
    let f = |c: int, w: int| m.dot(2 * cx + c, 4 * cy + w);
    let (dx, dy) = choose|dx: int, dy: int| 0 <= dx < 2 && 0 <= dy < 4 && #[trigger] m.shows(Layer::Aurora, 2 * cx + dx, 4 * cy + dy);
    assert(f(dx, dy));
    assert(any_dot(f)) by {
        if dx == 0 {
            assert(dy == 0 || dy == 1 || dy == 2 || dy == 3);
        } else {
            assert(dx == 1 && (dy == 0 || dy == 1 || dy == 2 || dy == 3));
        }
    }
    law_rendered_blank(m, light, cx, cy);
}

/// The aurora boundary line always shows as such, whatever else the cell
/// holds and wherever it lies.
pub proof fn law_aurora_line_on_top(g: CellGlyph, in_zone: bool, daylight: bool, twilight: bool)
    requires
        g.aurora,
        g.ch != '\u{2800}',
    ensures
        tone_of(g, in_zone, daylight, twilight) == CellTone::AuroraLine,
{
}

/// Outside the auroral zone no cell takes the aurora colour but the oval's
/// own fill.
pub proof fn law_no_glow_outside_zone(g: CellGlyph, daylight: bool, twilight: bool)
    requires
        !g.aurora_fill || g.coast || g.terminator || g.border || g.land_fill || g.aurora,
    ensures
        !(tone_of(g, false, daylight, twilight) is AuroraGlow),
{
}

/// Cells of the map panel's inner area given to the latitude labels (left).
pub const LAT_LABEL_WIDTH: u16 = 5;

/// Rows of the map panel's inner area given to the UTC offset axis (bottom).
pub const TIME_AXIS_HEIGHT: u16 = 1;

/// The size of the map inside a panel whose inner area is `inner_w` by
/// `inner_h`, once the latitude labels and the offset axis have their room;
/// none when the map would be under 10 by 5.
pub fn map_area(inner_w: u16, inner_h: u16) -> (r: Option<(u16, u16)>)
    ensures
        r == (if inner_w < LAT_LABEL_WIDTH + 10 || inner_h < TIME_AXIS_HEIGHT + 5 {
            None
        } else {
            Some(((inner_w - LAT_LABEL_WIDTH) as u16, (inner_h - TIME_AXIS_HEIGHT) as u16))
        }),
{
    let map_w = if inner_w >= LAT_LABEL_WIDTH { inner_w - LAT_LABEL_WIDTH } else { 0 };
    let map_h = if inner_h >= TIME_AXIS_HEIGHT { inner_h - TIME_AXIS_HEIGHT } else { 0 };
    if map_w < 10 || map_h < 5 {
        None
    } else {
        Some((map_w, map_h))
    }
}

/// The label of the latitude scale at `lat_deg` degrees (a multiple of 10):
/// every 30 degrees the latitude, right-aligned in two digits, with a
/// degree sign and N or S (" 0° " at the equator); a short tick elsewhere.
pub open spec fn lat_label_text(lat_deg: int) -> Seq<char> {
    if lat_deg % 30 == 0 {
        if lat_deg == 0 {
            " 0\u{b0} "@
        } else {
            let a = if lat_deg < 0 { -lat_deg } else { lat_deg };
            let digits = nat_digits(a as nat);
            let padded = if a < 10 { seq![' '] + digits } else { digits };
            padded + seq!['\u{b0}'] + (if lat_deg > 0 { seq!['N'] } else { seq!['S'] })
        }
    } else {
        "  \u{2500}\u{2500}"@
    }
}

/// The label of the latitude scale at `lat_deg` degrees.
pub fn lat_axis_label(lat_deg: i32) -> (r: String)
    requires
        -90 <= lat_deg <= 90,
    ensures
        r@ == lat_label_text(lat_deg as int),
{
    if lat_deg % 30 == 0 {
        if lat_deg == 0 {
            return " 0\u{b0} ".to_owned();
        }
        let a: u64 = if lat_deg < 0 { (0 - lat_deg) as u64 } else { lat_deg as u64 };
        let mut s = String::new();
        if a < 10 {
            push_char(&mut s, ' ');
        }
        let ghost before = s@;
        push_decimal(&mut s, a);
        push_char(&mut s, '\u{b0}');
        if lat_deg > 0 {
            push_char(&mut s, 'N');
        } else {
            push_char(&mut s, 'S');
        }
        proof {
            let digits = nat_digits(a as nat);
            let padded = if a < 10 { seq![' '] + digits } else { digits };
            assert(before + digits == padded);
        }
        s
    } else {
        "  \u{2500}\u{2500}".to_owned()
    }
}

/// The label of the UTC offset axis at `offset` hours: "UTC" at zero, the
/// offset with its sign elsewhere.
pub open spec fn utc_label_text(offset: int) -> Seq<char> {
    if offset == 0 {
        "UTC"@
    } else if offset > 0 {
        seq!['+'] + int_text(offset)
    } else {
        int_text(offset)
    }
}

/// The label of the UTC offset axis at `offset` hours.
pub fn utc_axis_label(offset: i32) -> (r: String)
    ensures
        r@ == utc_label_text(offset as int),
{
    if offset == 0 {
        return "UTC".to_owned();
    }
    let mut s = String::new();
    if offset > 0 {
        push_char(&mut s, '+');
    }
    push_int(&mut s, offset as i64);
    s
}

} // verus!
