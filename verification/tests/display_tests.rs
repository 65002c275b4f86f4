use solardash::bands::{estimate_band_conditions, estimate_single_band, AuroraSource, BandQuality};
use solardash::bands::BandQuality::{Fair, Good, Poor};
use solardash::canvas::{dots_to_braille, MapCanvas};
use solardash::graph::{braille_graph, bz_graph, graph_area, graph_axis, graph_time_labels, sample_column, BzTone};
use solardash::overlay::braille_line_cells;
use solardash::raster::draw_line_pixels;
use solardash::worldmap::{cell_tone, lat_axis_label, map_area, utc_axis_label, CellTone, WorldMap};

#[test]
fn test_world_map_creation() {
    let map = WorldMap::new();
    assert!(map.height() > 0);
    assert!(map.width() > 0);
}

#[test]
fn test_braille_encoding() {
    let empty = dots_to_braille([[false; 4]; 2]);
    assert_eq!(empty, '\u{2800}');

    let mut dots = [[false; 4]; 2];
    dots[0][0] = true;
    let ch = dots_to_braille(dots);
    assert_eq!(ch, '\u{2801}');

    let all = dots_to_braille([[true; 4]; 2]);
    assert_eq!(all, '\u{28FF}');
}

#[test]
fn braille_dot_weights() {
    let mut dots = [[false; 4]; 2];
    dots[1][3] = true;
    assert_eq!(dots_to_braille(dots), '\u{2880}');
    let mut dots = [[false; 4]; 2];
    dots[0][3] = true;
    dots[1][0] = true;
    assert_eq!(dots_to_braille(dots), '\u{2848}');
}

#[test]
fn world_map_size_and_canvas() {
    let map = WorldMap::default();
    assert_eq!(map.width(), 100);
    assert_eq!(map.height(), 25);
    assert!(map.canvas_for(3, 10).is_none());
    assert!(map.canvas_for(10, 1).is_none());
    let canvas = map.canvas_for(80, 20).unwrap();
    assert_eq!(canvas.pixel_width(), 160);
    assert_eq!(canvas.pixel_height(), 80);
}

#[test]
fn canvas_reads_back_what_was_written() {
    let mut c = MapCanvas::new(4, 2);
    assert_eq!(c.pixel_width(), 8);
    assert_eq!(c.pixel_height(), 8);
    assert!(!c.get_coast(3, 5));
    c.set_coast(3, 5);
    assert!(c.get_coast(3, 5));
    assert!(!c.get_coast(5, 3));
    assert!(!c.get_border(3, 5));
    c.set_grid(100, 100);
    assert!(!c.get_grid(100, 100));
    c.set_terminator(0, 0);
    c.set_land_fill(1, 0);
    c.set_aurora(2, 0);
    c.set_aurora_fill(3, 0);
    c.set_border(4, 0);
    assert!(c.get_terminator(0, 0) && c.get_land_fill(1, 0) && c.get_aurora(2, 0));
    assert!(c.get_aurora_fill(3, 0) && c.get_border(4, 0));
}

#[test]
fn lines_are_drawn_between_end_points() {
    let mut px = vec![false; 5 * 3];
    draw_line_pixels(&mut px, 5, 3, 0, 0, 4, 2);
    let set: Vec<usize> = (0..15).filter(|&i| px[i]).collect();
    assert_eq!(set, vec![0, 6, 7, 13, 14]);

    let mut px = vec![false; 4 * 4];
    draw_line_pixels(&mut px, 4, 4, -2, 1, 5, 1);
    let set: Vec<usize> = (0..16).filter(|&i| px[i]).collect();
    assert_eq!(set, vec![4, 5, 6, 7]);
}

#[test]
fn canvas_lines_go_to_their_layer() {
    let mut c = MapCanvas::new(3, 1);
    c.draw_line_on(3, 0, 0, 5, 0);
    assert!(c.get_border(0, 0) && c.get_border(5, 0));
    assert!(!c.get_coast(2, 0));
    c.draw_line_on(7, 0, 1, 5, 1);
    assert!(!c.get_coast(0, 1) && !c.get_grid(0, 1) && !c.get_aurora(0, 1) && !c.get_border(0, 1));
}

fn boxed_canvas() -> MapCanvas {
    let mut c = MapCanvas::new(6, 3);
    c.draw_line_on(0, 1, 1, 10, 1);
    c.draw_line_on(0, 10, 1, 10, 10);
    c.draw_line_on(0, 10, 10, 1, 10);
    c.draw_line_on(0, 1, 10, 1, 1);
    c
}

#[test]
fn land_inside_a_coastline_is_filled() {
    let mut c = boxed_canvas();
    c.fill_landmasses(&vec![]);
    assert!(c.get_land_fill(4, 3));
    assert!(c.get_land_fill(6, 6));
    assert!(!c.get_land_fill(7, 6));
    assert!(!c.get_land_fill(0, 0));
    assert!(!c.get_land_fill(0, 3));
    assert!(!c.get_land_fill(1, 1));
}

#[test]
fn inland_seas_stay_water() {
    let mut c = boxed_canvas();
    c.fill_landmasses(&vec![(5, 5), (-3, 40)]);
    assert!(!c.get_land_fill(4, 3));
    assert!(!c.get_land_fill(6, 6));
}

#[test]
fn map_cells_show_their_layers() {
    let mut c = MapCanvas::new(2, 1);
    c.set_coast(0, 0);
    c.set_grid(0, 1);
    c.set_grid(2, 3);
    let g0 = c.cell_glyph(0, 0);
    assert_eq!(g0.ch, '\u{2803}');
    assert!(g0.coast && g0.grid && !g0.border);
    let g1 = c.cell_glyph(1, 0);
    assert_eq!(g1.ch, '\u{2840}');
    assert!(g1.grid && !g1.coast);
    assert_eq!(cell_tone(&g1, false, true, false), CellTone::GridDay);
    assert_eq!(cell_tone(&g0, true, false, false), CellTone::AuroraGlow { percent: 100, bold: true });
    assert_eq!(cell_tone(&g0, false, false, true), CellTone::CoastTwilight);
    let blank = MapCanvas::new(1, 1).cell_glyph(0, 0);
    assert_eq!(cell_tone(&blank, true, true, true), CellTone::Blank);
}

#[test]
fn grid_under_land_fill_is_hidden() {
    let mut c = MapCanvas::new(1, 1);
    c.set_land_fill(0, 0);
    c.set_grid(0, 0);
    let g = c.cell_glyph(0, 0);
    assert!(g.land_fill && !g.grid);
    assert_eq!(g.ch, '\u{2801}');
    assert_eq!(cell_tone(&g, false, false, false), CellTone::LandFillNight);
    assert_eq!(cell_tone(&g, true, true, false), CellTone::AuroraGlow { percent: 22, bold: false });
}

#[test]
fn map_axis_labels() {
    assert_eq!(lat_axis_label(60), "60\u{b0}N");
    assert_eq!(lat_axis_label(-30), "30\u{b0}S");
    assert_eq!(lat_axis_label(0), " 0\u{b0} ");
    assert_eq!(lat_axis_label(40), "  \u{2500}\u{2500}");
    assert_eq!(utc_axis_label(0), "UTC");
    assert_eq!(utc_axis_label(9), "+9");
    assert_eq!(utc_axis_label(-12), "-12");
}

#[test]
fn sparkline_of_two_samples() {
    let rows = braille_graph(&vec![0, 7], 2, 2);
    assert_eq!(rows, vec!["\u{28a3}\u{2800}".to_string(), "\u{2800}\u{28a3}".to_string()]);
}

#[test]
fn sparkline_of_one_sample_sits_in_the_middle() {
    let rows = braille_graph(&vec![3], 2, 1);
    assert_eq!(rows, vec!["\u{2800}\u{2840}".to_string()]);
}

#[test]
fn sparkline_clamps_rows() {
    let rows = braille_graph(&vec![0, 100, 2], 3, 2);
    assert_eq!(rows, vec!["\u{28a3}\u{2800}\u{2860}".to_string(), "\u{2818}\u{2874}\u{2801}".to_string()]);
}

#[test]
fn empty_sparkline_has_blank_rows() {
    assert_eq!(braille_graph(&vec![], 4, 3), vec![String::new(), String::new(), String::new()]);
    assert_eq!(braille_graph(&vec![1, 2], 0, 2), vec![String::new(), String::new()]);
}

#[test]
fn sample_columns_spread_across_the_width() {
    assert_eq!(sample_column(0, 3, 10), 0);
    assert_eq!(sample_column(1, 3, 10), 4);
    assert_eq!(sample_column(2, 3, 10), 9);
    assert_eq!(sample_column(0, 1, 10), 5);
    assert_eq!(sample_column(0, 1, 1), 0);
}

#[test]
fn bz_graph_colours_by_side_of_zero() {
    let rows = bz_graph(&vec![0, 7], 4, 2, 2);
    let tones: Vec<Vec<(u32, BzTone)>> =
        rows.iter().map(|r| r.iter().map(|(c, t)| (*c as u32, *t)).collect()).collect();
    assert_eq!(
        tones,
        vec![
            vec![(0x28a3, BzTone::Positive), (0x2800, BzTone::Axis)],
            vec![(0x2801, BzTone::Axis), (0x28ab, BzTone::Negative)],
        ]
    );
    let empty = bz_graph(&vec![], 4, 3, 2);
    assert_eq!(empty.len(), 2);
    assert!(empty[0].is_empty());
}

#[test]
fn time_axis_ticks() {
    let a: String = graph_axis(13).into_iter().collect();
    assert_eq!(a, "\u{253C}\u{2500}\u{252C}\u{2500}\u{252C}\u{2500}\u{253C}\u{2500}\u{252C}\u{2500}\u{252C}\u{2500}\u{253C}");
    let a: String = graph_axis(7).into_iter().collect();
    assert_eq!(a, "\u{253C}\u{252C}\u{252C}\u{253C}\u{252C}\u{252C}\u{253C}");
    assert!(graph_axis(0).is_empty());
}

#[test]
fn time_labels_are_centred_on_ticks() {
    let l: String = graph_time_labels(13, "-6h", "-3h", "now").into_iter().collect();
    assert_eq!(l, "-6h  -3h  now");
    let l: String = graph_time_labels(8, "-6h", "-3h", "now").into_iter().collect();
    assert_eq!(l, "-6h  now");
    let l: String = graph_time_labels(20, "-3d", "-1d", "now").into_iter().collect();
    assert_eq!(l, "-3d      -1d     now");
}

#[test]
fn graph_area_inside_a_panel() {
    assert_eq!(graph_area(26, 12), Some((21, 9)));
    assert_eq!(graph_area(7, 12), None);
    assert_eq!(graph_area(26, 3), None);
    assert_eq!(graph_area(8, 4), Some((3, 1)));
}

#[test]
fn braille_line_cells_follow_the_line() {
    let mut cells = braille_line_cells(0, 0, 2, 1);
    cells.sort();
    assert_eq!(
        cells,
        vec![(0, 0, '\u{2820}'), (1, 0, '\u{2840}'), (1, 1, '\u{2808}'), (2, 1, '\u{2822}')]
    );
    let mut cells = braille_line_cells(-1, 0, 1, 0);
    cells.sort();
    assert_eq!(cells, vec![(0, 0, '\u{2824}'), (1, 0, '\u{2824}')]);
    assert_eq!(braille_line_cells(3, 3, 3, 3), vec![(3, 3, '\u{2820}')]);
    assert!(braille_line_cells(-5, -5, -3, -4).is_empty());
}

#[test]
fn band_labels() {
    assert_eq!(BandQuality::Good.label(), "GOOD");
    assert_eq!(BandQuality::Fair.label(), "FAIR");
    assert_eq!(BandQuality::Poor.label(), "POOR");
    assert_eq!(AuroraSource::default(), AuroraSource::KpModel);
}

#[test]
fn quiet_sun_and_field() {
    let bands = estimate_band_conditions(0, 0);
    let names: Vec<&str> = bands.iter().map(|b| b.band).collect();
    assert_eq!(
        names,
        vec!["160m", "80m", "60m", "40m", "30m", "20m", "17m", "15m", "12m", "11m", "10m", "6m", "2m"]
    );
    let q: Vec<BandQuality> = bands.iter().map(|b| b.quality).collect();
    assert_eq!(q, vec![Fair, Fair, Good, Good, Good, Fair, Fair, Fair, Poor, Poor, Poor, Poor, Poor]);
}

#[test]
fn high_flux_opens_the_upper_bands() {
    let q: Vec<BandQuality> = estimate_band_conditions(5, 0).iter().map(|b| b.quality).collect();
    assert_eq!(q, vec![Fair, Fair, Good, Good, Good, Good, Good, Good, Good, Good, Good, Good, Fair]);
}

#[test]
fn severe_storm_closes_hf() {
    let q: Vec<BandQuality> = estimate_band_conditions(5, 5).iter().map(|b| b.quality).collect();
    assert!(q.iter().all(|x| *x == BandQuality::Poor));
    assert_eq!(estimate_single_band(14000, 1, 3), BandQuality::Fair);
    assert_eq!(estimate_single_band(50000, 3, 1), BandQuality::Fair);
    assert_eq!(estimate_single_band(7000, 0, 3), BandQuality::Fair);
    assert_eq!(estimate_single_band(7000, 0, 4), BandQuality::Poor);
}

#[test]
fn aurora_line_shows_over_everything() {
    let mut c = MapCanvas::new(1, 1);
    c.set_coast(0, 0);
    c.set_aurora(1, 2);
    c.set_border(1, 3);
    let g = c.cell_glyph(0, 0);
    for &(zone, day, twilight) in &[(false, false, false), (true, true, true), (true, false, false)] {
        assert_eq!(cell_tone(&g, zone, day, twilight), CellTone::AuroraLine);
    }
}

#[test]
fn no_aurora_colour_outside_the_zone() {
    let mut c = MapCanvas::new(1, 1);
    c.set_border(0, 0);
    let g = c.cell_glyph(0, 0);
    assert_eq!(cell_tone(&g, false, true, false), CellTone::BorderDay);
    assert_eq!(cell_tone(&g, false, false, true), CellTone::BorderTwilight);
    assert_eq!(cell_tone(&g, true, false, false), CellTone::AuroraGlow { percent: 75, bold: false });
    let mut c = MapCanvas::new(1, 1);
    c.set_aurora_fill(0, 0);
    let g = c.cell_glyph(0, 0);
    assert_eq!(cell_tone(&g, false, true, false), CellTone::AuroraGlow { percent: 50, bold: false });
}

#[test]
fn lines_reach_both_ends_in_every_direction() {
    for &(x0, y0, x1, y1) in &[(7, 1, 0, 6), (3, 7, 3, 0), (0, 4, 7, 4), (6, 6, 1, 0), (2, 2, 2, 2)] {
        let mut px = vec![false; 64];
        draw_line_pixels(&mut px, 8, 8, x0, y0, x1, y1);
        assert!(px[(y0 * 8 + x0) as usize]);
        assert!(px[(y1 * 8 + x1) as usize]);
    }
}

#[test]
fn map_area_leaves_room_for_the_axes() {
    assert_eq!(map_area(100, 30), Some((95, 29)));
    assert_eq!(map_area(15, 6), Some((10, 5)));
    assert_eq!(map_area(14, 30), None);
    assert_eq!(map_area(100, 5), None);
    assert_eq!(map_area(3, 0), None);
}

#[test]
fn lines_have_one_pixel_per_step_of_the_longer_extent() {
    for &(x0, y0, x1, y1) in &[(0, 0, 7, 3), (1, 7, 4, 0), (6, 2, 0, 2), (5, 5, 5, 5)] {
        let mut px = vec![false; 64];
        draw_line_pixels(&mut px, 8, 8, x0, y0, x1, y1);
        let n = px.iter().filter(|&&p| p).count() as i32;
        assert_eq!(n, (x1 - x0).abs().max((y1 - y0).abs()) + 1);
    }
}

#[test]
fn map_renders_rows_of_cells() {
    // 3 cells wide, 2 high: 6 x 8 pixels
    let mut c = MapCanvas::new(3, 2);
    c.set_coast(0, 0);
    c.set_aurora(3, 5);
    c.set_grid(5, 7);
    let lights = vec![
        (false, true, false), (false, true, false), (false, false, false),
        (false, false, false), (true, false, false), (true, false, false),
    ];
    let rows = c.render(&lights);
    assert_eq!(rows.len(), 2);
    assert!(rows.iter().all(|r| r.len() == 3));
    assert_eq!(rows[0][0].0.ch, '\u{2801}');
    assert_eq!(rows[0][0].1, CellTone::CoastDay);
    assert_eq!(rows[0][1].1, CellTone::Blank);
    assert_eq!(rows[0][2].1, CellTone::Blank);
    assert_eq!(rows[1][0].1, CellTone::Blank);
    // the aurora boundary is on top, in the zone or not
    assert_eq!(rows[1][1].0.ch, '\u{2810}');
    assert_eq!(rows[1][1].1, CellTone::AuroraLine);
    // grid in the zone at night glows
    assert_eq!(rows[1][2].0.ch, '\u{2880}');
    assert_eq!(rows[1][2].1, CellTone::AuroraGlow { percent: 30, bold: false });
}

#[test]
fn world_map_canvas_starts_blank() {
    let map = WorldMap::new();
    let canvas = map.canvas_for(4, 2).unwrap();
    for y in 0..canvas.pixel_height() {
        for x in 0..canvas.pixel_width() {
            assert!(!canvas.get_coast(x, y) && !canvas.get_grid(x, y) && !canvas.get_aurora(x, y));
            assert!(!canvas.get_aurora_fill(x, y) && !canvas.get_border(x, y));
            assert!(!canvas.get_terminator(x, y) && !canvas.get_land_fill(x, y));
        }
    }
}
