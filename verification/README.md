# solardash

A terminal dashboard of space weather: the NOAA storm scales (R, S, G) and
their 3-day forecast, solar wind and Dst sparklines, the Kp gauge, X-ray
flares, HF band conditions, a braille world map with the auroral oval and
the day/night terminator, launch site clocks and the next rocket launch.

## Layout

- `src/` is the library, written in Verus and verified: the feed parsers
  (NOAA scales, flare events, the 3-day forecast, Launch Library 2 launches,
  feed timestamps and the windows of recent samples),
  the alert tracker, the band condition rules, the braille rasters (Bresenham
  lines, sparklines, the Bz graph, the land fill of the map, the braille line
  overlay), the map's cell colouring and axis labels, and the dashboard's key
  handling, refresh timing and text layout. Each public function states its
  result in its contract; the laws that span several calls are public proof
  functions.
- `tests/` runs the library on concrete inputs.
- `app/` is the program around it: HTTP fetching, the terminal, drawing with
  ratatui, sound, and the floating-point measurements (solar wind, Kp, Dst,
  the OVATION aurora grid, map projection and solar geometry).

The world map reads its coastline from `world_coastline.csv` (one
"longitude,latitude" pair per line, polygon after polygon) in the working
directory, or from the file that `SOLARDASH_COASTLINE` names. Alert clips are
read from `audio/` in the working directory.
