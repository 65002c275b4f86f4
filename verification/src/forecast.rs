//! The plain-text 3-day space weather forecast.
use vstd::prelude::*;
use crate::json::DataError;
use crate::text::{chars_of, contains, has_sub, push_char, split_ws, string_from_chars, views_of, ws_tokens};

verus! {

/// Forecast for a single day.
#[derive(Debug, Clone)]
pub struct DayForecast {
    pub date: String,
    /// R scale prediction (e.g. "R1-R2")
    pub radio_blackout: String,
    pub solar_radiation: String,
    pub geomagnetic_storm: String,
}

/// Three-day forecast for the R, S and G scales.
#[derive(Debug, Clone)]
pub struct ThreeDayForecast {
    pub day1: DayForecast,
    pub day2: DayForecast,
    pub day3: DayForecast,
}

/// A day with no date and every scale at level 0.
pub open spec fn blank_day(d: DayForecast) -> bool {
    &&& d.date@ == "N/A"@
    &&& d.radio_blackout@ == "R0"@
    &&& d.solar_radiation@ == "S0"@
    &&& d.geomagnetic_storm@ == "G0"@
}

fn blank() -> (r: DayForecast)
    ensures
        blank_day(r),
{
    DayForecast {
        date: "N/A".to_owned(),
        radio_blackout: "R0".to_owned(),
        solar_radiation: "S0".to_owned(),
        geomagnetic_storm: "G0".to_owned(),
    }
}

impl Default for ThreeDayForecast {
    fn default() -> (r: Self)
        ensures
            blank_day(r.day1),
            blank_day(r.day2),
            blank_day(r.day3),
    {
        ThreeDayForecast { day1: blank(), day2: blank(), day3: blank() }
    }
}

/// The pieces of `s` between line feeds, scanning with `cur` the piece read
/// so far.
pub open spec fn pieces_from(s: Seq<char>, cur: Seq<char>) -> Seq<Seq<char>>
    decreases s.len(),
{
    if s.len() == 0 {
        seq![cur]
    } else if s[0] == '\n' {
        seq![cur] + pieces_from(s.drop_first(), seq![])
    } else {
        pieces_from(s.drop_first(), cur.push(s[0]))
    }
}

/// The lines of `s`: its pieces between line feeds.
///
/// This differs from `str::lines` only in keeping a carriage return before
/// a line feed and an empty piece after a final line feed; the forecast
/// reading below looks for words and whitespace-separated tokens, which
/// neither of these changes.
pub open spec fn text_lines(s: Seq<char>) -> Seq<Seq<char>> {
    pieces_from(s, seq![])
}

/// A line that opens the forecast section.
pub open spec fn is_section_header(l: Seq<char>) -> bool {
    has_sub(l, "NOAA Geomagnetic Activity Observation and Forecast"@) || has_sub(l, "Three Day Forecast"@)
}

/// A line naming a scale level. (The words hold no whitespace, so a line
/// mentions them exactly when its trimmed text does.)
pub open spec fn mentions_scale(l: Seq<char>) -> bool {
    has_sub(l, "None"@) || has_sub(l, "Minor"@) || has_sub(l, "Moderate"@) || has_sub(l, "Strong"@)
}

/// The rows of the forecast section: lines after a section header, other
/// than headers, that name a scale level.
pub open spec fn forecast_rows(lines: Seq<Seq<char>>, in_section: bool) -> Seq<Seq<char>>
    decreases lines.len(),
{
    if lines.len() == 0 {
        seq![]
    } else if is_section_header(lines[0]) {
        forecast_rows(lines.drop_first(), true)
    } else if in_section && mentions_scale(lines[0]) {
        seq![lines[0]] + forecast_rows(lines.drop_first(), true)
    } else {
        forecast_rows(lines.drop_first(), in_section)
    }
}

/// The date a row gives: its first two tokens joined by a space, or the
/// default "N/A" when it has fewer than two.
pub open spec fn row_date(row: Seq<char>) -> Seq<char> {
    let t = ws_tokens(row);
    if t.len() >= 2 { t[0] + seq![' '] + t[1] } else { "N/A"@ }
}

/// The date of forecast day `k` (from 0): that of the `k`-th row, "N/A"
/// when the section has fewer rows.
pub open spec fn day_date(rows: Seq<Seq<char>>, k: int) -> Seq<char> {
    if k < rows.len() { row_date(rows[k]) } else { "N/A"@ }
}

/// `d` is a blank day carrying the date `date`.
pub open spec fn dated_day(d: DayForecast, date: Seq<char>) -> bool {
    &&& d.date@ == date
    &&& d.radio_blackout@ == "R0"@
    &&& d.solar_radiation@ == "S0"@
    &&& d.geomagnetic_storm@ == "G0"@
}

/// Splits `s` into its pieces between line feeds.
fn split_lines(s: &Vec<char>) -> (r: Vec<Vec<char>>)
    ensures
        views_of(r@) == text_lines(s@),
{
    let mut out: Vec<Vec<char>> = Vec::new();
    let mut cur: Vec<char> = Vec::new();
    let n = s.len();
    let mut i: usize = 0;
    assert(s@.skip(0) == s@);
    assert(views_of(out@) == Seq::<Seq<char>>::empty());
    while i < n
        invariant
            n == s@.len(),
            i <= n,
            views_of(out@) + pieces_from(s@.skip(i as int), cur@) == text_lines(s@),
        decreases n - i,
    {
        let c = s[i];
        assert(s@.skip(i as int).drop_first() == s@.skip(i + 1));
        if c == '\n' {
            let ghost before = views_of(out@);
            let t = cur;
            out.push(t);
            assert(views_of(out@) == before + seq![t@]);
            cur = Vec::new();
        } else {
            cur.push(c);
        }
        i = i + 1;
    }
    assert(s@.skip(n as int).len() == 0);
    let ghost before = views_of(out@);
    let t = cur;
    out.push(t);
    assert(views_of(out@) == before + seq![t@]);
    out
}

/// The date of a forecast row, when it has two tokens.
fn read_row_date(row: &Vec<char>) -> (r: Option<String>)
    ensures
        match r {
            Some(d) => ws_tokens(row@).len() >= 2 && d@ == row_date(row@),
            None => ws_tokens(row@).len() < 2,
        },
{
    let parts = split_ws(row);
    assert(views_of(parts@).len() == parts@.len());
    if parts.len() >= 2 {
        assert(views_of(parts@)[0] == parts@[0]@);
        assert(views_of(parts@)[1] == parts@[1]@);
        let mut d = string_from_chars(&parts[0]);
        push_char(&mut d, ' ');
        let second = string_from_chars(&parts[1]);
        d.append(second.as_str());
        Some(d)
    } else {
        None
    }
}

proof fn lemma_rows_step(lines: Seq<Seq<char>>, i: int, in_section: bool)
    requires
        0 <= i < lines.len(),
    ensures
        forecast_rows(lines.skip(i), in_section) == (if is_section_header(lines[i]) {
            forecast_rows(lines.skip(i + 1), true)
        } else if in_section && mentions_scale(lines[i]) {
            seq![lines[i]] + forecast_rows(lines.skip(i + 1), true)
        } else {
            forecast_rows(lines.skip(i + 1), in_section)
        }),
{
    assert(lines.skip(i).drop_first() == lines.skip(i + 1));
    assert(lines.skip(i)[0] == lines[i]);
}

impl ThreeDayForecast {
    /// Reads the 3-day forecast text: after the line that opens the forecast
    /// section, the first three lines naming a scale level give the dates of
    /// days 1, 2 and 3 (their first two tokens). Never fails.
    pub fn from_text(text: &str) -> (r: Result<ThreeDayForecast, DataError>)
        ensures
            r matches Ok(f) && {
                let rows = forecast_rows(text_lines(text@), false);
                &&& dated_day(f.day1, day_date(rows, 0))
                &&& dated_day(f.day2, day_date(rows, 1))
                &&& dated_day(f.day3, day_date(rows, 2))
            },
    {
        let mut forecast = Self::default();
        let cs = chars_of(text);
        let lines = split_lines(&cs);
        let ghost all = views_of(lines@);
        let mut in_section = false;
        let mut day_index: usize = 0;
        let ghost mut found: Seq<Seq<char>> = seq![];
        let n = lines.len();
        assert(all.skip(0) == all);
        for i in 0..n
            invariant
                n == lines@.len(),
                all == views_of(lines@),
                all.len() == n,
                found + forecast_rows(all.skip(i as int), in_section) == forecast_rows(all, false),
                day_index as int == if found.len() < 3 { found.len() as int } else { 3 },
                dated_day(forecast.day1, day_date(found, 0)),
                dated_day(forecast.day2, day_date(found, 1)),
                dated_day(forecast.day3, day_date(found, 2)),
        {
            let line = &lines[i];
            assert(all[i as int] == line@);
            proof {
                lemma_rows_step(all, i as int, in_section);
            }
            let header = contains(line, "NOAA Geomagnetic Activity Observation and Forecast")
                || contains(line, "Three Day Forecast");
            if header {
                in_section = true;
            } else if in_section {
                let scale_named = contains(line, "None") || contains(line, "Minor") || contains(
                    line,
                    "Moderate",
                ) || contains(line, "Strong");
                if scale_named {
                    let ghost old_found = found;
                    proof {
                        found = found.push(line@);
                        assert(old_found + (seq![line@] + forecast_rows(all.skip(i + 1), true))
                            == found + forecast_rows(all.skip(i + 1), true));
                    }
                    if day_index < 3 {
                        let date = read_row_date(line);
                        if day_index == 0 {
                            if let Some(d) = date {
                                forecast.day1.date = d;
                            }
                        } else if day_index == 1 {
                            if let Some(d) = date {
                                forecast.day2.date = d;
                            }
                        } else {
                            if let Some(d) = date {
                                forecast.day3.date = d;
                            }
                        }
                        day_index = day_index + 1;
                    }
                }
            }
        }
        assert(all.skip(n as int).len() == 0);
        assert(found + seq![] == found);
        Ok(forecast)
    }
}


/// Lines from `a` up to `b` that open no section, and name no scale level
/// while a section is open, add no row.
proof fn lemma_rows_quiet(lines: Seq<Seq<char>>, a: int, b: int, in_section: bool)
    requires
        0 <= a <= b <= lines.len(),
        forall|k: int| a <= k < b ==> !is_section_header(#[trigger] lines[k]) && (in_section ==> !mentions_scale(lines[k])),
    ensures
        forecast_rows(lines.skip(a), in_section) == forecast_rows(lines.skip(b), in_section),
    decreases b - a,
{
    if a < b {
        lemma_rows_step(lines, a, in_section);
        lemma_rows_quiet(lines, a + 1, b, in_section);
    }
}

/// A line holding "NOAA Geomagnetic Activity Observation and Forecast" or
/// "Three Day Forecast" opens the forecast section: when no earlier line
/// does, the first later line naming a scale level ("None", "Minor",
/// "Moderate" or "Strong") that opens nothing itself is the first row, and
/// its first two tokens, joined by a space, are day 1's date. Lines naming
/// a scale level before the section opens are not rows.
pub proof fn law_section_header_opens_rows(lines: Seq<Seq<char>>, i: int, j: int)
    requires
        0 <= i < j < lines.len(),
        has_sub(lines[i], "NOAA Geomagnetic Activity Observation and Forecast"@) || has_sub(lines[i], "Three Day Forecast"@),
        forall|k: int| 0 <= k < i ==> !has_sub(#[trigger] lines[k], "NOAA Geomagnetic Activity Observation and Forecast"@)
            && !has_sub(lines[k], "Three Day Forecast"@),
        forall|k: int| i < k < j ==> !has_sub(#[trigger] lines[k], "None"@) && !has_sub(lines[k], "Minor"@) && !has_sub(lines[k], "Moderate"@)
            && !has_sub(lines[k], "Strong"@),
        has_sub(lines[j], "None"@) || has_sub(lines[j], "Minor"@) || has_sub(lines[j], "Moderate"@) || has_sub(lines[j], "Strong"@),
        !has_sub(lines[j], "NOAA Geomagnetic Activity Observation and Forecast"@),
        !has_sub(lines[j], "Three Day Forecast"@),
    ensures
        ({
            let rows = forecast_rows(lines, false);
            let t = ws_tokens(lines[j]);
            &&& rows.len() > 0
            &&& rows[0] == lines[j]
            &&& t.len() >= 2 ==> day_date(rows, 0) == t[0] + seq![' '] + t[1]
            &&& t.len() < 2 ==> day_date(rows, 0) == "N/A"@
        }),
{
    assert(lines.skip(0) == lines);
    lemma_rows_quiet(lines, 0, i, false);
    lemma_rows_step(lines, i, false);
    lemma_rows_to_first(lines, i + 1, j);
    lemma_rows_step(lines, j, true);
}

/// With the section open, lines up to `j` that name no scale level add no
/// row (headers among them keep it open).
proof fn lemma_rows_to_first(lines: Seq<Seq<char>>, a: int, j: int)
    requires
        0 <= a <= j <= lines.len(),
        forall|k: int| a <= k < j ==> !mentions_scale(#[trigger] lines[k]),
    ensures
        forecast_rows(lines.skip(a), true) == forecast_rows(lines.skip(j), true),
    decreases j - a,
{
    if a < j {
        lemma_rows_step(lines, a, true);
        lemma_rows_to_first(lines, a + 1, j);
    }
}


/// Day `k` (from 0) of the forecast takes its date from the `k`-th row: its
/// first two whitespace-separated tokens joined by one space, "N/A" when the
/// row has fewer tokens or there is no such row; the scales of a day read
/// "R0", "S0" and "G0".
pub proof fn law_day_dates(rows: Seq<Seq<char>>, k: int, d: DayForecast, date: Seq<char>)
    requires
        0 <= k,
    ensures
        k < rows.len() && ws_tokens(rows[k]).len() >= 2 ==> day_date(rows, k) == ws_tokens(rows[k])[0] + seq![' ']
            + ws_tokens(rows[k])[1],
        k < rows.len() && ws_tokens(rows[k]).len() < 2 ==> day_date(rows, k) == "N/A"@,
        k >= rows.len() ==> day_date(rows, k) == "N/A"@,
        dated_day(d, date) ==> d.date@ == date && d.radio_blackout@ == "R0"@ && d.solar_radiation@ == "S0"@
            && d.geomagnetic_storm@ == "G0"@,
{
}

} // verus!
