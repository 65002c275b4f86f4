//! NOAA space weather scales: radio blackouts (R), solar radiation storms (S)
//! and geomagnetic storms (G), current and forecast.
use vstd::prelude::*;
use crate::json::{DataError, JsonValue, json_get, json_at, json_str, text_or, get_at, str_at};
use crate::text::{chars_of, int_text, is_digit, lemma_nat_digits, nat_digits, parse_i32_from, parse_i32_spec, push_char};

verus! {

/// Scale level with current value and text description.
#[derive(Debug, Clone)]
pub struct ScaleLevel {
    /// e.g. "R1", "S3", "G5"
    pub scale: String,
    /// e.g. "Minor", "Strong", "Extreme"
    pub text: String,
}

/// NOAA scales for a single forecast day.
#[derive(Debug, Clone)]
pub struct NoaaScalesDay {
    pub radio_blackout: ScaleLevel,
    pub solar_radiation: ScaleLevel,
    pub geomagnetic_storm: ScaleLevel,
}

/// NOAA scales now and for the next three days.
#[derive(Debug, Clone)]
pub struct NoaaScales {
    pub radio_blackout: ScaleLevel,
    pub solar_radiation: ScaleLevel,
    pub geomagnetic_storm: ScaleLevel,
    pub forecast_day1: NoaaScalesDay,
    pub forecast_day2: NoaaScalesDay,
    pub forecast_day3: NoaaScalesDay,
}

pub open spec fn level_is(l: ScaleLevel, scale: Seq<char>, text: Seq<char>) -> bool {
    l.scale@ == scale && l.text@ == text
}

/// A day with every scale at level 0, "None".
pub open spec fn quiet_day(d: NoaaScalesDay) -> bool {
    &&& level_is(d.radio_blackout, "R0"@, "None"@)
    &&& level_is(d.solar_radiation, "S0"@, "None"@)
    &&& level_is(d.geomagnetic_storm, "G0"@, "None"@)
}

/// `l` is the level that member `letter` of the feed's `day` object gives:
/// the letter followed by its "Scale" string ("0" when absent), and its
/// "Text" string ("none" when absent).
pub open spec fn level_read(l: ScaleLevel, day: JsonValue, letter: Seq<char>) -> bool {
    let entry = json_get(day, letter);
    &&& l.scale@ == letter + text_or(json_str(json_at(entry, "Scale"@)), "0"@)
    &&& l.text@ == text_or(json_str(json_at(entry, "Text"@)), "none"@)
}

/// `d` holds the R, S and G levels of the feed's `day` object.
pub open spec fn day_read(d: NoaaScalesDay, day: JsonValue) -> bool {
    &&& level_read(d.radio_blackout, day, "R"@)
    &&& level_read(d.solar_radiation, day, "S"@)
    &&& level_read(d.geomagnetic_storm, day, "G"@)
}

/// `d` is the forecast for member `key` of the feed, or a quiet day when the
/// feed has no such member.
pub open spec fn forecast_day_read(d: NoaaScalesDay, value: JsonValue, key: Seq<char>) -> bool {
    match json_get(value, key) {
        Some(day) => day_read(d, day),
        None => quiet_day(d),
    }
}

fn level(scale: &str, text: &str) -> (r: ScaleLevel)
    ensures
        level_is(r, scale@, text@),
{
    ScaleLevel { scale: scale.to_owned(), text: text.to_owned() }
}

impl Default for NoaaScalesDay {
    fn default() -> (r: Self)
        ensures
            quiet_day(r),
    {
        NoaaScalesDay {
            radio_blackout: level("R0", "None"),
            solar_radiation: level("S0", "None"),
            geomagnetic_storm: level("G0", "None"),
        }
    }
}

impl Default for NoaaScales {
    fn default() -> (r: Self)
        ensures
            level_is(r.radio_blackout, "R0"@, "None"@),
            level_is(r.solar_radiation, "S0"@, "None"@),
            level_is(r.geomagnetic_storm, "G0"@, "None"@),
            quiet_day(r.forecast_day1),
            quiet_day(r.forecast_day2),
            quiet_day(r.forecast_day3),
    {
        NoaaScales {
            radio_blackout: level("R0", "None"),
            solar_radiation: level("S0", "None"),
            geomagnetic_storm: level("G0", "None"),
            forecast_day1: NoaaScalesDay::default(),
            forecast_day2: NoaaScalesDay::default(),
            forecast_day3: NoaaScalesDay::default(),
        }
    }
}

/// Reads the level of scale `letter` from a day object of the feed.
fn read_level(day: &JsonValue, letter: &str) -> (r: ScaleLevel)
    ensures
        level_read(r, *day, letter@),
{
    let entry = day.get(letter);
    let scale_txt = match str_at(get_at(entry, "Scale")) {
        Some(s) => s,
        None => "0",
    };
    let text_txt = match str_at(get_at(entry, "Text")) {
        Some(t) => t,
        None => "none",
    };
    let mut scale = letter.to_owned();
    scale.append(scale_txt);
    ScaleLevel { scale, text: text_txt.to_owned() }
}

fn read_day(day: &JsonValue) -> (r: NoaaScalesDay)
    ensures
        day_read(r, *day),
{
    NoaaScalesDay {
        radio_blackout: read_level(day, "R"),
        solar_radiation: read_level(day, "S"),
        geomagnetic_storm: read_level(day, "G"),
    }
}

impl NoaaScales {
    /// Parses the NOAA scales feed, an object keyed by day: "0" is the
    /// current day, "1", "2", "3" the forecast days.
    ///
    /// Fails exactly when the current day "0" is missing; a missing forecast
    /// day reads as a quiet day.
    pub fn from_json(value: &JsonValue) -> (r: Result<NoaaScales, DataError>)
        ensures
            r is Ok <==> json_get(*value, "0"@) is Some,
            r matches Err(DataError::MissingField(k)) ==> k@ == "0"@,
            r is Err ==> r matches Err(DataError::MissingField(_)),
            r matches Ok(s) ==> {
                &&& day_read(
                    NoaaScalesDay {
                        radio_blackout: s.radio_blackout,
                        solar_radiation: s.solar_radiation,
                        geomagnetic_storm: s.geomagnetic_storm,
                    },
                    json_get(*value, "0"@).unwrap(),
                )
                &&& forecast_day_read(s.forecast_day1, *value, "1"@)
                &&& forecast_day_read(s.forecast_day2, *value, "2"@)
                &&& forecast_day_read(s.forecast_day3, *value, "3"@)
            },
    {
        let current_day = match value.get("0") {
            Some(d) => d,
            None => {
                return Err(DataError::MissingField("0".to_owned()));
            },
        };
        let now = read_day(current_day);
        let day1 = Self::parse_forecast_day(value, "1");
        let day2 = Self::parse_forecast_day(value, "2");
        let day3 = Self::parse_forecast_day(value, "3");
        Ok(NoaaScales {
            radio_blackout: now.radio_blackout,
            solar_radiation: now.solar_radiation,
            geomagnetic_storm: now.geomagnetic_storm,
            forecast_day1: day1,
            forecast_day2: day2,
            forecast_day3: day3,
        })
    }

    /// Parses a single forecast day of the NOAA scales feed.
    fn parse_forecast_day(value: &JsonValue, day_key: &str) -> (r: NoaaScalesDay)
        ensures
            forecast_day_read(r, *value, day_key@),
    {
        match value.get(day_key) {
            Some(d) => read_day(d),
            None => NoaaScalesDay::default(),
        }
    }
}

/// The level a scale string names: the integer after its first character,
/// or 0 when that is not an integer.
pub open spec fn scale_level_spec(s: Seq<char>) -> i32 {
    let rest = if s.len() > 0 { s.drop_first() } else { s };
    match parse_i32_spec(rest) {
        Some(v) => v,
        None => 0,
    }
}

/// Parses a scale level from its string (e.g. "R1" -> 1, "G5" -> 5).
pub fn parse_scale_level(scale: &str) -> (r: i32)
    ensures
        r == scale_level_spec(scale@),
{
    let cs = chars_of(scale);
    let start: usize = if cs.len() > 0 { 1 } else { 0 };
    proof {
        if cs@.len() > 0 {
            assert(cs@.skip(1) == cs@.drop_first());
        } else {
            assert(cs@.skip(0) == cs@);
        }
    }
    match parse_i32_from(&cs, start) {
        Some(v) => v,
        None => 0,
    }
}

/// A scale string written as a letter followed by a level in decimal reads
/// back as that level: `parse_scale_level` undoes the "R{}" formatting.
pub proof fn law_scale_level_round_trip(letter: char, level: i32)
    ensures
        scale_level_spec(seq![letter] + int_text(level as int)) == level,
{
    let s = seq![letter] + int_text(level as int);
    assert(s.drop_first() =~= int_text(level as int));
    if level < 0 {
        let m = (-level) as nat;
        lemma_nat_digits(m);
        let t = int_text(level as int);
        assert(t.drop_first() =~= nat_digits(m));
    } else {
        lemma_nat_digits(level as nat);
        let t = int_text(level as int);
        assert(t == nat_digits(level as nat));
        assert(is_digit(t[0]));
    }
}

/// Severity band of a scale level (0-5).
#[derive(Debug, Clone, Copy, PartialEq, Eq, Structural)]
pub enum ScaleSeverity {
    /// 0
    Quiet,
    /// 1
    Minor,
    /// 2-3
    Moderate,
    /// 4
    Strong,
    /// 5
    Severe,
}

impl ScaleSeverity {
    /// The severity band of `level`; levels outside 0-5 count as none.
    pub fn from_level(level: i32) -> (r: Self)
        ensures
            r == (if level == 1 {
                ScaleSeverity::Minor
            } else if level == 2 || level == 3 {
                ScaleSeverity::Moderate
            } else if level == 4 {
                ScaleSeverity::Strong
            } else if level == 5 {
                ScaleSeverity::Severe
            } else {
                ScaleSeverity::Quiet
            }),
    {
        match level {
            0 => ScaleSeverity::Quiet,
            1 => ScaleSeverity::Minor,
            2 | 3 => ScaleSeverity::Moderate,
            4 => ScaleSeverity::Strong,
            5 => ScaleSeverity::Severe,
            _ => ScaleSeverity::Quiet,
        }
    }
}

/// The level of a scale bar: `level` clamped to 0-5.
pub open spec fn bar_level(level: int) -> int {
    if level < 0 { 0 } else if level > 5 { 5 } else { level }
}

/// The five-cell bar of a scale level: one full block per level, light
/// shade for the rest.
pub fn scale_bar(level: i32) -> (r: (String, String))
    ensures
        r.0@ == Seq::new(bar_level(level as int) as nat, |i: int| '\u{2588}'),
        r.1@ == Seq::new((5 - bar_level(level as int)) as nat, |i: int| '\u{2591}'),
{
    let clamped: usize = if level < 0 {
        0
    } else if level > 5 {
        5
    } else {
        level as usize
    };
    let mut filled = String::new();
    let mut empty = String::new();
    let mut i: usize = 0;
    while i < 5
        invariant
            i <= 5,
            clamped == bar_level(level as int),
            filled@ =~= Seq::new(if i < clamped { i as nat } else { clamped as nat }, |k: int| '\u{2588}'),
            empty@ =~= Seq::new(if i < clamped { 0 } else { (i - clamped) as nat }, |k: int| '\u{2591}'),
        decreases 5 - i,
    {
        if i < clamped {
            push_char(&mut filled, '\u{2588}');
        } else {
            push_char(&mut empty, '\u{2591}');
        }
        i = i + 1;
    }
    (filled, empty)
}

/// Geomagnetic activity by whole Kp value, as the gauge colours it.
#[derive(Debug, Clone, Copy, PartialEq, Eq, Structural)]
pub enum KpBand {
    /// Kp 0-3.
    Low,
    /// Kp 4-5.
    Medium,
    /// Kp 6-7.
    High,
    /// Kp 8 and up.
    Extreme,
}

/// The band of whole Kp value `kp`.
pub fn kp_band(kp: usize) -> (r: KpBand)
    ensures
        r == (if kp <= 3 {
            KpBand::Low
        } else if kp <= 5 {
            KpBand::Medium
        } else if kp <= 7 {
            KpBand::High
        } else {
            KpBand::Extreme
        }),
{
    if kp <= 3 {
        KpBand::Low
    } else if kp <= 5 {
        KpBand::Medium
    } else if kp <= 7 {
        KpBand::High
    } else {
        KpBand::Extreme
    }
}

/// The activity named by whole Kp value `kp`.
pub open spec fn kp_activity_text(kp: int) -> Seq<char> {
    if kp <= 1 {
        "Quiet"@
    } else if kp <= 3 {
        "Unsettled"@
    } else if kp == 4 {
        "Active"@
    } else if kp == 5 {
        "Minor Storm"@
    } else if kp == 6 {
        "Moderate Storm"@
    } else if kp == 7 {
        "Strong Storm"@
    } else if kp == 8 {
        "Severe Storm"@
    } else if kp == 9 {
        "Extreme Storm"@
    } else {
        ""@
    }
}

/// The activity named by whole Kp value `kp`; empty above 9.
pub fn kp_activity(kp: usize) -> (r: &'static str)
    ensures
        r@ == kp_activity_text(kp as int),
{
    match kp {
        0 => "Quiet",
        1 => "Quiet",
        2 => "Unsettled",
        3 => "Unsettled",
        4 => "Active",
        5 => "Minor Storm",
        6 => "Moderate Storm",
        7 => "Strong Storm",
        8 => "Severe Storm",
        9 => "Extreme Storm",
        _ => "",
    }
}

} // verus!
