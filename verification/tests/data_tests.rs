use solardash::flare::{class_description, clock_of, date_of, FlareData, XRayFlare};
use solardash::forecast::ThreeDayForecast;
use solardash::json::{DataError, JsonValue};
use solardash::launch::{first_upcoming, map_site_name, next_launch, UpcomingLaunch, UtcTime};
use solardash::scales::{kp_activity, kp_band, parse_scale_level, scale_bar, KpBand, NoaaScales, ScaleSeverity};

fn to_json(v: &serde_json::Value) -> JsonValue {
    match v {
        serde_json::Value::Null => JsonValue::Null,
        serde_json::Value::Bool(b) => JsonValue::Bool(*b),
        serde_json::Value::Number(n) => JsonValue::Number(n.as_i64()),
        serde_json::Value::String(s) => JsonValue::String(s.clone()),
        serde_json::Value::Array(a) => JsonValue::Array(a.iter().map(to_json).collect()),
        serde_json::Value::Object(m) => {
            JsonValue::Object(m.iter().map(|(k, x)| (k.clone(), to_json(x))).collect())
        }
    }
}

fn parse(text: &str) -> JsonValue {
    let v: serde_json::Value = serde_json::from_str(text).unwrap();
    to_json(&v)
}

fn parse_array(text: &str) -> Vec<JsonValue> {
    match parse(text) {
        JsonValue::Array(items) => items,
        _ => panic!("not an array"),
    }
}

#[test]
fn test_parse_scale_level() {
    assert_eq!(parse_scale_level("R1"), 1);
    assert_eq!(parse_scale_level("G5"), 5);
    assert_eq!(parse_scale_level("S0"), 0);
}

#[test]
fn test_scale_severity() {
    assert_eq!(ScaleSeverity::from_level(0), ScaleSeverity::Quiet);
    assert_eq!(ScaleSeverity::from_level(1), ScaleSeverity::Minor);
    assert_eq!(ScaleSeverity::from_level(3), ScaleSeverity::Moderate);
    assert_eq!(ScaleSeverity::from_level(5), ScaleSeverity::Severe);
}

#[test]
fn test_xray_flare_parsing() {
    let flare = XRayFlare {
        begin_time: "2025-01-01T12:00:00Z".to_string(),
        end_time: Some("2025-01-01T13:00:00Z".to_string()),
        peak_time: Some("2025-01-01T12:30:00Z".to_string()),
        class_type: "M4.8".to_string(),
        begin_class: Some("M2.0".to_string()),
        end_class: Some("M3.5".to_string()),
        source_location: Some("N12E34".to_string()),
        active_region: Some(3514),
    };

    assert_eq!(flare.class_letter(), 'M');
    assert!(!flare.is_ongoing());
}

#[test]
fn test_noaa_scales_parsing() {
    let json_str = r#"{
        "0": {
            "DateStamp": "2026-02-07",
            "TimeStamp": "12:00:00",
            "R": {"Scale": "1", "Text": "minor"},
            "S": {"Scale": "0", "Text": "none"},
            "G": {"Scale": "2", "Text": "moderate"}
        },
        "1": {
            "DateStamp": "2026-02-08",
            "R": {"Scale": "2", "Text": "moderate"},
            "S": {"Scale": "1", "Text": "minor"},
            "G": {"Scale": "1", "Text": "minor"}
        },
        "2": {
            "DateStamp": "2026-02-09",
            "R": {"Scale": "0", "Text": "none"},
            "S": {"Scale": "0", "Text": "none"},
            "G": {"Scale": "3", "Text": "strong"}
        },
        "3": {
            "DateStamp": "2026-02-10",
            "R": {"Scale": "1", "Text": "minor"},
            "S": {"Scale": "0", "Text": "none"},
            "G": {"Scale": "0", "Text": "none"}
        }
    }"#;
    let json = parse(json_str);
    let scales = NoaaScales::from_json(&json).unwrap();

    assert_eq!(scales.radio_blackout.scale, "R1");
    assert_eq!(scales.radio_blackout.text, "minor");
    assert_eq!(scales.solar_radiation.scale, "S0");
    assert_eq!(scales.geomagnetic_storm.scale, "G2");

    assert_eq!(scales.forecast_day1.radio_blackout.scale, "R2");
    assert_eq!(scales.forecast_day1.solar_radiation.scale, "S1");
    assert_eq!(scales.forecast_day1.geomagnetic_storm.scale, "G1");

    assert_eq!(scales.forecast_day2.geomagnetic_storm.scale, "G3");

    assert_eq!(scales.forecast_day3.radio_blackout.scale, "R1");
}

#[test]
fn test_flare_data_parsing() {
    let json_data = parse_array(
        r#"[{
            "begin_time": "2025-01-15T10:30:00Z",
            "end_time": "2025-01-15T11:45:00Z",
            "max_time": "2025-01-15T11:00:00Z",
            "max_class": "M2.4",
            "begin_class": "M1.8",
            "end_class": "M2.0",
            "sourceLocation": "N15E20",
            "activeRegion": 3514
        }]"#,
    );

    let result = FlareData::from_json(json_data).unwrap();
    assert_eq!(result.flares.len(), 1);
    assert_eq!(result.flares[0].class_type, "M2.4");
    assert_eq!(result.flares[0].class_letter(), 'M');
}

#[test]
fn test_three_day_forecast_parsing() {
    let forecast_text = r#"
    :Product: 3-Day Forecast
    NOAA Geomagnetic Activity Observation and Forecast
    Three Day Forecast
    Jan 15  None  Minor  Moderate
    Jan 16  Minor  None  Strong
    Jan 17  None  None  Minor
    "#;

    let result = ThreeDayForecast::from_text(forecast_text);
    assert!(result.is_ok());
    let forecast = result.unwrap();
    assert!(!forecast.day1.date.is_empty());
}

#[test]
fn forecast_dates_come_from_the_first_three_scale_rows() {
    let text = "Header\nThree Day Forecast\nJan 15  None  Minor\nJan 16  Minor  None\nJan 17  None  Strong\nJan 18 Minor\n";
    let f = ThreeDayForecast::from_text(text).unwrap();
    assert_eq!(f.day1.date, "Jan 15");
    assert_eq!(f.day2.date, "Jan 16");
    assert_eq!(f.day3.date, "Jan 17");
    assert_eq!(f.day1.radio_blackout, "R0");
    assert_eq!(f.day3.geomagnetic_storm, "G0");
}

#[test]
fn forecast_without_section_stays_blank() {
    let f = ThreeDayForecast::from_text("Jan 15 None Minor\n").unwrap();
    assert_eq!(f.day1.date, "N/A");
    assert_eq!(f.day2.date, "N/A");
    assert_eq!(f.day3.date, "N/A");
}

#[test]
fn scale_levels_of_odd_strings() {
    assert_eq!(parse_scale_level(""), 0);
    assert_eq!(parse_scale_level("G"), 0);
    assert_eq!(parse_scale_level("Gx"), 0);
    assert_eq!(parse_scale_level("R12"), 12);
    assert_eq!(parse_scale_level("S-1"), -1);
    assert_eq!(parse_scale_level("G+4"), 4);
}

#[test]
fn severity_bands_cover_every_level() {
    assert_eq!(ScaleSeverity::from_level(2), ScaleSeverity::Moderate);
    assert_eq!(ScaleSeverity::from_level(4), ScaleSeverity::Strong);
    assert_eq!(ScaleSeverity::from_level(6), ScaleSeverity::Quiet);
    assert_eq!(ScaleSeverity::from_level(-1), ScaleSeverity::Quiet);
}

#[test]
fn noaa_scales_missing_current_day_is_an_error() {
    let json = parse(r#"{"1": {"R": {"Scale": "2", "Text": "moderate"}}}"#);
    match NoaaScales::from_json(&json) {
        Err(DataError::MissingField(_)) => {}
        other => panic!("unexpected {:?}", other.is_ok()),
    }
}

#[test]
fn noaa_scales_missing_members_read_as_level_zero() {
    let json = parse(r#"{"0": {"R": {"Text": "quiet"}}}"#);
    let scales = NoaaScales::from_json(&json).unwrap();
    assert_eq!(scales.radio_blackout.scale, "R0");
    assert_eq!(scales.radio_blackout.text, "quiet");
    assert_eq!(scales.geomagnetic_storm.scale, "G0");
    assert_eq!(scales.geomagnetic_storm.text, "none");
    assert_eq!(scales.forecast_day1.radio_blackout.scale, "R0");
    assert_eq!(scales.forecast_day1.radio_blackout.text, "None");
}

#[test]
fn noaa_scales_default_is_quiet() {
    let scales = NoaaScales::default();
    assert_eq!(scales.radio_blackout.scale, "R0");
    assert_eq!(scales.solar_radiation.text, "None");
    assert_eq!(scales.forecast_day3.geomagnetic_storm.scale, "G0");
}

#[test]
fn flare_feed_skips_entries_without_begin_time_and_falls_back_on_class() {
    let data = parse_array(
        r#"[
            {"end_time": "2025-01-15T11:45:00Z", "max_class": "X1.0"},
            {"begin_time": "Unk", "max_class": "X2.0"},
            {"begin_time": "2025-01-16T08:00:00Z", "end_time": "unk", "current_class": "C3.1",
             "source_location": "S10W05", "active_region": 3600},
            {"begin_time": "2025-01-17T09:00:00Z", "max_time": ""}
        ]"#,
    );
    let result = FlareData::from_json(data).unwrap();
    assert_eq!(result.flares.len(), 2);
    let first = &result.flares[0];
    assert_eq!(first.begin_time, "2025-01-16T08:00:00Z");
    assert!(first.is_ongoing());
    assert_eq!(first.class_type, "C3.1");
    assert_eq!(first.source_location.as_deref(), Some("S10W05"));
    assert_eq!(first.active_region, Some(3600));
    let second = &result.flares[1];
    assert_eq!(second.class_type, "A0.0");
    assert_eq!(second.peak_time, None);
    assert_eq!(second.class_letter(), 'A');
}

#[test]
fn latest_flare_is_the_first() {
    assert!(FlareData::default().get_latest().is_none());
    let data = parse_array(
        r#"[{"begin_time": "2025-01-16T08:00:00Z", "max_class": "X1.2"},
            {"begin_time": "2025-01-15T08:00:00Z", "max_class": "M1.0"}]"#,
    );
    let result = FlareData::from_json(data).unwrap();
    assert_eq!(result.get_latest().unwrap().class_type, "X1.2");
}

#[test]
fn flare_event_text_lays_out_the_panel() {
    let flare = XRayFlare {
        begin_time: "2025-01-01T12:00:05.123Z".to_string(),
        end_time: Some("2025-01-01T13:00:00Z".to_string()),
        peak_time: Some("2025-01-01".to_string()),
        class_type: "M4.8".to_string(),
        begin_class: None,
        end_class: None,
        source_location: Some("N12E34".to_string()),
        active_region: Some(3514),
    };
    let t = flare.event_text();
    assert_eq!(t.start, "2025-01-01 12:00:05");
    assert_eq!(t.peak, "--:--:--");
    assert_eq!(t.end, "13:00:00Z");
    assert_eq!(t.class, "M4.8");
    assert_eq!(t.min_class, "--");
    assert_eq!(t.region, "AR3514");
    assert_eq!(t.location, "N12E34");

    let ongoing = XRayFlare { end_time: None, active_region: None, source_location: None, ..flare };
    let t = ongoing.event_text();
    assert_eq!(t.end, "Ongoing");
    assert_eq!(t.region, "--");
    assert_eq!(t.location, "");
}

#[test]
fn timestamp_pieces() {
    assert_eq!(date_of("2025-01-15T10:30:00Z"), "2025-01-15");
    assert_eq!(date_of("no date"), "no date");
    assert_eq!(clock_of("2025-01-15T10:30:00.5Z"), "10:30:00");
    assert_eq!(clock_of("2025-01-15T10:30T99"), "10:30");
    assert_eq!(clock_of("2025-01-15"), "--:--:--");
}

#[test]
fn class_descriptions() {
    assert_eq!(class_description('X'), "Extreme");
    assert_eq!(class_description('M'), "Strong");
    assert_eq!(class_description('C'), "Moderate");
    assert_eq!(class_description('B'), "Low");
    assert_eq!(class_description('A'), "Minimal");
}

#[test]
fn scale_bars_clamp_to_five_cells() {
    let (f, e) = scale_bar(2);
    assert_eq!(f, "\u{2588}\u{2588}");
    assert_eq!(e, "\u{2591}\u{2591}\u{2591}");
    let (f, e) = scale_bar(9);
    assert_eq!(f.chars().count(), 5);
    assert_eq!(e, "");
    let (f, e) = scale_bar(-3);
    assert_eq!(f, "");
    assert_eq!(e.chars().count(), 5);
}

#[test]
fn kp_gauge_words() {
    assert_eq!(kp_activity(0), "Quiet");
    assert_eq!(kp_activity(3), "Unsettled");
    assert_eq!(kp_activity(5), "Minor Storm");
    assert_eq!(kp_activity(9), "Extreme Storm");
    assert_eq!(kp_activity(10), "");
    assert_eq!(kp_band(3), KpBand::Low);
    assert_eq!(kp_band(4), KpBand::Medium);
    assert_eq!(kp_band(7), KpBand::High);
    assert_eq!(kp_band(8), KpBand::Extreme);
}

#[test]
fn launch_site_names() {
    assert_eq!(map_site_name("Vandenberg SFB, CA, USA"), "Vandenberg SFB");
    assert_eq!(map_site_name("Kennedy Space Center, FL, USA"), "Cape Canaveral");
    assert_eq!(map_site_name("SpaceX Starbase, TX, USA"), "Starbase");
    assert_eq!(map_site_name("Guiana Space Centre, French Guiana"), "Guiana Space Centre");
    assert_eq!(map_site_name("Mahia Peninsula, New Zealand"), "");
}

const LAUNCH: &str = r#"{
    "net": "2030-05-01T12:00:00Z",
    "window_start": "2030-05-01T11:30:00Z",
    "rocket": {"configuration": {"name": "Falcon 9"}},
    "mission": {"name": "Demo", "orbit": {"abbrev": "LEO"}},
    "pad": {"location": {"name": "Cape Canaveral SFS, FL, USA"}}
}"#;

#[test]
fn launch_is_read_from_its_entry() {
    let launch = UpcomingLaunch::from_json(&parse(LAUNCH)).unwrap();
    assert_eq!(launch.vehicle, "Falcon 9");
    assert_eq!(launch.mission, "Demo");
    assert_eq!(launch.orbit, "LEO");
    assert_eq!(launch.site, "Cape Canaveral");
    assert_eq!(launch.net, UtcTime { unix_secs: 1903867200, nanos: 0 });
    assert_eq!(launch.window_start, UtcTime { unix_secs: 1903865400, nanos: 0 });
}

#[test]
fn launch_with_bad_time_is_refused() {
    let text = LAUNCH.replace("2030-05-01T12:00:00Z", "soon");
    match UpcomingLaunch::from_json(&parse(&text)) {
        Err(DataError::InvalidTimestamp(_)) => {}
        _ => panic!("expected an invalid timestamp"),
    }
    let text = LAUNCH.replace("\"net\"", "\"when\"");
    match UpcomingLaunch::from_json(&parse(&text)) {
        Err(DataError::MissingField(_)) => {}
        _ => panic!("expected a missing field"),
    }
}

#[test]
fn next_launch_skips_past_launches() {
    let response = format!(
        r#"{{"results": [{}, {}]}}"#,
        LAUNCH.replace("2030", "2020"),
        LAUNCH.replace("Demo", "Later")
    );
    let now = UtcTime { unix_secs: 1700000000, nanos: 0 };
    let launch = next_launch(&parse(&response), now).unwrap().unwrap();
    assert_eq!(launch.mission, "Later");
    let late = UtcTime { unix_secs: 2000000000, nanos: 0 };
    assert!(next_launch(&parse(&response), late).unwrap().is_none());
    assert!(next_launch(&parse(r#"{"count": 0}"#), now).is_err());
}

#[test]
fn launch_texts_with_given_times() {
    let t = UtcTime { unix_secs: 5, nanos: 7 };
    let w = UtcTime { unix_secs: 4, nanos: 0 };
    let launch = UpcomingLaunch::with_times(&parse(r#"{"mission": {"name": "Probe"}}"#), t, w);
    assert_eq!(launch.net, t);
    assert_eq!(launch.window_start, w);
    assert_eq!(launch.vehicle, "Unknown");
    assert_eq!(launch.mission, "Probe");
    assert_eq!(launch.orbit, "--");
    assert_eq!(launch.site, "");
}

#[test]
fn first_upcoming_launch_from_a_tracked_site() {
    let entry = parse(LAUNCH);
    let at = |secs: i64, site_entry: &JsonValue| {
        UpcomingLaunch::with_times(site_entry, UtcTime { unix_secs: secs, nanos: 0 }, UtcTime { unix_secs: secs, nanos: 0 })
    };
    let untracked = parse(r#"{"pad": {"location": {"name": "Somewhere"}}}"#);
    let now = UtcTime { unix_secs: 100, nanos: 0 };
    let launches = vec![None, Some(at(50, &entry)), Some(at(200, &untracked)), Some(at(100, &entry)), Some(at(300, &entry))];
    assert_eq!(first_upcoming(&launches, now), Some(4));
    let later = UtcTime { unix_secs: 100, nanos: 1 };
    assert_eq!(first_upcoming(&launches[..4].to_vec(), later), None);
    let just_after = vec![Some(at(100, &entry))];
    assert_eq!(first_upcoming(&just_after, UtcTime { unix_secs: 99, nanos: 999_999_999 }), Some(0));
}

#[test]
fn scale_levels_read_back_what_was_written() {
    for &n in &[0, 1, 5, -1, 12345, i32::MAX, i32::MIN] {
        for c in ['R', 'S', 'G', '\u{e9}'] {
            assert_eq!(parse_scale_level(&format!("{}{}", c, n)), n);
        }
    }
}
