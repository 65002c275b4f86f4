use solardash::alerts::{AlertSound, AlertState};
use solardash::flare::{FlareData, XRayFlare};
use solardash::scales::NoaaScales;
use solardash::ui::{
    clock_column, countdown, footer_labels, format_utc_offset, launch_refresh_due, screen_fit, truncate_str,
    tz_display, Countdown, ScreenFit, UiKey, UiState,
};

fn scales(g: &str, s: &str, r: &str) -> NoaaScales {
    let mut sc = NoaaScales::default();
    sc.geomagnetic_storm.scale = g.to_string();
    sc.solar_radiation.scale = s.to_string();
    sc.radio_blackout.scale = r.to_string();
    sc
}

fn flares(class: &str) -> FlareData {
    FlareData {
        flares: vec![XRayFlare {
            begin_time: "2025-01-01T12:00:00Z".to_string(),
            end_time: None,
            peak_time: None,
            class_type: class.to_string(),
            begin_class: None,
            end_class: None,
            source_location: None,
            active_region: None,
        }],
    }
}

#[test]
fn first_refresh_only_records() {
    let mut a = AlertState::new();
    assert!(a.check_and_play(&scales("G4", "S3", "R2"), &flares("X1.0"), true).is_empty());
    assert!(a.check_and_play(&scales("G4", "S3", "R2"), &flares("X1.0"), true).is_empty());
}

#[test]
fn rises_play_capped_clips_in_order() {
    let mut a = AlertState::default();
    a.check_and_play(&scales("G0", "S0", "R0"), &FlareData::default(), true);
    let sounds = a.check_and_play(&scales("G4", "S1", "R2"), &flares("X2.0"), true);
    assert_eq!(
        sounds,
        vec![
            AlertSound::Geomagnetic(3),
            AlertSound::SolarRadiation(1),
            AlertSound::RadioBlackout(2),
            AlertSound::XClassFlare
        ]
    );
    let names: Vec<String> = sounds.iter().map(|s| s.clip_name()).collect();
    assert_eq!(names, vec!["G3.wav", "S1.wav", "R2.wav", "XClass.wav"]);
    assert!(a.check_and_play(&scales("G4", "S1", "R2"), &flares("X2.0"), true).is_empty());
    assert!(a.check_and_play(&scales("G3", "S0", "R1"), &flares("M2.0"), true).is_empty());
}

#[test]
fn muted_alerts_still_track_levels() {
    let mut a = AlertState::new();
    a.check_and_play(&scales("G0", "S0", "R0"), &FlareData::default(), false);
    assert!(a.check_and_play(&scales("G2", "S0", "R0"), &FlareData::default(), false).is_empty());
    assert!(a.check_and_play(&scales("G2", "S0", "R0"), &FlareData::default(), true).is_empty());
    assert_eq!(
        a.check_and_play(&scales("G3", "S0", "R0"), &FlareData::default(), true),
        vec![AlertSound::Geomagnetic(3)]
    );
}

#[test]
fn keys_drive_the_state() {
    let mut s = UiState::new();
    assert!(s.refresh_requested && !s.show_info && !s.show_launch_lines && !s.audio_alerts);
    assert!(s.take_refresh());
    assert!(!s.take_refresh());
    assert!(!s.handle_key(UiKey::Char('i')));
    assert!(s.show_info);
    assert!(!s.handle_key(UiKey::Char('I')));
    assert!(!s.show_info);
    assert!(!s.handle_key(UiKey::Char('l')));
    assert!(!s.handle_key(UiKey::Char('a')));
    assert!(s.show_launch_lines && s.audio_alerts);
    assert!(!s.handle_key(UiKey::Char('R')));
    assert!(s.refresh_requested);
    assert!(!s.handle_key(UiKey::Other));
    let before = s;
    assert!(s.handle_key(UiKey::Char('q')));
    assert!(s.handle_key(UiKey::Esc));
    assert_eq!(s, before);
}

#[test]
fn refresh_timing() {
    let mut s = UiState::new();
    s.take_refresh();
    s.tick(299);
    assert!(!s.refresh_requested);
    s.tick(300);
    assert!(s.refresh_requested);
    assert!(!launch_refresh_due(3599));
    assert!(launch_refresh_due(3600));
}

#[test]
fn footer_follows_toggles() {
    let mut s = UiState::new();
    assert_eq!(footer_labels(&s), (" info ", " launchsites ", " sound off "));
    s.handle_key(UiKey::Char('i'));
    s.handle_key(UiKey::Char('l'));
    s.handle_key(UiKey::Char('a'));
    assert_eq!(footer_labels(&s), (" hide info ", " hide links ", " sound on "));
}

#[test]
fn terminal_size_checks() {
    assert_eq!(screen_fit(120, 30), ScreenFit::Fits);
    assert_eq!(screen_fit(200, 50), ScreenFit::Fits);
    assert_eq!(screen_fit(119, 30), ScreenFit::TooSmallLandscape);
    assert_eq!(screen_fit(50, 40), ScreenFit::TooSmallPortrait);
    assert_eq!(screen_fit(150, 29), ScreenFit::TooSmallLandscape);
}

#[test]
fn countdown_fields() {
    assert_eq!(countdown(90061), Countdown::Long { days: 1, hours: 1, mins: 1, secs: 1 });
    assert_eq!(countdown(3600), Countdown::Long { days: 0, hours: 1, mins: 0, secs: 0 });
    assert_eq!(countdown(3599), Countdown::Short { mins: 59, secs: 59 });
    assert_eq!(countdown(0), Countdown::Short { mins: 0, secs: 0 });
    assert_eq!(countdown(-61), Countdown::Elapsed { mins: 1, secs: 1 });
    assert_eq!(countdown(i64::MIN), Countdown::Elapsed { mins: 153722867280912930, secs: 8 });
}

#[test]
fn utc_offset_labels() {
    assert_eq!(format_utc_offset("+0530"), "UTC+5:30");
    assert_eq!(format_utc_offset("-0800"), "UTC-8");
    assert_eq!(format_utc_offset("+0000"), "UTC+0");
    assert_eq!(format_utc_offset("-0330"), "UTC-3:30");
    assert_eq!(format_utc_offset("+0905"), "UTC+9:05");
    assert_eq!(format_utc_offset("+05"), "UTC");
    assert_eq!(format_utc_offset("+xx30"), "UTC+0:30");
}

#[test]
fn time_zone_lines() {
    assert_eq!(tz_display("PST", "-0800"), "PST (UTC-8)");
    assert_eq!(tz_display("+05", "+0500"), "UTC+5");
    assert_eq!(tz_display("-03", "-0300"), "UTC-3");
}

#[test]
fn truncation_keeps_fitting_text() {
    assert_eq!(truncate_str("Falcon 9", 10), "Falcon 9");
    assert_eq!(truncate_str("Falcon 9 Block 5", 10), "Falcon 9..");
    assert_eq!(truncate_str("abc", 1), "..");
    assert_eq!(truncate_str("abcdef", 6), "abcdef");
}

#[test]
fn clock_columns_split_the_row() {
    assert_eq!(clock_column(13, 4, 0), None);
    assert_eq!(clock_column(70, 3, 0), None);
    assert_eq!(clock_column(72, 4, 0), Some((0, 10)));
    assert_eq!(clock_column(72, 4, 3), Some((30, 10)));
    assert_eq!(clock_column(72, 4, 6), Some((60, 12)));
}

#[test]
fn ascii_truncation_keeps_max_len_characters() {
    for max_len in 2..12 {
        let t = truncate_str("Falcon 9 Block 5", max_len);
        assert_eq!(t.chars().count(), max_len);
        assert!(t.ends_with(".."));
        assert!("Falcon 9 Block 5".starts_with(&t[..max_len - 2]));
    }
}

#[test]
fn countdown_lines() {
    assert_eq!(countdown(90061).text(), " T- 01:01:01:01");
    assert_eq!(countdown(12 * 86400 + 10 * 3600 + 5).text(), " T- 12:10:00:05");
    assert_eq!(countdown(125 * 86400).text(), " T- 125:00:00:00");
    assert_eq!(countdown(3599).text(), " T- 59:59");
    assert_eq!(countdown(0).text(), " T- 00:00");
    assert_eq!(countdown(-61).text(), " T+ 01:01");
    assert_eq!(countdown(-7200).text(), " T+ 120:00");
    assert_eq!(Countdown::Short { mins: -5, secs: 7 }.text(), format!(" T- {:02}:{:02}", -5, 7));
}
