use solardash::launch::UtcTime;
use solardash::timestamp::{last_hours_window, latest_sample, parse_timestamp, samples_since, window_start};

fn at(unix_secs: i64, nanos: u32) -> UtcTime {
    UtcTime { unix_secs, nanos }
}

#[test]
fn feed_timestamps_in_every_format() {
    assert_eq!(parse_timestamp("2026-06-24T00:00:00"), Some(at(1782259200, 0)));
    assert_eq!(parse_timestamp("2026-06-24 14:00:00"), Some(at(1782309600, 0)));
    assert_eq!(parse_timestamp("2026-06-24T14:00:00.250"), Some(at(1782309600, 250_000_000)));
    assert_eq!(parse_timestamp("2026-06-24 14:00:00.5"), Some(at(1782309600, 500_000_000)));
}

#[test]
fn feed_timestamps_are_trimmed() {
    assert_eq!(parse_timestamp("  2025-01-15T12:01:00Z\n"), Some(at(1736942460, 0)));
    assert_eq!(parse_timestamp("2025-01-15T12:01:00ZZ"), Some(at(1736942460, 0)));
    assert_eq!(parse_timestamp("\u{a0}2025-01-15 12:01:00 "), Some(at(1736942460, 0)));
}

#[test]
fn bad_feed_timestamps_are_refused() {
    assert_eq!(parse_timestamp(""), None);
    assert_eq!(parse_timestamp("2026-06-24"), None);
    assert_eq!(parse_timestamp("yesterday"), None);
    assert_eq!(parse_timestamp("2026-06-24T25:00:00"), None);
}

#[test]
fn windows_end_at_the_latest_sample() {
    assert_eq!(latest_sample(Some(at(10, 0)), Some(at(12, 0)), at(99, 0)), at(12, 0));
    assert_eq!(latest_sample(Some(at(12, 5)), Some(at(12, 0)), at(99, 0)), at(12, 5));
    assert_eq!(latest_sample(None, Some(at(7, 0)), at(99, 0)), at(7, 0));
    assert_eq!(latest_sample(None, None, at(99, 0)), at(99, 0));
    assert_eq!(window_start(at(1782309600, 7), 6), Some(at(1782309600 - 21600, 7)));
    assert_eq!(window_start(at(1782309600, 7), 0), Some(at(1782309600, 7)));
}

#[test]
fn samples_in_the_window_are_kept_in_order() {
    let times = vec![at(5, 0), at(10, 0), at(9, 999), at(10, 1), at(3, 0), at(20, 0)];
    assert_eq!(samples_since(&times, at(10, 0)), vec![1, 3, 5]);
    assert_eq!(samples_since(&times, at(0, 0)), vec![0, 1, 2, 3, 4, 5]);
    assert!(samples_since(&times, at(21, 0)).is_empty());
}

#[test]
fn window_start_within_and_beyond_chrono_dates() {
    // the first and last seconds that chrono's dates cover
    let first = -8334601228800;
    let last = 8210266876799;
    assert_eq!(window_start(at(first, 0), 0), Some(at(first, 0)));
    assert_eq!(window_start(at(first + 3600, 0), 1), Some(at(first, 0)));
    assert_eq!(window_start(at(first, 0), 1), None);
    assert_eq!(window_start(at(first - 1, 0), 0), None);
    assert_eq!(window_start(at(last, 0), 2), Some(at(last - 7200, 0)));
    assert_eq!(window_start(at(last + 1, 0), 2), None);
    assert_eq!(window_start(at(9_000_000_000_000_000, 0), 1), None);
    assert_eq!(window_start(at(-1, 0), 1), Some(at(-3601, 0)));
}

#[test]
fn window_start_from_a_leap_second() {
    // 2016-12-31T23:59:60.5: the nanoseconds pass 10^9 on the 59th second
    assert_eq!(window_start(at(1483228799, 1_500_000_000), 1), Some(at(1483228800 - 3600, 500_000_000)));
    assert_eq!(window_start(at(1483228799, 1_500_000_000), 0), Some(at(1483228799, 1_500_000_000)));
    assert_eq!(window_start(at(1483228798, 1_500_000_000), 1), None);
    assert_eq!(window_start(at(1483228799, 2_000_000_000), 1), None);
}

#[test]
fn last_hours_of_two_series() {
    let h = 3600;
    let mag = vec![at(0, 0), at(h, 0), at(2 * h, 0), at(3 * h, 0)];
    let plasma = vec![at(h / 2, 0), at(3 * h + 60, 0)];
    // ends at the plasma's last sample, 3h + 60 s; starts two hours earlier
    let (km, kp) = last_hours_window(&mag, &plasma, at(0, 0), 2).unwrap();
    assert_eq!(km, vec![2, 3]);
    assert_eq!(kp, vec![1]);
    // a series of its own: ends at its last sample
    let (kd, ke) = last_hours_window(&mag, &Vec::new(), at(99 * h, 0), 1).unwrap();
    assert_eq!(kd, vec![2, 3]);
    assert!(ke.is_empty());
    // no samples: ends now
    let (ka, kb) = last_hours_window(&Vec::new(), &Vec::new(), at(5, 0), 6).unwrap();
    assert!(ka.is_empty() && kb.is_empty());
    // chrono cannot go that far back
    assert_eq!(last_hours_window(&vec![at(-8334601228800, 0)], &Vec::new(), at(0, 0), 1), None);
}

#[test]
fn last_hours_twice_is_last_hours_once() {
    let h = 3600;
    let mag = vec![at(0, 0), at(h, 0), at(2 * h, 0), at(5 * h, 0)];
    let plasma = vec![at(h, 0), at(4 * h, 0), at(4 * h + 1, 0)];
    let (km, kp) = last_hours_window(&mag, &plasma, at(0, 0), 3).unwrap();
    let mag1: Vec<UtcTime> = km.iter().map(|&i| mag[i]).collect();
    let plasma1: Vec<UtcTime> = kp.iter().map(|&i| plasma[i]).collect();
    assert_eq!(mag1, vec![at(2 * h, 0), at(5 * h, 0)]);
    assert_eq!(plasma1, vec![at(4 * h, 0), at(4 * h + 1, 0)]);
    let (km2, kp2) = last_hours_window(&mag1, &plasma1, at(0, 0), 3).unwrap();
    assert_eq!(km2, vec![0, 1]);
    assert_eq!(kp2, vec![0, 1]);
}

#[test]
fn longer_windows_keep_more() {
    let h = 3600;
    let times = vec![at(0, 0), at(h, 0), at(2 * h, 0), at(3 * h, 0), at(4 * h, 0)];
    let mut previous: Vec<usize> = Vec::new();
    for hours in 0..6 {
        let (kept, _) = last_hours_window(&times, &Vec::new(), at(0, 0), hours).unwrap();
        assert!(previous.iter().all(|i| kept.contains(i)));
        assert_eq!(kept.len(), (hours as usize + 1).min(5));
        previous = kept;
    }
}
