use greg::tap_tempo::TapTempo;

const MS: u64 = 1_000_000;

fn bpm_of(milli: i64) -> f64 {
    milli as f64 / 1000.0
}

#[test]
fn three_taps_at_120bpm() {
    let mut tt = TapTempo::new();
    let base: u64 = 1_000_000_000_000;
    let interval = 500 * MS;

    assert!(tt.tap(base).is_none());
    assert!(tt.tap(base + interval).is_none());

    let result = tt.tap(base + interval * 2);
    assert!(result.is_some());
    let bpm = bpm_of(result.unwrap().bpm);
    assert!((bpm - 120.0).abs() < 1.0, "expected ~120 BPM, got {bpm}");
}

#[test]
fn two_taps_not_enough() {
    let mut tt = TapTempo::new();
    let base: u64 = 1_000_000_000_000;
    assert!(tt.tap(base).is_none());
    assert!(tt.tap(base + 500 * MS).is_none());
}

#[test]
fn timeout_resets() {
    let mut tt = TapTempo::new();
    let base: u64 = 1_000_000_000_000;
    let interval = 500 * MS;

    tt.tap(base);
    tt.tap(base + interval);

    // Gap > 3 seconds
    assert!(tt.tap(base + 5_000 * MS).is_none());
    // Need 2 more taps to reach 3
    assert!(tt.tap(base + 5_000 * MS + interval).is_none());
    let result = tt.tap(base + 5_000 * MS + interval * 2);
    assert!(result.is_some());
}

#[test]
fn fourth_tap_updates_bpm() {
    let mut tt = TapTempo::new();
    let base: u64 = 1_000_000_000_000;
    let slow = 500 * MS;
    let fast = 400 * MS;

    tt.tap(base);
    tt.tap(base + slow);
    let r1 = tt.tap(base + slow * 2).unwrap();
    assert!((bpm_of(r1.bpm) - 120.0).abs() < 1.0);

    // 4th tap at faster interval
    let r2 = tt.tap(base + slow * 2 + fast).unwrap();
    assert!((bpm_of(r2.bpm) - 150.0).abs() < 1.0, "expected ~150 BPM, got {}", bpm_of(r2.bpm));
}

#[test]
fn three_taps_use_mean_interval_exactly() {
    // Intervals 400 ms and 600 ms: mean 500 ms, so exactly 120 BPM.
    let mut tt = TapTempo::new();
    tt.tap(0);
    tt.tap(400 * MS);
    let r = tt.tap(1000 * MS).unwrap();
    assert_eq!(r.bpm, 120_000);
}

#[test]
fn pause_of_exactly_timeout_keeps_series() {
    // A pause of exactly 3 s does not start a new series; one longer does.
    let mut tt = TapTempo::new();
    tt.tap(0);
    tt.tap(3_000 * MS);
    let r = tt.tap(6_000 * MS).unwrap();
    assert_eq!(r.bpm, 20_000);

    let mut tt2 = TapTempo::new();
    tt2.tap(0);
    tt2.tap(500 * MS);
    assert!(tt2.tap(3_500 * MS + 1).is_none());
}

#[test]
fn simultaneous_taps_give_no_tempo() {
    let mut tt = TapTempo::new();
    tt.tap(7);
    tt.tap(7);
    assert!(tt.tap(7).is_none());
}
