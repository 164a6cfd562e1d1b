use greg::beat_confirmation::ConfirmedBeat;
use greg::clock::ClockState;
use greg::pll::{find_nearest_confirmed, signed_diff, Pll};
use greg::state::{SharedState, SystemState};

const MS: u64 = 1_000_000;
const BASE: u64 = 1_000_000_000_000;

fn make_confirmed(base: u64, offsets_ms: &[u64]) -> Vec<ConfirmedBeat> {
    offsets_ms.iter().map(|&ms| ConfirmedBeat { timestamp: base + ms * MS }).collect()
}

fn bpm_of(milli: i64) -> f64 {
    milli as f64 / 1000.0
}

#[test]
fn detected_bpm_from_regular_beats() {
    let pll = Pll::new();
    let base = BASE;
    let confirmed = make_confirmed(base, &[0, 500, 1000, 1500, 2000]);
    let bpm = pll.detected_bpm(&confirmed, base + 2100 * MS);
    assert!(bpm.is_some());
    let bpm = bpm_of(bpm.unwrap());
    assert!((bpm - 120.0).abs() < 1.0, "expected ~120 BPM, got {bpm}");
}

#[test]
fn detected_bpm_insufficient_beats() {
    let pll = Pll::new();
    let base = BASE;
    let confirmed = make_confirmed(base, &[0, 500]);
    let bpm = pll.detected_bpm(&confirmed, base + 600 * MS);
    assert!(bpm.is_none());
}

#[test]
fn rate_correction_nudges_toward_detected() {
    let mut pll = Pll::new();
    let base = BASE;
    let confirmed = make_confirmed(base, &[0, 500, 1000, 1500, 2000]);
    let mut clock_state = ClockState::new(110_000);
    let mut system_state = SharedState::new();
    system_state.set(SystemState::RateLocking);

    let clock_beats = vec![base + 1000 * MS, base + 1500 * MS];

    for _ in 0..5 {
        pll.update(base, &clock_beats, &confirmed, &mut system_state, &mut clock_state);
    }

    assert!(
        clock_state.base_bpm() > 110_000,
        "expected BPM to increase from 110, got {}",
        bpm_of(clock_state.base_bpm())
    );
}

#[test]
fn state_transitions_idle_to_rate_locking() {
    let mut pll = Pll::new();
    let base = BASE;
    let confirmed = make_confirmed(base, &[0, 500, 1000, 1500, 2000]);
    let mut clock_state = ClockState::new(120_000);
    let mut system_state = SharedState::new();

    assert_eq!(system_state.get(), SystemState::Idle);

    pll.update(base, &[], &confirmed, &mut system_state, &mut clock_state);

    assert_eq!(system_state.get(), SystemState::RateLocking);
}

#[test]
fn state_transitions_rate_locking_to_locked() {
    let mut pll = Pll::new();
    let base = BASE;
    let confirmed = make_confirmed(base, &[0, 500, 1000, 1500, 2000]);
    let mut clock_state = ClockState::new(120_000);
    let mut system_state = SharedState::new();
    system_state.set(SystemState::RateLocking);

    let clock_beats = vec![base + 1000 * MS, base + 1500 * MS];

    pll.update(base, &clock_beats, &confirmed, &mut system_state, &mut clock_state);

    // BPM already matches — should transition to Locked
    assert_eq!(system_state.get(), SystemState::Locked);
}

#[test]
fn tap_constraint_clamps_detected_bpm() {
    let mut pll = Pll::new();
    pll.set_tap_bpm(100_000);

    let base = BASE;
    // Confirmed beats at 120 BPM
    let confirmed = make_confirmed(base, &[0, 500, 1000, 1500, 2000]);
    let mut clock_state = ClockState::new(100_000);
    let mut system_state = SharedState::new();
    system_state.set(SystemState::RateLocking);

    let clock_beats = vec![base + 1000 * MS];

    for _ in 0..20 {
        pll.update(base, &clock_beats, &confirmed, &mut system_state, &mut clock_state);
    }

    // Should be clamped to tap_bpm + 5 = 105, not 120
    assert!(
        clock_state.base_bpm() <= 106_000,
        "expected BPM clamped to ~105, got {}",
        bpm_of(clock_state.base_bpm())
    );
}

#[test]
fn phase_correction_activates_in_locked() {
    let mut pll = Pll::new();
    let base = BASE;

    // Confirmed beats slightly ahead of clock beats
    let confirmed = make_confirmed(base, &[10, 510, 1010, 1510, 2010]);
    let mut clock_state = ClockState::new(120_000);
    let mut system_state = SharedState::new();
    system_state.set(SystemState::Locked);

    let clock_beats = vec![base + 1000 * MS, base + 1500 * MS];

    pll.update(base, &clock_beats, &confirmed, &mut system_state, &mut clock_state);

    // With 10ms offset, phase correction should activate
    let offset = clock_state.temporary_offset();
    assert!(offset.abs() > 0, "expected nonzero temporary offset, got {offset}");
}

#[test]
fn detected_bpm_exact_value_and_median() {
    // Intervals 400, 500, 600 ms: the median is 500 ms, 120 BPM exactly.
    let pll = Pll::new();
    let confirmed = make_confirmed(BASE, &[0, 400, 900, 1500]);
    assert_eq!(pll.detected_bpm(&confirmed, BASE + 1600 * MS), Some(120_000));
}

#[test]
fn detected_bpm_ignores_old_and_implausible_beats() {
    let pll = Pll::new();
    // Beats older than 3 s are ignored: only three recent remain.
    let confirmed = make_confirmed(BASE, &[0, 500, 3500, 4000, 4500]);
    assert_eq!(pll.detected_bpm(&confirmed, BASE + 5000 * MS), None);
    // Intervals of 50 ms are implausible: too few intervals remain.
    let dense = make_confirmed(BASE, &[0, 50, 100, 150, 650]);
    assert_eq!(pll.detected_bpm(&dense, BASE + 700 * MS), None);
}

#[test]
fn rate_nudge_is_at_most_one_bpm_and_stops_at_target() {
    let mut pll = Pll::new();
    let confirmed = make_confirmed(BASE, &[0, 500, 1000, 1500, 2000]);
    let mut clock_state = ClockState::new(117_500);
    let mut system_state = SharedState::new();
    system_state.set(SystemState::RateLocking);
    pll.update(BASE, &[], &confirmed, &mut system_state, &mut clock_state);
    assert_eq!(clock_state.base_bpm(), 118_500);
    assert_eq!(system_state.get(), SystemState::RateLocking);
    pll.update(BASE, &[], &confirmed, &mut system_state, &mut clock_state);
    assert_eq!(clock_state.base_bpm(), 119_500);
    assert_eq!(system_state.get(), SystemState::Locked);
    pll.update(BASE, &[], &confirmed, &mut system_state, &mut clock_state);
    assert_eq!(clock_state.base_bpm(), 120_000);
}

#[test]
fn locked_falls_back_and_clears_offset() {
    let mut pll = Pll::new();
    let confirmed = make_confirmed(BASE, &[0, 500, 1000, 1500, 2000]);
    let mut clock_state = ClockState::new(100_000);
    clock_state.set_temporary_offset(2_000);
    let mut system_state = SharedState::new();
    system_state.set(SystemState::Locked);
    pll.update(BASE, &[], &confirmed, &mut system_state, &mut clock_state);
    assert_eq!(system_state.get(), SystemState::RateLocking);
    assert_eq!(clock_state.temporary_offset(), 0);
    assert_eq!(clock_state.base_bpm(), 101_000);
}

#[test]
fn locking_clears_tap_constraint() {
    let mut pll = Pll::new();
    pll.set_tap_bpm(119_000);
    let confirmed = make_confirmed(BASE, &[0, 500, 1000, 1500, 2000]);
    let mut clock_state = ClockState::new(119_000);
    let mut system_state = SharedState::new();
    system_state.set(SystemState::RateLocking);
    pll.update(BASE, &[], &confirmed, &mut system_state, &mut clock_state);
    assert_eq!(system_state.get(), SystemState::Locked);
    assert_eq!(clock_state.base_bpm(), 120_000);
}

#[test]
fn phase_correction_negative_and_within_threshold() {
    let confirmed_late = make_confirmed(BASE, &[0, 500, 990, 1490, 2000]);
    let mut pll = Pll::new();
    let mut clock_state = ClockState::new(120_000);
    let mut system_state = SharedState::new();
    system_state.set(SystemState::Locked);
    let clock_beats = vec![BASE + 1000 * MS, BASE + 1500 * MS];
    pll.update(BASE, &clock_beats, &confirmed_late, &mut system_state, &mut clock_state);
    assert_eq!(clock_state.temporary_offset(), -2_000);

    let confirmed_close = make_confirmed(BASE, &[0, 500, 1003, 1503, 2000]);
    pll.update(BASE, &clock_beats, &confirmed_close, &mut system_state, &mut clock_state);
    assert_eq!(clock_state.temporary_offset(), 0);
}

#[test]
fn pll_comparison_averages_last_two_beats() {
    let pll = Pll::new();
    let confirmed = make_confirmed(BASE, &[1010, 1506]);
    let clock_beats = vec![BASE, BASE + 1000 * MS, BASE + 1500 * MS];
    let avg = pll.pll_comparison(&clock_beats, &confirmed).unwrap();
    assert_eq!(avg.nanos(), 8 * MS as i128);
    assert!(pll.pll_comparison(&clock_beats[..1], &confirmed).is_none());
    assert!(pll.pll_comparison(&clock_beats, &[]).is_none());
}

#[test]
fn find_nearest_prefers_first_of_equally_near() {
    let confirmed = make_confirmed(BASE, &[990, 1010, 1200]);
    assert_eq!(find_nearest_confirmed(BASE + 1000 * MS, &confirmed, 250 * MS), Some(0));
    assert_eq!(find_nearest_confirmed(BASE + 1190 * MS, &confirmed, 250 * MS), Some(2));
    assert_eq!(find_nearest_confirmed(BASE + 5000 * MS, &confirmed, 250 * MS), None);
}

#[test]
fn signed_duration_operations() {
    let d = signed_diff(5, 12);
    assert_eq!(d.nanos(), -7);
    assert_eq!(d.unsigned_abs(), 7);
    assert!(!d.is_positive());
    let e = signed_diff(12, 5);
    assert!(e.is_positive());
    assert!(!signed_diff(3, 3).is_positive());
}
