use greg::beat_confirmation::ConfirmedBeat;
use greg::clock::{pulse_interval, ClockEngine, ClockState};
use greg::state::{SharedState, SystemState};

#[test]
fn pulse_interval_120bpm() {
    let interval = pulse_interval(120_000);
    let expected = 60.0 / (120.0 * 24.0);
    let diff = (interval as f64 / 1e9 - expected).abs();
    assert!(diff < 1e-6);
}

#[test]
fn pulse_interval_various_bpms() {
    for bpm in [60.0, 90.0, 120.0, 140.0, 180.0] {
        let interval = pulse_interval((bpm * 1000.0) as i64);
        let expected_secs = 60.0 / (bpm * 24.0);
        let diff = (interval as f64 / 1e9 - expected_secs).abs();
        assert!(diff < 1e-9, "BPM {bpm}: interval off by {diff}s");
    }
}

#[test]
fn clock_state_bpm_operations() {
    let mut state = ClockState::new(120_000);
    assert_eq!(state.base_bpm(), 120_000);
    assert_eq!(state.temporary_offset(), 0);
    assert_eq!(state.effective_bpm(), 120_000);

    state.set_base_bpm(130_000);
    state.set_temporary_offset(2_000);
    assert_eq!(state.effective_bpm(), 132_000);
}

#[test]
fn pulse_interval_exact_nanos() {
    assert_eq!(pulse_interval(120_000), 20_833_333);
    assert_eq!(pulse_interval(60_000), 41_666_666);
    assert!(pulse_interval(121_000) <= pulse_interval(120_000));
}

#[test]
fn engine_gates_pulses_by_state() {
    let mut engine = ClockEngine::new();
    let mut clock_state = ClockState::new(120_000);
    let mut system_state = SharedState::new();
    let confirmed: Vec<ConfirmedBeat> = Vec::new();
    // Idle: no pulse is sent.
    assert!(!engine.on_pulse(0, 0, &confirmed, &mut system_state, &mut clock_state));
    system_state.set(SystemState::RateLocking);
    assert!(engine.on_pulse(1, 1, &confirmed, &mut system_state, &mut clock_state));
}

#[test]
fn engine_tap_resets_phase_and_starts_locking() {
    let mut engine = ClockEngine::new();
    let mut clock_state = ClockState::new(120_000);
    clock_state.set_temporary_offset(2_000);
    let mut system_state = SharedState::new();
    engine.on_tap(95_000, 42, &mut clock_state, &mut system_state);
    assert_eq!(clock_state.base_bpm(), 95_000);
    assert_eq!(clock_state.temporary_offset(), 0);
    assert_eq!(system_state.get(), SystemState::RateLocking);
    assert_eq!(engine.pulse_count(), 0);
    assert_eq!(engine.beat_count(), 1);
}

#[test]
fn engine_records_a_beat_every_24_pulses_and_keeps_eight() {
    let mut engine = ClockEngine::new();
    let mut clock_state = ClockState::new(120_000);
    let mut system_state = SharedState::new();
    let confirmed: Vec<ConfirmedBeat> = Vec::new();
    for p in 0..24u64 {
        engine.on_pulse(p, p, &confirmed, &mut system_state, &mut clock_state);
    }
    assert_eq!(engine.beat_count(), 1);
    assert_eq!(engine.pulse_count(), 24);
    for p in 24..(24 * 20) {
        engine.on_pulse(p, p, &confirmed, &mut system_state, &mut clock_state);
    }
    assert_eq!(engine.beat_count(), 8);
    assert_eq!(system_state.get(), SystemState::Idle);
}

#[test]
fn engine_judges_beat_age_on_wall_clock() {
    // Confirmed beats at 0..2 s; the pulse's own time is much later, but on the wall
    // clock they are recent, so a tempo is detected and the system leaves Idle.
    let ms: u64 = 1_000_000;
    let confirmed: Vec<ConfirmedBeat> = [0u64, 500, 1000, 1500, 2000]
        .iter()
        .map(|&t| ConfirmedBeat { timestamp: t * ms })
        .collect();
    let mut engine = ClockEngine::new();
    let mut clock_state = ClockState::new(120_000);
    let mut system_state = SharedState::new();
    assert!(engine.on_pulse(60_000 * ms, 2_100 * ms, &confirmed, &mut system_state, &mut clock_state));
    assert_eq!(system_state.get(), SystemState::RateLocking);

    let mut engine2 = ClockEngine::new();
    let mut system_state2 = SharedState::new();
    assert!(!engine2.on_pulse(2_100 * ms, 60_000 * ms, &confirmed, &mut system_state2, &mut clock_state));
    assert_eq!(system_state2.get(), SystemState::Idle);
}
