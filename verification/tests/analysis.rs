use greg::analysis::{candidate_timestamps, record_analysis_run, window_samples};
use greg::beat_confirmation::{BeatConfirmation, ConfirmedBeat};

const MS: i64 = 1_000_000;

#[test]
fn window_of_five_seconds() {
    assert_eq!(window_samples(44_100), 220_500);
}

#[test]
fn candidates_are_placed_before_the_anchor() {
    let anchor: u64 = 10_000_000_000;
    // A beat 4.5 s into a 5 s window lies 0.5 s before its end.
    let r = candidate_timestamps(anchor, &[4_500 * MS, 5_000 * MS, 5_200 * MS]);
    assert_eq!(r, vec![9_500_000_000, 10_000_000_000, 10_200_000_000]);
}

#[test]
fn candidates_before_clock_start_are_dropped() {
    let anchor: u64 = 2_000_000_000;
    let r = candidate_timestamps(anchor, &[1_000 * MS, 3_000 * MS, 4_000 * MS]);
    assert_eq!(r, vec![0, 1_000_000_000]);
}

#[test]
fn published_beats_replaced_only_by_new_confirmations() {
    let mut bc = BeatConfirmation::new();
    let mut published = vec![ConfirmedBeat { timestamp: 7 }];
    record_analysis_run(&mut bc, vec![1_000_000_000], &mut published);
    record_analysis_run(&mut bc, vec![1_005_000_000], &mut published);
    assert_eq!(published.len(), 1);
    assert_eq!(published[0].timestamp, 7);
    record_analysis_run(&mut bc, vec![1_010_000_000], &mut published);
    assert_eq!(published.len(), 1);
    assert_eq!(published[0].timestamp, 1_005_000_000);
    assert_eq!(bc.run_count(), 3);
}
