use greg::beat_confirmation::{BeatConfirmation, ConfirmedBeat};

const MS: u64 = 1_000_000;

fn base() -> u64 {
    1_000_000_000_000
}

fn make_instants(base: u64, offsets_ms: &[u64]) -> Vec<u64> {
    offsets_ms.iter().map(|&ms| base + ms * MS).collect()
}

fn offset_ms(beat: &ConfirmedBeat, base: u64) -> u64 {
    (beat.timestamp - base) / MS
}

#[test]
fn three_runs_within_tolerance_confirms() {
    let base = base();
    let mut bc = BeatConfirmation::new();

    bc.add_candidates(make_instants(base, &[1000, 2000]));
    bc.add_candidates(make_instants(base, &[1005, 2010]));
    bc.add_candidates(make_instants(base, &[1010, 2015]));

    let confirmed = bc.confirm();
    assert_eq!(confirmed.len(), 2, "expected 2 confirmed beats");

    let t0_offset = offset_ms(&confirmed[0], base);
    let t1_offset = offset_ms(&confirmed[1], base);
    assert!((1000..=1010).contains(&t0_offset), "first confirmed beat at {t0_offset}ms");
    assert!((2000..=2015).contains(&t1_offset), "second confirmed beat at {t1_offset}ms");
}

#[test]
fn two_runs_not_enough() {
    let base = base();
    let mut bc = BeatConfirmation::new();

    bc.add_candidates(make_instants(base, &[1000]));
    bc.add_candidates(make_instants(base, &[1005]));

    let confirmed = bc.confirm();
    assert!(confirmed.is_empty());
}

#[test]
fn beats_beyond_tolerance_not_merged() {
    let base = base();
    let mut bc = BeatConfirmation::new();

    // 50ms apart — well beyond 20ms tolerance
    bc.add_candidates(make_instants(base, &[1000]));
    bc.add_candidates(make_instants(base, &[1050]));
    bc.add_candidates(make_instants(base, &[1100]));

    let confirmed = bc.confirm();
    assert!(confirmed.is_empty());
}

#[test]
fn oldest_run_dropped_after_max() {
    let base = base();
    let mut bc = BeatConfirmation::new();

    // Add 5 runs all agreeing on beat at 1000ms
    for i in 0..5 {
        bc.add_candidates(make_instants(base, &[1000 + i * 5]));
    }
    assert_eq!(bc.confirm().len(), 1);

    // Add a 6th run with a beat at 5000ms — oldest (1000ms) should be dropped
    bc.add_candidates(make_instants(base, &[5000]));
    assert_eq!(bc.run_count(), 5);
}

#[test]
fn empty_candidates_handled() {
    let mut bc = BeatConfirmation::new();
    bc.add_candidates(vec![]);
    bc.add_candidates(vec![]);
    bc.add_candidates(vec![]);
    let confirmed = bc.confirm();
    assert!(confirmed.is_empty());
}

#[test]
fn median_of_cluster_is_confirmed() {
    // Cluster 1000, 1005, 1010 (ms): the middle candidate is confirmed.
    let base = base();
    let mut bc = BeatConfirmation::new();
    bc.add_candidates(make_instants(base, &[1010]));
    bc.add_candidates(make_instants(base, &[1000]));
    bc.add_candidates(make_instants(base, &[1005]));
    let confirmed = bc.confirm();
    assert_eq!(confirmed.len(), 1);
    assert_eq!(confirmed[0].timestamp, base + 1005 * MS);
}

#[test]
fn tolerance_boundary_is_inclusive() {
    // 20ms after the anchor still joins the cluster; 21ms does not.
    let base = base();
    let mut bc = BeatConfirmation::new();
    bc.add_candidates(make_instants(base, &[1000]));
    bc.add_candidates(make_instants(base, &[1010]));
    bc.add_candidates(make_instants(base, &[1020]));
    assert_eq!(bc.confirm().len(), 1);

    let mut bc2 = BeatConfirmation::new();
    bc2.add_candidates(make_instants(base, &[1000]));
    bc2.add_candidates(make_instants(base, &[1010]));
    bc2.add_candidates(make_instants(base, &[1021]));
    assert!(bc2.confirm().is_empty());
}

#[test]
fn cluster_from_one_run_needs_other_runs() {
    // Three candidates within tolerance, all from the same run: only one run supports.
    let base = base();
    let mut bc = BeatConfirmation::new();
    bc.add_candidates(make_instants(base, &[1000, 1005, 1010]));
    bc.add_candidates(make_instants(base, &[3000]));
    bc.add_candidates(make_instants(base, &[5000]));
    assert!(bc.confirm().is_empty());
}

#[test]
fn confirmed_beats_ascending_and_from_candidates() {
    let base = base();
    let mut bc = BeatConfirmation::default();
    bc.add_candidates(make_instants(base, &[3000, 1000, 2000]));
    bc.add_candidates(make_instants(base, &[2004, 1002, 3001]));
    bc.add_candidates(make_instants(base, &[1001, 3002, 2002]));
    let confirmed = bc.confirm();
    assert_eq!(confirmed.len(), 3);
    let all: Vec<u64> = make_instants(base, &[3000, 1000, 2000, 2004, 1002, 3001, 1001, 3002, 2002]);
    for w in confirmed.windows(2) {
        assert!(w[0].timestamp < w[1].timestamp);
    }
    for b in &confirmed {
        assert!(all.contains(&b.timestamp));
    }
    assert_eq!(confirmed[0].timestamp, base + 1001 * MS);
    assert_eq!(confirmed[1].timestamp, base + 2002 * MS);
    assert_eq!(confirmed[2].timestamp, base + 3001 * MS);
}

#[test]
fn run_count_never_exceeds_five() {
    let mut bc = BeatConfirmation::new();
    for i in 0..12u64 {
        bc.add_candidates(vec![i]);
        assert!(bc.run_count() <= 5);
    }
    assert_eq!(bc.run_count(), 5);
}

#[test]
fn confirmation_ignores_order_of_runs_and_candidates() {
    let base = base();
    let runs: Vec<Vec<u64>> = vec![
        make_instants(base, &[1000, 2000, 3000]),
        make_instants(base, &[1004, 2010]),
        make_instants(base, &[2005, 1008, 3004]),
        make_instants(base, &[3010]),
    ];
    let mut bc1 = BeatConfirmation::new();
    for r in &runs {
        bc1.add_candidates(r.clone());
    }
    let mut bc2 = BeatConfirmation::new();
    for r in runs.iter().rev() {
        let mut rr = r.clone();
        rr.reverse();
        bc2.add_candidates(rr);
    }
    let a: Vec<u64> = bc1.confirm().iter().map(|b| b.timestamp).collect();
    let b: Vec<u64> = bc2.confirm().iter().map(|b| b.timestamp).collect();
    assert_eq!(a.len(), 3);
    assert_eq!(a, b);
}
