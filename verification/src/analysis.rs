//! The decisions of the analysis loop: turning detected beat positions into
//! candidate timestamps, and publishing the beats confirmed across runs.
use vstd::prelude::*;

use crate::beat_confirmation::{
    beat_timestamps, confirmed_timestamps, runs_after_add, BeatConfirmation, ConfirmedBeat,
};

verus! {

/// Seconds of audio analysed per run.
pub const ANALYSIS_WINDOW_SECS: usize = 5;

/// Nanoseconds of audio analysed per run.
pub const ANALYSIS_WINDOW_NANOS: i64 = 5_000_000_000;

/// Number of samples in one analysis window.
pub fn window_samples(sample_rate: u32) -> (n: usize)
    requires
        sample_rate as int * ANALYSIS_WINDOW_SECS <= usize::MAX,
    ensures
        n == sample_rate as int * ANALYSIS_WINDOW_SECS,
{
    sample_rate as usize * ANALYSIS_WINDOW_SECS
}

/// The timestamp of a beat detected at `position` nanoseconds into a window that ends at
/// `anchor`; none when it would lie before the start of the clock.
pub open spec fn candidate_of(anchor: u64, position: i64) -> Option<u64> {
    let offset_from_end = ANALYSIS_WINDOW_NANOS - position;
    if offset_from_end >= 0 {
        if anchor >= offset_from_end {
            Some((anchor - offset_from_end) as u64)
        } else {
            None
        }
    } else {
        Some((anchor - offset_from_end) as u64)
    }
}

pub open spec fn candidate_at(anchor: u64) -> spec_fn(i64) -> Option<u64> {
    |position: i64| candidate_of(anchor, position)
}

/// No detected position lands beyond the end of the clock.
pub open spec fn positions_fit(anchor: u64, positions: Seq<i64>) -> bool {
    forall|k: int| 0 <= k < positions.len() ==> anchor - (ANALYSIS_WINDOW_NANOS - #[trigger] positions[k]) <= u64::MAX
}

/// The candidate timestamps of the beats detected at `positions` (nanoseconds into the
/// window ending at `anchor`), in the order detected.
pub fn candidate_timestamps(anchor: u64, positions: &[i64]) -> (r: Vec<u64>)
    requires
        positions_fit(anchor, positions@),
    ensures
        r@ == positions@.filter_map(candidate_at(anchor)),
{
    let mut r: Vec<u64> = Vec::new();
    let mut k: usize = 0;
    while k < positions.len()
        invariant
            k <= positions@.len(),
            positions_fit(anchor, positions@),
            r@ == positions@.take(k as int).filter_map(candidate_at(anchor)),
        decreases positions.len() - k,
    {
        let pos = positions[k];
        proof {
            positions@.lemma_filter_map_take_succ(candidate_at(anchor), k as int);
            assert(anchor - (ANALYSIS_WINDOW_NANOS - positions@[k as int]) <= u64::MAX);
        }
        let offset_from_end: i128 = ANALYSIS_WINDOW_NANOS as i128 - pos as i128;
        if offset_from_end >= 0 {
            if anchor as i128 >= offset_from_end {
                r.push((anchor as i128 - offset_from_end) as u64);
            }
        } else {
            r.push((anchor as i128 - offset_from_end) as u64);
        }
        k += 1;
    }
    assert(positions@.take(k as int) =~= positions@);
    r
}

/// Records the candidates of one analysis run and publishes the confirmed beats: the
/// published beats are replaced by the newly confirmed ones unless none are confirmed.
pub fn record_analysis_run(
    confirmation: &mut BeatConfirmation,
    candidates: Vec<u64>,
    published: &mut Vec<ConfirmedBeat>,
)
    ensures
        final(confirmation)@ == runs_after_add(old(confirmation)@, candidates@),
        confirmed_timestamps(final(confirmation)@).len() > 0 ==> beat_timestamps(final(published)@)
            == confirmed_timestamps(final(confirmation)@),
        confirmed_timestamps(final(confirmation)@).len() == 0 ==> final(published)@ == old(published)@,
{
    confirmation.add_candidates(candidates);
    let newly_confirmed = confirmation.confirm();
    if newly_confirmed.len() > 0 {
        *published = newly_confirmed;
    }
}

} // verus!
