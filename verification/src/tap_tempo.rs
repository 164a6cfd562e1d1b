//! Tempo from taps: three taps give a tempo, later taps refine it.
use vstd::prelude::*;

use crate::clock::{elapsed_since, NANOS_PER_MINUTE_MILLI};

verus! {

/// A pause longer than this starts a new series of taps (3 s).
pub const TAP_TIMEOUT_NANOS: u64 = 3_000_000_000;

/// Taps needed for a first tempo.
pub const MIN_TAPS: usize = 3;

/// A tapped tempo.
#[derive(Debug, Clone, Copy)]
pub struct TapResult {
    /// Milli-BPM.
    pub bpm: i64,
}

/// The timestamps of the current series of taps (nanoseconds).
pub struct TapTempo {
    timestamps: Vec<u64>,
}

impl View for TapTempo {
    type V = Seq<u64>;

    closed spec fn view(&self) -> Seq<u64> {
        self.timestamps@
    }
}

/// The series after a tap at `now`: a pause longer than the timeout starts a new series.
pub open spec fn taps_after(taps: Seq<u64>, now: u64) -> Seq<u64> {
    if taps.len() > 0 && elapsed_since(now, taps.last()) > TAP_TIMEOUT_NANOS {
        seq![now]
    } else {
        taps.push(now)
    }
}

/// The tempo of a series: none below `MIN_TAPS` taps; with exactly `MIN_TAPS`, one minute
/// over the mean of the two intervals; with more, one minute over the last interval.
/// None when that interval is zero.
pub open spec fn spec_tap_bpm(taps: Seq<u64>) -> Option<i64> {
    let n = taps.len();
    if n < MIN_TAPS {
        None
    } else if n == MIN_TAPS {
        let total = elapsed_since(taps[n - 1], taps[0]);
        if total > 0 {
            Some(((NANOS_PER_MINUTE_MILLI as int * (MIN_TAPS - 1)) / total) as i64)
        } else {
            None
        }
    } else {
        let interval = elapsed_since(taps[n - 1], taps[n - 2]);
        if interval > 0 {
            Some((NANOS_PER_MINUTE_MILLI as int / interval) as i64)
        } else {
            None
        }
    }
}

/// Three taps `d` nanoseconds apart give one minute over `d`: the tempo of the taps.
pub proof fn lemma_even_taps_give_their_tempo(t: u64, d: u64)
    requires
        d > 0,
        t + 2 * d <= u64::MAX,
    ensures
        spec_tap_bpm(seq![t, (t + d) as u64, (t + 2 * d) as u64]) == Some((NANOS_PER_MINUTE_MILLI / d) as i64),
{
    let taps = seq![t, (t + d) as u64, (t + 2 * d) as u64];
    assert(elapsed_since(taps[2], taps[0]) == 2 * d);
    vstd::arithmetic::div_mod::lemma_div_multiples_vanish(NANOS_PER_MINUTE_MILLI as int, 2);
    vstd::arithmetic::div_mod::lemma_div_denominator(NANOS_PER_MINUTE_MILLI as int * 2, 2, d as int);
    assert((NANOS_PER_MINUTE_MILLI as int * 2) / (2 * d as int) == NANOS_PER_MINUTE_MILLI as int / d as int) by {
        assert((NANOS_PER_MINUTE_MILLI as int * 2) / 2 == NANOS_PER_MINUTE_MILLI as int);
    }
}

/// Once a series has `MIN_TAPS` taps, a further tap `d` nanoseconds after the last one
/// (no longer than the timeout) gives one minute over `d`, whatever the earlier intervals.
pub proof fn lemma_later_tap_uses_last_interval(taps: Seq<u64>, d: u64)
    requires
        taps.len() >= MIN_TAPS,
        0 < d <= TAP_TIMEOUT_NANOS,
        taps.last() + d <= u64::MAX,
    ensures
        taps_after(taps, (taps.last() + d) as u64).len() == taps.len() + 1,
        spec_tap_bpm(taps_after(taps, (taps.last() + d) as u64)) == Some((NANOS_PER_MINUTE_MILLI / d) as i64),
{
    let next = taps_after(taps, (taps.last() + d) as u64);
    assert(next == taps.push((taps.last() + d) as u64));
    assert(next[next.len() - 2] == taps.last());
}

impl TapTempo {
    /// No taps yet.
    pub fn new() -> (t: Self)
        ensures
            t@ == Seq::<u64>::empty(),
    {
        TapTempo { timestamps: Vec::new() }
    }

    /// Records a tap at `now` and returns the tempo of the series, if there is one.
    pub fn tap(&mut self, now: u64) -> (r: Option<TapResult>)
        ensures
            final(self)@ == taps_after(old(self)@, now),
            r is None <==> spec_tap_bpm(final(self)@) is None,
            r matches Some(t) ==> spec_tap_bpm(final(self)@) == Some(t.bpm),
    {
        let len = self.timestamps.len();
        if len > 0 {
            let last = self.timestamps[len - 1];
            let since: u64 = if now >= last { now - last } else { 0 };
            if since > TAP_TIMEOUT_NANOS {
                self.timestamps.clear();
            }
        }
        self.timestamps.push(now);
        assert(self@ =~= taps_after(old(self)@, now));

        let n = self.timestamps.len();
        if n < MIN_TAPS {
            return None;
        }
        if n == MIN_TAPS {
            let first = self.timestamps[0];
            let last = self.timestamps[n - 1];
            let total: u64 = if last >= first { last - first } else { 0 };
            if total > 0 {
                let bpm = (2 * NANOS_PER_MINUTE_MILLI) / total;
                Some(TapResult { bpm: bpm as i64 })
            } else {
                None
            }
        } else {
            let a = self.timestamps[n - 2];
            let b = self.timestamps[n - 1];
            let interval: u64 = if b >= a { b - a } else { 0 };
            if interval > 0 {
                let bpm = NANOS_PER_MINUTE_MILLI / interval;
                Some(TapResult { bpm: bpm as i64 })
            } else {
                None
            }
        }
    }
}

} // verus!
