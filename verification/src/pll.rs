//! The phase-locked loop that steers the clock toward the confirmed beats.
//!
//! On every clock beat the loop estimates the tempo of the confirmed beats,
//! moves the system between its states, nudges the clock's base tempo toward the
//! estimate, and, once locked, corrects the phase with a temporary tempo offset.
//! Tempos are in milli-BPM; times in nanoseconds.
use vstd::prelude::*;

use crate::beat_confirmation::{beat_timestamps, spec_gap, instant_diff, ConfirmedBeat};
use crate::clock::{elapsed_since, ClockState, ClockView, NANOS_PER_MINUTE_MILLI};
use crate::ordering_util::{ascending, lemma_ascending_properties, sort_ascending};
use crate::state::{SharedState, SystemState};

verus! {

/// The clock counts as converged within this distance of the detected tempo (2 BPM).
pub const BPM_CONVERGENCE_THRESHOLD: i64 = 2_000;

/// A clock beat is compared with confirmed beats at most this far away (250 ms).
pub const PLL_MATCH_WINDOW_NANOS: u64 = 250_000_000;

/// Largest change of the base tempo in one update (1 BPM).
pub const RATE_NUDGE: i64 = 1_000;

/// While locking after a tap, the target tempo stays this close to the tapped tempo (5 BPM).
pub const TAP_CONSTRAINT_RANGE: i64 = 5_000;

/// Phase errors up to this size are left alone (5 ms).
pub const PHASE_CORRECTION_THRESHOLD_NANOS: u64 = 5_000_000;

/// Size of the temporary tempo offset that corrects the phase (2 BPM).
pub const PHASE_CORRECTION_OFFSET: i64 = 2_000;

/// Number of recent confirmed beats needed to estimate a tempo.
pub const MIN_BEATS_FOR_BPM: usize = 4;

/// Confirmed beats older than this are ignored (3 s).
pub const MAX_BEAT_AGE_NANOS: u64 = 3_000_000_000;

/// Beat intervals must be longer than this to count (100 ms).
pub const MIN_BEAT_INTERVAL_NANOS: u64 = 100_000_000;

/// Beat intervals must be shorter than this to count (2 s).
pub const MAX_BEAT_INTERVAL_NANOS: u64 = 2_000_000_000;

/// Tempo differences up to this size are not corrected (0.01 BPM).
pub const RATE_DEADBAND: i64 = 10;

// ---------------------------------------------------------------------------
// Signed durations
// ---------------------------------------------------------------------------

/// A signed span of time in nanoseconds.
#[derive(Debug, Clone, Copy)]
pub struct SignedDuration {
    nanos: i128,
}

impl View for SignedDuration {
    type V = int;

    closed spec fn view(&self) -> int {
        self.nanos as int
    }
}

pub open spec fn spec_abs(x: int) -> int {
    if x >= 0 {
        x
    } else {
        -x
    }
}

/// The magnitude of a signed span, truncated to 64 bits.
pub open spec fn spec_unsigned_abs(x: int) -> u64 {
    spec_abs(x) as u64
}

impl SignedDuration {
    /// The span in nanoseconds.
    pub fn nanos(&self) -> (n: i128)
        ensures
            n == self@,
    {
        self.nanos
    }

    /// The magnitude of the span in nanoseconds, truncated to 64 bits.
    pub fn unsigned_abs(self) -> (d: u64)
        ensures
            d == spec_unsigned_abs(self@),
    {
        let m: u128 = if self.nanos >= 0 {
            self.nanos as u128
        } else {
            (0 - (self.nanos + 1)) as u128 + 1
        };
        m as u64
    }

    /// Whether the span is strictly positive.
    pub fn is_positive(self) -> (b: bool)
        ensures
            b == (self@ > 0),
    {
        self.nanos > 0
    }
}

/// `a - b` as a signed span.
pub fn signed_diff(a: u64, b: u64) -> (d: SignedDuration)
    ensures
        d@ == a - b,
{
    SignedDuration { nanos: a as i128 - b as i128 }
}

// ---------------------------------------------------------------------------
// Matching clock beats with confirmed beats
// ---------------------------------------------------------------------------

/// Index `i` holds the timestamp nearest to `target` among those within `window`, and
/// the first such one.
pub open spec fn is_nearest_within(target: u64, ts: Seq<u64>, window: u64, i: int) -> bool {
    &&& 0 <= i < ts.len()
    &&& spec_gap(ts[i], target) <= window
    &&& forall|j: int|
        0 <= j < ts.len() && spec_gap(ts[j], target) <= window ==> spec_gap(ts[i], target)
            <= #[trigger] spec_gap(ts[j], target)
    &&& forall|j: int|
        0 <= j < i && spec_gap(ts[j], target) <= window ==> spec_gap(ts[i], target)
            < #[trigger] spec_gap(ts[j], target)
}

/// The index of the nearest timestamp within `window` of `target`, if any.
pub open spec fn spec_nearest(target: u64, ts: Seq<u64>, window: u64) -> Option<int> {
    if exists|i: int| is_nearest_within(target, ts, window, i) {
        Some(choose|i: int| is_nearest_within(target, ts, window, i))
    } else {
        None
    }
}

/// At most one index is the nearest within the window.
pub proof fn lemma_nearest_unique(target: u64, ts: Seq<u64>, window: u64, i1: int, i2: int)
    requires
        is_nearest_within(target, ts, window, i1),
        is_nearest_within(target, ts, window, i2),
    ensures
        i1 == i2,
{
    if i1 < i2 {
        assert(spec_gap(ts[i2], target) < spec_gap(ts[i1], target));
    } else if i2 < i1 {
        assert(spec_gap(ts[i1], target) < spec_gap(ts[i2], target));
    }
}

/// The confirmed beat nearest to `target` among those at most `window` away; of equally
/// near ones, the first. `None` when no confirmed beat is that close.
pub fn find_nearest_confirmed(target: u64, confirmed: &[ConfirmedBeat], window: u64) -> (r: Option<usize>)
    ensures
        r is None <==> spec_nearest(target, beat_timestamps(confirmed@), window) is None,
        r matches Some(i) ==> spec_nearest(target, beat_timestamps(confirmed@), window) == Some(i as int),
        r is None ==> forall|j: int| 0 <= j < confirmed@.len() ==> #[trigger] spec_gap(confirmed@[j].timestamp, target) > window,
{
    let ghost ts = beat_timestamps(confirmed@);
    let mut found = false;
    let mut best: usize = 0;
    let mut best_gap: u64 = 0;
    let mut k: usize = 0;
    while k < confirmed.len()
        invariant
            k <= confirmed@.len(),
            ts == beat_timestamps(confirmed@),
            ts.len() == confirmed@.len(),
            found ==> best < k && best_gap == spec_gap(ts[best as int], target) && best_gap <= window,
            found ==> forall|j: int|
                0 <= j < k && spec_gap(ts[j], target) <= window ==> best_gap <= #[trigger] spec_gap(ts[j], target),
            found ==> forall|j: int|
                0 <= j < best && spec_gap(ts[j], target) <= window ==> best_gap < #[trigger] spec_gap(ts[j], target),
            !found ==> forall|j: int| 0 <= j < k ==> #[trigger] spec_gap(ts[j], target) > window,
        decreases confirmed.len() - k,
    {
        let d = instant_diff(confirmed[k].timestamp, target);
        assert(ts[k as int] == confirmed@[k as int].timestamp);
        if d <= window && (!found || d < best_gap) {
            found = true;
            best = k;
            best_gap = d;
        }
        k += 1;
    }
    if found {
        proof {
            assert(is_nearest_within(target, ts, window, best as int));
            let c = choose|i: int| is_nearest_within(target, ts, window, i);
            lemma_nearest_unique(target, ts, window, c, best as int);
        }
        Some(best)
    } else {
        proof {
            assert forall|j: int| 0 <= j < confirmed@.len() implies #[trigger] spec_gap(confirmed@[j].timestamp, target) > window by {
                assert(ts[j] == confirmed@[j].timestamp);
            }
            if exists|i: int| is_nearest_within(target, ts, window, i) {
                let c = choose|i: int| is_nearest_within(target, ts, window, i);
                assert(spec_gap(ts[c], target) <= window);
            }
        }
        None
    }
}


// ---------------------------------------------------------------------------
// Tempo estimate
// ---------------------------------------------------------------------------


pub open spec fn is_recent(now: u64) -> spec_fn(u64) -> bool {
    |t: u64| elapsed_since(now, t) < MAX_BEAT_AGE_NANOS
}

/// Timestamps of the confirmed beats younger than `MAX_BEAT_AGE_NANOS`, in order.
pub open spec fn recent_beats(confirmed: Seq<ConfirmedBeat>, now: u64) -> Seq<u64> {
    beat_timestamps(confirmed).filter(is_recent(now))
}

/// The gaps between successive timestamps.
pub open spec fn successive_gaps(ts: Seq<u64>) -> Seq<u64> {
    Seq::new(
        (if ts.len() > 0 { ts.len() - 1 } else { 0 }) as nat,
        |k: int| elapsed_since(ts[k + 1], ts[k]) as u64,
    )
}

pub open spec fn is_plausible_interval() -> spec_fn(u64) -> bool {
    |d: u64| MIN_BEAT_INTERVAL_NANOS < d < MAX_BEAT_INTERVAL_NANOS
}

/// The gaps between successive recent beats that are plausible beat intervals.
pub open spec fn beat_intervals(recent: Seq<u64>) -> Seq<u64> {
    successive_gaps(recent).filter(is_plausible_interval())
}

/// The tempo of the confirmed beats: one minute over the median plausible interval
/// between successive recent beats (the upper median for an even count). None with
/// fewer than `MIN_BEATS_FOR_BPM` recent beats or `MIN_BEATS_FOR_BPM - 1` intervals.
pub open spec fn spec_detected_bpm(confirmed: Seq<ConfirmedBeat>, now: u64) -> Option<i64> {
    let recent = recent_beats(confirmed, now);
    let intervals = beat_intervals(recent);
    if recent.len() < MIN_BEATS_FOR_BPM {
        None
    } else if intervals.len() < MIN_BEATS_FOR_BPM - 1 {
        None
    } else {
        let median = ascending(intervals)[intervals.len() as int / 2];
        Some((NANOS_PER_MINUTE_MILLI / median) as i64)
    }
}

// ---------------------------------------------------------------------------
// Phase comparison
// ---------------------------------------------------------------------------

/// Signed offset from `clock_beat` to its nearest confirmed beat within the match window.
pub open spec fn offset_to_nearest(clock_beat: u64, confirmed: Seq<ConfirmedBeat>) -> Option<int> {
    let ts = beat_timestamps(confirmed);
    match spec_nearest(clock_beat, ts, PLL_MATCH_WINDOW_NANOS) {
        Some(i) => Some(ts[i] - clock_beat),
        None => None,
    }
}

/// Half of `x`, rounded toward zero.
pub open spec fn half_toward_zero(x: int) -> int {
    if x >= 0 {
        x / 2
    } else {
        -((-x) / 2)
    }
}

/// Average of the offsets that exist, rounded toward zero.
pub open spec fn average_offset(a: Option<int>, b: Option<int>) -> Option<int> {
    match (a, b) {
        (Some(x), Some(y)) => Some(half_toward_zero(x + y)),
        (Some(x), None) => Some(x),
        (None, Some(y)) => Some(y),
        (None, None) => None,
    }
}

/// The average phase error of the last two clock beats against the confirmed beats:
/// for each, the signed offset to its nearest confirmed beat within
/// `PLL_MATCH_WINDOW_NANOS`. None with fewer than two clock beats, no confirmed beats,
/// or no match.
pub open spec fn spec_pll_comparison(clock_beats: Seq<u64>, confirmed: Seq<ConfirmedBeat>) -> Option<int> {
    let n = clock_beats.len();
    if n < 2 || confirmed.len() == 0 {
        None
    } else {
        average_offset(
            offset_to_nearest(clock_beats[n - 2], confirmed),
            offset_to_nearest(clock_beats[n - 1], confirmed),
        )
    }
}

// ---------------------------------------------------------------------------
// One update of the loop
// ---------------------------------------------------------------------------

/// `x` limited to `lo ..= hi`.
pub open spec fn spec_clamp(x: int, lo: int, hi: int) -> int {
    if x < lo {
        lo
    } else if x > hi {
        hi
    } else {
        x
    }
}

/// The state after a tempo estimate: `Idle` starts locking when a tempo is detected;
/// locking becomes locked once the clock is within the convergence threshold; locked
/// falls back to locking once it is farther than the threshold.
pub open spec fn state_after_detection(state: SystemState, base: int, detected: Option<i64>) -> SystemState {
    match detected {
        None => state,
        Some(d) => match state {
            SystemState::Idle => SystemState::RateLocking,
            SystemState::RateLocking => if spec_abs(base - d) < BPM_CONVERGENCE_THRESHOLD {
                SystemState::Locked
            } else {
                SystemState::RateLocking
            },
            SystemState::Locked => if spec_abs(base - d) > BPM_CONVERGENCE_THRESHOLD {
                SystemState::RateLocking
            } else {
                SystemState::Locked
            },
        },
    }
}

/// The tempo the base is nudged toward: the detected tempo, kept within
/// `TAP_CONSTRAINT_RANGE` of a tapped tempo while locking.
pub open spec fn rate_target(state: SystemState, tap: Option<i64>, detected: i64) -> int {
    match tap {
        Some(t) => if state == SystemState::RateLocking {
            spec_clamp(detected as int, t - TAP_CONSTRAINT_RANGE, t + TAP_CONSTRAINT_RANGE)
        } else {
            detected as int
        },
        None => detected as int,
    }
}

/// The base tempo moved toward `target` by at most `RATE_NUDGE`, unless it is within
/// `RATE_DEADBAND` already.
pub open spec fn nudged_bpm(base: int, target: int) -> int {
    let diff = target - base;
    if spec_abs(diff) > RATE_DEADBAND {
        if diff > 0 {
            base + (if diff < RATE_NUDGE { diff } else { RATE_NUDGE as int })
        } else {
            base - (if -diff < RATE_NUDGE { -diff } else { RATE_NUDGE as int })
        }
    } else {
        base
    }
}

/// The temporary offset that corrects a phase error: `PHASE_CORRECTION_OFFSET` in the
/// direction of the error when it exceeds the threshold, else none.
pub open spec fn phase_offset(avg: int) -> int {
    if spec_unsigned_abs(avg) > PHASE_CORRECTION_THRESHOLD_NANOS {
        if avg > 0 {
            PHASE_CORRECTION_OFFSET as int
        } else {
            -PHASE_CORRECTION_OFFSET
        }
    } else {
        0
    }
}

/// The values one update leaves behind.
pub struct PllOutcome {
    pub tap_bpm: Option<i64>,
    pub state: SystemState,
    pub base_bpm: int,
    pub temporary_offset: int,
}

/// One update of the loop, given the tempo estimate and the phase comparison.
pub open spec fn pll_step(
    tap: Option<i64>,
    state: SystemState,
    clock: ClockView,
    detected: Option<i64>,
    comparison: Option<int>,
) -> PllOutcome {
    let s1 = state_after_detection(state, clock.base_bpm as int, detected);
    let entered_lock = state == SystemState::RateLocking && s1 == SystemState::Locked;
    let left_lock = state == SystemState::Locked && s1 == SystemState::RateLocking;
    let tap1 = if entered_lock { None } else { tap };
    let offset1 = if left_lock { 0 } else { clock.temporary_offset as int };
    let base1 = match detected {
        Some(d) => if s1 != SystemState::Idle {
            nudged_bpm(clock.base_bpm as int, rate_target(s1, tap1, d))
        } else {
            clock.base_bpm as int
        },
        None => clock.base_bpm as int,
    };
    let offset2 = match comparison {
        Some(avg) => if s1 == SystemState::Locked { phase_offset(avg) } else { offset1 },
        None => offset1,
    };
    PllOutcome { tap_bpm: tap1, state: s1, base_bpm: base1, temporary_offset: offset2 }
}


// ---------------------------------------------------------------------------
// Laws of the loop
// ---------------------------------------------------------------------------

/// Rate correction moves the base tempo toward the target by at most `RATE_NUDGE`,
/// never past it, and not at all within `RATE_DEADBAND`.
pub proof fn lemma_rate_nudge_bounded(base: int, target: int)
    ensures
        spec_abs(nudged_bpm(base, target) - base) <= RATE_NUDGE,
        spec_abs(target - nudged_bpm(base, target)) <= spec_abs(target - base),
        base <= target ==> base <= nudged_bpm(base, target) <= target,
        target <= base ==> target <= nudged_bpm(base, target) <= base,
        spec_abs(target - base) <= RATE_DEADBAND ==> nudged_bpm(base, target) == base,
        spec_abs(target - base) > RATE_DEADBAND ==> spec_abs(target - nudged_bpm(base, target))
            < spec_abs(target - base),
{
}

/// While locking with a tapped tempo, the target stays within `TAP_CONSTRAINT_RANGE` of it.
pub proof fn lemma_tap_constrains_target(tap: i64, detected: i64)
    ensures
        spec_abs(rate_target(SystemState::RateLocking, Some(tap), detected) - tap) <= TAP_CONSTRAINT_RANGE,
{
}

/// While locking with a tapped tempo `t`, the target is the detected tempo when it lies
/// within `TAP_CONSTRAINT_RANGE` of `t`, and otherwise the nearer end of that range.
pub proof fn lemma_tap_target_is_clamped_detection(tap: i64, detected: i64)
    ensures
        ({
            let r = rate_target(SystemState::RateLocking, Some(tap), detected);
            &&& tap - TAP_CONSTRAINT_RANGE <= detected <= tap + TAP_CONSTRAINT_RANGE ==> r == detected
            &&& detected < tap - TAP_CONSTRAINT_RANGE ==> r == tap - TAP_CONSTRAINT_RANGE
            &&& detected > tap + TAP_CONSTRAINT_RANGE ==> r == tap + TAP_CONSTRAINT_RANGE
        }),
{
}

/// While locking with a tapped tempo near the detected tempo, and not yet close enough
/// to lock, an update moves the base tempo straight toward the detected tempo by
/// `RATE_NUDGE`, or all the way when it is nearer than that.
pub proof fn lemma_locking_nudges_toward_detected_near_tap(
    tap: i64,
    clock: ClockView,
    detected: i64,
    comparison: Option<int>,
)
    requires
        spec_abs(detected - tap) <= TAP_CONSTRAINT_RANGE,
        spec_abs(clock.base_bpm - detected) >= BPM_CONVERGENCE_THRESHOLD,
    ensures
        ({
            let out = pll_step(Some(tap), SystemState::RateLocking, clock, Some(detected), comparison);
            let gap = detected - clock.base_bpm;
            &&& out.state == SystemState::RateLocking
            &&& out.tap_bpm == Some(tap)
            &&& gap > 0 ==> out.base_bpm == clock.base_bpm + (if gap < RATE_NUDGE { gap } else { RATE_NUDGE as int })
            &&& gap < 0 ==> out.base_bpm == clock.base_bpm - (if -gap < RATE_NUDGE { -gap } else { RATE_NUDGE as int })
        }),
{
}

/// An update leaves the system `Idle` exactly when it was `Idle` and no tempo was
/// detected; a detected tempo always moves `Idle` to `RateLocking`.
pub proof fn lemma_idle_only_without_tempo(
    tap: Option<i64>,
    state: SystemState,
    clock: ClockView,
    detected: Option<i64>,
    comparison: Option<int>,
)
    ensures
        (pll_step(tap, state, clock, detected, comparison).state == SystemState::Idle) <==> (state
            == SystemState::Idle && detected is None),
        state == SystemState::Idle && detected is Some ==> pll_step(tap, state, clock, detected, comparison).state
            == SystemState::RateLocking,
{
}

/// Locking clears the tapped tempo, and happens only once the base tempo is within the
/// convergence threshold of the detected tempo.
pub proof fn lemma_locking_clears_tap(
    tap: Option<i64>,
    clock: ClockView,
    detected: Option<i64>,
    comparison: Option<int>,
)
    ensures
        pll_step(tap, SystemState::RateLocking, clock, detected, comparison).state == SystemState::Locked
            ==> (pll_step(tap, SystemState::RateLocking, clock, detected, comparison).tap_bpm is None
            && (detected matches Some(d) && spec_abs(clock.base_bpm - d) < BPM_CONVERGENCE_THRESHOLD)),
{
}

/// Once locked, the offset after an update is none or the phase correction in either
/// direction; it is unchanged only while the system is not locked and does not leave
/// the locked state.
pub proof fn lemma_phase_offset_values(
    tap: Option<i64>,
    state: SystemState,
    clock: ClockView,
    detected: Option<i64>,
    comparison: Option<int>,
)
    ensures
        ({
            let out = pll_step(tap, state, clock, detected, comparison);
            &&& out.state == SystemState::Locked && comparison is Some ==> (out.temporary_offset == 0
                || out.temporary_offset == PHASE_CORRECTION_OFFSET || out.temporary_offset
                == -PHASE_CORRECTION_OFFSET)
            &&& state == SystemState::Locked && out.state == SystemState::RateLocking ==> out.temporary_offset == 0
        }),
{
}

/// An update never changes the base tempo by more than `RATE_NUDGE`.
pub proof fn lemma_update_changes_base_by_at_most_nudge(
    tap: Option<i64>,
    state: SystemState,
    clock: ClockView,
    detected: Option<i64>,
    comparison: Option<int>,
)
    ensures
        spec_abs(pll_step(tap, state, clock, detected, comparison).base_bpm - clock.base_bpm) <= RATE_NUDGE,
{
    match detected {
        Some(d) => {
            let s1 = state_after_detection(state, clock.base_bpm as int, detected);
            let tap1 = if state == SystemState::RateLocking && s1 == SystemState::Locked { None } else { tap };
            lemma_rate_nudge_bounded(clock.base_bpm as int, rate_target(s1, tap1, d));
        },
        None => {},
    }
}

/// Number of values of `s` below `m`.
pub open spec fn count_below(s: Seq<u64>, m: u64) -> nat {
    s.filter(|x: u64| x < m).len()
}

/// Number of values of `s` at most `m`.
pub open spec fn count_at_most(s: Seq<u64>, m: u64) -> nat {
    s.filter(|x: u64| x <= m).len()
}

pub open spec fn count_pred_step(p: spec_fn(u64) -> bool) -> spec_fn(u64, nat) -> nat {
    |x: u64, acc: nat| acc + (if p(x) { 1nat } else { 0nat })
}

proof fn lemma_count_pred_accumulates(s: Seq<u64>, p: spec_fn(u64) -> bool, b: nat)
    ensures
        s.fold_right(count_pred_step(p), b) == s.fold_right(count_pred_step(p), 0nat) + b,
    decreases s.len(),
{
    if s.len() > 0 {
        let g = count_pred_step(p);
        lemma_count_pred_accumulates(s.drop_last(), p, g(s.last(), b));
        lemma_count_pred_accumulates(s.drop_last(), p, g(s.last(), 0nat));
    }
}

proof fn lemma_filter_len_fold(s: Seq<u64>, p: spec_fn(u64) -> bool)
    ensures
        s.filter(p).len() == s.fold_right(count_pred_step(p), 0nat),
    decreases s.len(),
{
    if s.len() > 0 {
        let init = s.drop_last();
        lemma_filter_len_fold(init, p);
        assert(init.push(s.last()) =~= s);
        init.lemma_filter_push(s.last(), p);
        lemma_count_pred_accumulates(init, p, count_pred_step(p)(s.last(), 0nat));
    } else {
        assert(s.filter(p) =~= Seq::<u64>::empty()) by {
            reveal(Seq::filter);
        }
    }
}

/// How many values satisfy a predicate does not depend on their order.
pub proof fn lemma_filter_len_permutation(s1: Seq<u64>, s2: Seq<u64>, p: spec_fn(u64) -> bool)
    requires
        s1.to_multiset() == s2.to_multiset(),
    ensures
        s1.filter(p).len() == s2.filter(p).len(),
{
    vstd::seq_lib::lemma_fold_right_permutation(s1, s2, count_pred_step(p), 0nat);
    lemma_filter_len_fold(s1, p);
    lemma_filter_len_fold(s2, p);
}

proof fn lemma_filter_all_true(s: Seq<u64>, p: spec_fn(u64) -> bool)
    requires
        forall|i: int| 0 <= i < s.len() ==> #[trigger] p(s[i]),
    ensures
        s.filter(p) == s,
    decreases s.len(),
{
    if s.len() > 0 {
        let init = s.drop_last();
        lemma_filter_all_true(init, p);
        assert(init.push(s.last()) =~= s);
        init.lemma_filter_push(s.last(), p);
        assert(p(s[s.len() - 1]));
    } else {
        assert(s.filter(p) =~= s) by {
            reveal(Seq::filter);
        }
    }
}

/// The value at rank `k` of the ascending order of `s` has at most `k` values of `s`
/// below it and more than `k` values of `s` at or below it.
pub proof fn lemma_rank_counts(s: Seq<u64>, k: int)
    requires
        0 <= k < s.len(),
    ensures
        count_below(s, ascending(s)[k]) <= k,
        count_at_most(s, ascending(s)[k]) > k,
{
    let t = ascending(s);
    let m = t[k];
    lemma_ascending_properties(s);
    let lt = |x: u64| x < m;
    let le = |x: u64| x <= m;
    lemma_filter_len_permutation(s, t, lt);
    lemma_filter_len_permutation(s, t, le);
    assert(t =~= t.take(k) + t.skip(k));
    assert(t =~= t.take(k + 1) + t.skip(k + 1));
    Seq::filter_distributes_over_add(t.take(k), t.skip(k), lt);
    Seq::filter_distributes_over_add(t.take(k + 1), t.skip(k + 1), le);
    let hi = t.skip(k);
    assert forall|i: int| 0 <= i < hi.len() implies !lt(#[trigger] hi[i]) by {
        assert(crate::ordering_util::ascending_le()(t[k], t[k + i]));
    }
    assert(hi.all(|x: u64| !lt(x)));
    hi.lemma_all_neg_filter_empty(lt);
    t.take(k).lemma_filter_len(lt);
    let lo = t.take(k + 1);
    assert forall|i: int| 0 <= i < lo.len() implies #[trigger] le(lo[i]) by {
        if i < k {
            assert(crate::ordering_util::ascending_le()(t[i], t[k]));
        }
    }
    lemma_filter_all_true(lo, le);
}

/// A detected tempo is one minute over the median of the plausible beat intervals: an
/// interval `m` with at most half of the intervals (rounded down) below it and more than
/// that many at or below it.
pub proof fn lemma_detected_bpm_is_median_tempo(confirmed: Seq<ConfirmedBeat>, now: u64)
    ensures
        spec_detected_bpm(confirmed, now) matches Some(b) ==> {
            let intervals = beat_intervals(recent_beats(confirmed, now));
            exists|m: u64|
                #![trigger intervals.contains(m)]
                intervals.contains(m) && MIN_BEAT_INTERVAL_NANOS < m && b == NANOS_PER_MINUTE_MILLI / m
                    && count_below(intervals, m) <= intervals.len() / 2 && count_at_most(intervals, m)
                    > intervals.len() / 2
        },
{
    let intervals = beat_intervals(recent_beats(confirmed, now));
    if spec_detected_bpm(confirmed, now) is Some {
        let k = intervals.len() as int / 2;
        let m = ascending(intervals)[k];
        lemma_rank_counts(intervals, k);
        lemma_ascending_properties(intervals);
        assert(intervals.contains(m)) by {
            broadcast use vstd::seq_lib::group_to_multiset_ensures;

            assert(ascending(intervals).contains(m));
            assert(ascending(intervals).to_multiset().contains(m));
        }
        let w = choose|w: int| 0 <= w < intervals.len() && intervals[w] == m;
        successive_gaps(recent_beats(confirmed, now)).lemma_filter_pred(is_plausible_interval(), w);
        assert(intervals.contains(m));
    }
}

/// A plausible beat interval gives a tempo between 30 and 600 BPM.
proof fn lemma_tempo_of_interval_bounds(m: u64)
    requires
        MIN_BEAT_INTERVAL_NANOS < m < MAX_BEAT_INTERVAL_NANOS,
    ensures
        30_000 <= NANOS_PER_MINUTE_MILLI / m <= 600_000,
{
    let q = NANOS_PER_MINUTE_MILLI / m;
    vstd::arithmetic::div_mod::lemma_fundamental_div_mod(NANOS_PER_MINUTE_MILLI as int, m as int);
    let r = NANOS_PER_MINUTE_MILLI % m;
    assert(NANOS_PER_MINUTE_MILLI == m * q + r);
    assert(0 <= r < m);
    if q < 30_000 {
        assert(m * q <= m * 29_999) by (nonlinear_arith)
            requires q < 30_000, m > 0, q >= 0;
        assert(false);
    }
    if q > 600_000 {
        assert(m * q >= m * 600_001) by (nonlinear_arith)
            requires q > 600_000, m > 0;
        assert(false);
    }
}

/// The phase-locked loop; it remembers a tapped tempo until it locks.
pub struct Pll {
    tap_bpm: Option<i64>,
}

impl View for Pll {
    type V = Option<i64>;

    closed spec fn view(&self) -> Option<i64> {
        self.tap_bpm
    }
}

impl Pll {
    /// No tapped tempo.
    pub fn new() -> (p: Self)
        ensures
            p@ is None,
    {
        Pll { tap_bpm: None }
    }

    /// Remembers a tapped tempo, which constrains the target while locking.
    pub fn set_tap_bpm(&mut self, bpm: i64)
        ensures
            final(self)@ == Some(bpm),
    {
        self.tap_bpm = Some(bpm);
    }

    /// The tempo of the recent confirmed beats at time `now` (see `spec_detected_bpm`).
    pub fn detected_bpm(&self, confirmed: &[ConfirmedBeat], now: u64) -> (r: Option<i64>)
        ensures
            r == spec_detected_bpm(confirmed@, now),
            r matches Some(b) ==> 30_000 <= b <= 600_000,
    {
        let ghost all_ts = beat_timestamps(confirmed@);
        let mut recent: Vec<u64> = Vec::new();
        let mut i: usize = 0;
        while i < confirmed.len()
            invariant
                i <= confirmed@.len(),
                all_ts == beat_timestamps(confirmed@),
                recent@ == all_ts.take(i as int).filter(is_recent(now)),
            decreases confirmed.len() - i,
        {
            let t = confirmed[i].timestamp;
            proof {
                assert(all_ts[i as int] == t);
                assert(all_ts.take(i + 1) =~= all_ts.take(i as int).push(t));
                all_ts.take(i as int).lemma_filter_push(t, is_recent(now));
            }
            let age: u64 = if now >= t { now - t } else { 0 };
            if age < MAX_BEAT_AGE_NANOS {
                recent.push(t);
            }
            i += 1;
        }
        assert(all_ts.take(i as int) =~= all_ts);
        assert(recent@ == recent_beats(confirmed@, now));
        if recent.len() < MIN_BEATS_FOR_BPM {
            return None;
        }
        let ghost gaps = successive_gaps(recent@);
        let mut intervals: Vec<u64> = Vec::new();
        let mut k: usize = 0;
        while k + 1 < recent.len()
            invariant
                recent@.len() >= MIN_BEATS_FOR_BPM,
                k + 1 <= recent@.len(),
                gaps == successive_gaps(recent@),
                intervals@ == gaps.take(k as int).filter(is_plausible_interval()),
            decreases recent.len() - k,
        {
            let a = recent[k];
            let b = recent[k + 1];
            let d: u64 = if b >= a { b - a } else { 0 };
            proof {
                assert(gaps[k as int] == d);
                assert(gaps.take(k + 1) =~= gaps.take(k as int).push(d));
                gaps.take(k as int).lemma_filter_push(d, is_plausible_interval());
            }
            if MIN_BEAT_INTERVAL_NANOS < d && d < MAX_BEAT_INTERVAL_NANOS {
                intervals.push(d);
            }
            k += 1;
        }
        assert(gaps.take(k as int) =~= gaps);
        if intervals.len() < MIN_BEATS_FOR_BPM - 1 {
            return None;
        }
        let ghost unsorted = intervals@;
        sort_ascending(&mut intervals);
        let median = intervals[intervals.len() / 2];
        proof {
            lemma_ascending_properties(unsorted);
            assert(unsorted.to_multiset().contains(median)) by {
                assert(ascending(unsorted).to_multiset().contains(median)) by {
                    broadcast use vstd::seq_lib::group_to_multiset_ensures;

                    assert(ascending(unsorted).contains(median)) by {
                        assert(ascending(unsorted)[intervals@.len() as int / 2] == median);
                    }
                }
            }
            assert(unsorted.contains(median)) by {
                broadcast use vstd::seq_lib::group_to_multiset_ensures;
            }
            let w = choose|w: int| 0 <= w < unsorted.len() && unsorted[w] == median;
            gaps.lemma_filter_pred(is_plausible_interval(), w);
            assert(MIN_BEAT_INTERVAL_NANOS < median < MAX_BEAT_INTERVAL_NANOS);
            lemma_tempo_of_interval_bounds(median);
        }
        let bpm = NANOS_PER_MINUTE_MILLI / median;
        Some(bpm as i64)
    }

    /// The average phase error of the last two clock beats (see `spec_pll_comparison`).
    pub fn pll_comparison(&self, clock_beats: &[u64], confirmed: &[ConfirmedBeat]) -> (r: Option<SignedDuration>)
        ensures
            r is None <==> spec_pll_comparison(clock_beats@, confirmed@) is None,
            r matches Some(d) ==> spec_pll_comparison(clock_beats@, confirmed@) == Some(d@),
    {
        if clock_beats.len() < 2 || confirmed.len() == 0 {
            return None;
        }
        let n = clock_beats.len();
        let o0 = Self::offset_to_nearest_confirmed(clock_beats[n - 2], confirmed);
        let o1 = Self::offset_to_nearest_confirmed(clock_beats[n - 1], confirmed);
        match (o0, o1) {
            (Some(a), Some(b)) => {
                let sum: i128 = a.nanos + b.nanos;
                let avg: i128 = if sum >= 0 {
                    sum / 2
                } else {
                    0 - ((0 - sum) / 2)
                };
                Some(SignedDuration { nanos: avg })
            },
            (Some(a), None) => Some(a),
            (None, Some(b)) => Some(b),
            (None, None) => None,
        }
    }

    /// Signed offset from a clock beat to its nearest confirmed beat within the window.
    fn offset_to_nearest_confirmed(clock_beat: u64, confirmed: &[ConfirmedBeat]) -> (r: Option<SignedDuration>)
        ensures
            r is None <==> offset_to_nearest(clock_beat, confirmed@) is None,
            r matches Some(d) ==> offset_to_nearest(clock_beat, confirmed@) == Some(d@),
            r matches Some(d) ==> -0x1_0000_0000_0000_0000 < d@ < 0x1_0000_0000_0000_0000,
    {
        match find_nearest_confirmed(clock_beat, confirmed, PLL_MATCH_WINDOW_NANOS) {
            Some(i) => {
                assert(beat_timestamps(confirmed@)[i as int] == confirmed@[i as int].timestamp);
                Some(signed_diff(confirmed[i].timestamp, clock_beat))
            },
            None => None,
        }
    }

    /// One update of the loop at time `now` (see `pll_step`): estimate the tempo of the
    /// confirmed beats, move the system state, nudge the clock's base tempo toward the
    /// estimate and, when locked, set the phase-correcting offset from the last two
    /// clock beats.
    pub fn update(
        &mut self,
        now: u64,
        clock_beats: &[u64],
        confirmed: &[ConfirmedBeat],
        system_state: &mut SharedState,
        clock_state: &mut ClockState,
    )
        ensures
            ({
                let out = pll_step(
                    old(self)@,
                    old(system_state)@,
                    old(clock_state)@,
                    spec_detected_bpm(confirmed@, now),
                    spec_pll_comparison(clock_beats@, confirmed@),
                );
                &&& final(self)@ == out.tap_bpm
                &&& final(system_state)@ == out.state
                &&& final(clock_state)@.base_bpm == out.base_bpm
                &&& final(clock_state)@.temporary_offset == out.temporary_offset
            }),
    {
        let state = system_state.get();
        let detected = self.detected_bpm(confirmed, now);

        // State transitions on the detected tempo.
        match state {
            SystemState::Idle => {
                if detected.is_some() {
                    system_state.set(SystemState::RateLocking);
                }
            },
            SystemState::RateLocking => {
                if let Some(dbpm) = detected {
                    let diff = clock_state.base_bpm() as i128 - dbpm as i128;
                    if abs_i128(diff) < BPM_CONVERGENCE_THRESHOLD as i128 {
                        self.tap_bpm = None;
                        system_state.set(SystemState::Locked);
                    }
                }
            },
            SystemState::Locked => {
                if let Some(dbpm) = detected {
                    let diff = clock_state.base_bpm() as i128 - dbpm as i128;
                    if abs_i128(diff) > BPM_CONVERGENCE_THRESHOLD as i128 {
                        clock_state.set_temporary_offset(0);
                        system_state.set(SystemState::RateLocking);
                    }
                }
            },
        }

        let state = system_state.get();

        // Rate correction, while locking or locked.
        if state != SystemState::Idle {
            if let Some(dbpm) = detected {
                let mut target: i128 = dbpm as i128;
                if state == SystemState::RateLocking {
                    if let Some(tap) = self.tap_bpm {
                        let lo = tap as i128 - TAP_CONSTRAINT_RANGE as i128;
                        let hi = tap as i128 + TAP_CONSTRAINT_RANGE as i128;
                        target = if target < lo {
                            lo
                        } else if target > hi {
                            hi
                        } else {
                            target
                        };
                    }
                }
                let current = clock_state.base_bpm();
                let diff: i128 = target - current as i128;
                if abs_i128(diff) > RATE_DEADBAND as i128 {
                    let nudge: i128 = if diff > 0 {
                        if diff < RATE_NUDGE as i128 {
                            diff
                        } else {
                            RATE_NUDGE as i128
                        }
                    } else {
                        if 0 - diff < RATE_NUDGE as i128 {
                            diff
                        } else {
                            0 - RATE_NUDGE as i128
                        }
                    };
                    clock_state.set_base_bpm((current as i128 + nudge) as i64);
                }
            }
        }

        // Phase correction, only when locked.
        if state == SystemState::Locked {
            if let Some(avg_offset) = self.pll_comparison(clock_beats, confirmed) {
                if avg_offset.unsigned_abs() > PHASE_CORRECTION_THRESHOLD_NANOS {
                    let sign: i64 = if avg_offset.is_positive() {
                        1
                    } else {
                        -1
                    };
                    clock_state.set_temporary_offset(sign * PHASE_CORRECTION_OFFSET);
                } else {
                    clock_state.set_temporary_offset(0);
                }
            }
        }
    }
}

/// Magnitude of a tempo difference.
fn abs_i128(x: i128) -> (r: i128)
    requires
        x > i128::MIN,
    ensures
        r == spec_abs(x as int),
{
    if x >= 0 {
        x
    } else {
        0 - x
    }
}

} // verus!
